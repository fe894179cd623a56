use ibis::activity::{delivery_inboxes, Accept, ActorInboxes, Follow, FollowTable};
use ibis::api::{check_is_admin, edit_list_params, empty_to_none, ApiError, LocalUserView, ViewEditParams};
use ibis::collection::{generate_activity_id, linked_instances_url, ApubInstance, DbInstanceCollection, Instance, InstanceCollection};
use ibis::federation::{is_local_id, verify_domains_match, verify_urls_match, FederationError};
use ibis::article::SubmitOutcome;
use ibis::objects::{ApubArticle, ApubArticleOrComment, ApubComment, ApubEdit, DbArticleOrComment};
use ibis::patch::{Hunk, Patch};
use ibis::version::text_version;
use ibis::store::VersionStore;
use ibis::version::EditVersion;

fn actor(ap_id: &str, inbox: &str, shared: Option<&str>) -> ActorInboxes {
    ActorInboxes { ap_id: ap_id.to_string(), inbox: inbox.to_string(), shared_inbox: shared.map(|s| s.to_string()) }
}

#[test]
fn scenario_follow_is_recorded_once_and_accepted() {
    let mut follows = FollowTable::new();
    let remote = actor("https://remote.org/u/alice", "https://remote.org/u/alice/inbox", Some("https://remote.org/inbox"));
    let follow = Follow {
        actor: "https://remote.org/u/alice".to_string(),
        object: "https://local.net".to_string(),
        id: "https://remote.org/activity/1".to_string(),
    };
    let (accept, inboxes) = follow.receive("https://local.net/", &remote, "https://local.net/activity/a".to_string(), &mut follows).unwrap();
    assert_eq!(inboxes, vec!["https://remote.org/inbox".to_string()]);
    assert_eq!(accept.actor, "https://local.net/");
    assert_eq!(accept.object.actor, "https://remote.org/u/alice");
    assert_eq!(follows.relations.len(), 1);
    assert!(!follows.relations[0].pending);
    let again = Follow {
        actor: "https://remote.org/u/alice".to_string(),
        object: "https://local.net/".to_string(),
        id: "https://remote.org/activity/2".to_string(),
    };
    again.receive("https://local.net/", &remote, "https://local.net/activity/b".to_string(), &mut follows).unwrap();
    assert_eq!(follows.relations.len(), 1);
}

#[test]
fn follow_for_another_instance_is_refused() {
    let mut follows = FollowTable::new();
    let remote = actor("https://remote.org/u/alice", "https://remote.org/u/alice/inbox", None);
    let follow = Follow {
        actor: "https://remote.org/u/alice".to_string(),
        object: "https://elsewhere.net/".to_string(),
        id: "https://remote.org/activity/1".to_string(),
    };
    let r = follow.receive("https://local.net/", &remote, "x".to_string(), &mut follows);
    assert_eq!(r.err(), Some(FederationError::UrlMismatch));
    assert!(follows.relations.is_empty());
}

#[test]
fn accept_records_follow_once() {
    let mut follows = FollowTable::new();
    follows.follow("https://local.net/u/bob", "https://remote.org/", true);
    assert!(follows.relations[0].pending);
    let me = actor("https://local.net/u/bob", "https://local.net/u/bob/inbox", None);
    let them = actor("https://remote.org/", "https://remote.org/inbox", None);
    let (follow, inboxes) = Follow::send(&me, &them, "https://local.net/activity/f".to_string());
    assert_eq!(inboxes, vec!["https://remote.org/inbox".to_string()]);
    let (accept, to) = Accept::send("https://remote.org/", follow, &me, "https://remote.org/activity/a".to_string());
    assert_eq!(to, vec!["https://local.net/u/bob/inbox".to_string()]);
    let dup = Accept {
        actor: accept.actor.clone(),
        object: Follow { actor: accept.object.actor.clone(), object: accept.object.object.clone(), id: accept.object.id.clone() },
        id: accept.id.clone(),
    };
    accept.receive(&mut follows);
    dup.receive(&mut follows);
    assert_eq!(follows.relations.len(), 1);
    assert!(!follows.relations[0].pending);
}

#[test]
fn delivery_prefers_shared_inbox_and_dedups() {
    let rs = vec![
        actor("https://a.org/u/1", "https://a.org/u/1/inbox", Some("https://a.org/inbox")),
        actor("https://a.org/u/2", "https://a.org/u/2/inbox", Some("https://a.org/inbox")),
        actor("https://b.org/u/3", "https://b.org/u/3/inbox", None),
    ];
    assert_eq!(delivery_inboxes(&rs), vec!["https://a.org/inbox".to_string(), "https://b.org/u/3/inbox".to_string()]);
}

#[test]
fn domains_are_compared_after_parsing() {
    assert_eq!(verify_domains_match("https://example.com/a", "https://example.com/b/c"), Ok(()));
    assert_eq!(verify_domains_match("https://example.com/a", "https://evil.com/a"), Err(FederationError::DomainMismatch));
    assert_eq!(verify_domains_match("not a url", "https://example.com"), Err(FederationError::InvalidUrl));
}

#[test]
fn urls_are_compared_after_normalizing() {
    assert_eq!(verify_urls_match("https://Example.com", "https://example.com/"), Ok(()));
    assert_eq!(verify_urls_match("https://example.com/a", "https://example.com/b"), Err(FederationError::UrlMismatch));
}

#[test]
fn local_ids_are_recognized_by_domain() {
    assert!(is_local_id("https://local.net/article/Main", "local.net"));
    assert!(!is_local_id("https://remote.org/article/Main", "local.net"));
    assert!(!is_local_id("garbage", "local.net"));
}

#[test]
fn urls_are_built_from_protocol_and_domain() {
    assert_eq!(linked_instances_url("https", "example.com"), Ok("https://example.com/linked_instances".to_string()));
    assert_eq!(generate_activity_id("http", "example.com", "abc1234"), Ok("http://example.com/activity/abc1234".to_string()));
    assert_eq!(linked_instances_url("", "example.com"), Err(FederationError::InvalidUrl));
}

#[test]
fn collection_lists_remote_instances() {
    let instances = vec![
        Instance { ap_id: "https://local.net/".to_string(), inbox: "https://local.net/inbox".to_string(), local: true },
        Instance { ap_id: "https://remote.org/".to_string(), inbox: "https://remote.org/inbox".to_string(), local: false },
    ];
    let c = DbInstanceCollection::read_local(&instances, "https", "local.net").unwrap();
    assert_eq!(c.id, "https://local.net/linked_instances");
    assert_eq!(c.total_items, 1);
    assert_eq!(c.items[0].id, "https://remote.org/");
    assert_eq!(DbInstanceCollection::verify(&c, "https://local.net/"), Ok(()));
    assert_eq!(DbInstanceCollection::verify(&c, "https://remote.org/"), Err(FederationError::DomainMismatch));
}

#[test]
fn received_collection_skips_self() {
    let c = InstanceCollection {
        id: "https://remote.org/linked_instances".to_string(),
        total_items: 3,
        items: vec![
            ApubInstance { id: "https://local.net/".to_string(), inbox: "https://local.net/inbox".to_string() },
            ApubInstance { id: "https://third.org/".to_string(), inbox: "https://third.org/inbox".to_string() },
            ApubInstance { id: "https://fourth.org/".to_string(), inbox: "https://fourth.org/inbox".to_string() },
        ],
    };
    let todo = DbInstanceCollection::from_json(c, "local.net");
    let ids: Vec<String> = todo.iter().map(|i| i.id.clone()).collect();
    assert_eq!(ids, vec!["https://third.org/".to_string(), "https://fourth.org/".to_string()]);
}

#[test]
fn article_or_comment_resolves_articles_first() {
    let mut store = VersionStore::new();
    let art = ApubArticleOrComment::Article(ApubArticle {
        id: "https://remote.org/article/A".to_string(),
        name: "A".to_string(),
        content: vec![],
        latest_version: EditVersion { hash: 0 },
        protected: false,
        edit: None,
    });
    assert_eq!(DbArticleOrComment::verify(&art, "https://remote.org/"), Ok(()));
    assert_eq!(DbArticleOrComment::verify(&art, "https://evil.org/"), Err(FederationError::DomainMismatch));
    let a = DbArticleOrComment::from_json(art, 2, &mut store).unwrap();
    assert_eq!(a, DbArticleOrComment::Article(0));
    assert!(!store.articles[0].local);
    let com = ApubArticleOrComment::Comment(ApubComment {
        id: "https://remote.org/comment/1".to_string(),
        in_reply_to: "https://remote.org/article/A".to_string(),
        content: "nice".to_string(),
    });
    assert_eq!(DbArticleOrComment::from_json(com, 2, &mut store), Ok(DbArticleOrComment::Comment(0)));
    let reply = ApubArticleOrComment::Comment(ApubComment {
        id: "https://remote.org/comment/2".to_string(),
        in_reply_to: "https://remote.org/comment/1".to_string(),
        content: "thanks".to_string(),
    });
    assert_eq!(DbArticleOrComment::from_json(reply, 2, &mut store), Ok(DbArticleOrComment::Comment(1)));
    assert_eq!(store.comments[1].parent, Some(0));
    assert_eq!(store.comments[1].article, 0);
    assert_eq!(DbArticleOrComment::read_from_id(&store, "https://remote.org/article/A"), Some(DbArticleOrComment::Article(0)));
    assert_eq!(DbArticleOrComment::read_from_id(&store, "https://remote.org/comment/2"), Some(DbArticleOrComment::Comment(1)));
    assert_eq!(DbArticleOrComment::read_from_id(&store, "https://remote.org/nothing"), None);
    match DbArticleOrComment::Comment(1).into_json(&store) {
        ApubArticleOrComment::Comment(c) => assert_eq!(c.in_reply_to, "https://remote.org/comment/1"),
        _ => panic!("expected a comment"),
    }
    let orphan = ApubArticleOrComment::Comment(ApubComment {
        id: "https://remote.org/comment/3".to_string(),
        in_reply_to: "https://remote.org/missing".to_string(),
        content: "?".to_string(),
    });
    assert_eq!(DbArticleOrComment::from_json(orphan, 2, &mut store), Err(FederationError::NotFound));
}

#[test]
fn admin_check() {
    let admin = LocalUserView { person_id: 1, name: "root".to_string(), admin: true };
    let user = LocalUserView { person_id: 2, name: "u".to_string(), admin: false };
    assert_eq!(check_is_admin(&admin), Ok(()));
    assert_eq!(check_is_admin(&user), Err(ApiError::NotAdmin));
}

#[test]
fn edit_list_needs_article_or_person() {
    assert_eq!(edit_list_params(Some(3), Some(4)), Ok(ViewEditParams::ArticleId(3)));
    assert_eq!(edit_list_params(None, Some(4)), Ok(ViewEditParams::PersonId(4)));
    assert_eq!(edit_list_params(None, None), Err(ApiError::MissingParameter));
}

#[test]
fn empty_to_none_trims() {
    let mut v = Some("  hello world \n".to_string());
    empty_to_none(&mut v);
    assert_eq!(v, Some("hello world".to_string()));
    let mut n: Option<String> = None;
    empty_to_none(&mut n);
    assert_eq!(n, None);
}

fn wire_article(id: &str, based_on: EditVersion, hunks: Vec<Hunk>, author: u64, version: u64) -> ApubArticleOrComment {
    ApubArticleOrComment::Article(ApubArticle {
        id: id.to_string(),
        name: "Main".to_string(),
        content: vec!["ignored".to_string()],
        latest_version: EditVersion { hash: version },
        protected: false,
        edit: Some(ApubEdit {
            based_on,
            patch: Patch { hunks },
            summary: "s".to_string(),
            author,
            version: EditVersion { hash: version },
        }),
    })
}

fn insert(start: usize, removed: usize, line: &str) -> Vec<Hunk> {
    vec![Hunk { start, removed, inserted: vec![line.to_string()] }]
}

#[test]
fn received_article_applies_its_edit_not_its_text() {
    let mut store = VersionStore::new();
    let v0 = text_version(&Vec::new());
    let id = "https://remote.org/article/Main";
    let r = DbArticleOrComment::from_json(wire_article(id, v0, insert(0, 0, "add intro"), 1, 101), 2, &mut store);
    assert_eq!(r, Ok(DbArticleOrComment::Article(0)));
    let a = &store.articles[0];
    assert_eq!(a.text, vec!["add intro".to_string()]);
    assert_eq!(a.edits.len(), 1);
    assert_eq!(a.edits[0].author, 1);
    assert_eq!(a.version, text_version(&a.text));
}

#[test]
fn received_disjoint_edit_merges() {
    let mut store = VersionStore::new();
    let v0 = text_version(&Vec::new());
    let id = "https://remote.org/article/Main";
    DbArticleOrComment::from_json(wire_article(id, v0, insert(0, 0, "add intro"), 1, 101), 2, &mut store).unwrap();
    let v1 = store.articles[0].version;
    DbArticleOrComment::from_json(wire_article(id, v0, insert(0, 0, "add references"), 2, 102), 2, &mut store).unwrap();
    let a = &store.articles[0];
    assert_eq!(a.text, vec!["add intro".to_string(), "add references".to_string()]);
    assert_eq!(a.edits.len(), 2);
    assert_ne!(a.version, v1);
    assert!(a.conflicts.is_empty());
}

#[test]
fn received_overlapping_edit_conflicts() {
    let mut store = VersionStore::new();
    let v0 = text_version(&Vec::new());
    let id = "https://remote.org/article/Main";
    DbArticleOrComment::from_json(wire_article(id, v0, insert(0, 0, "line"), 1, 100), 2, &mut store).unwrap();
    let base = store.articles[0].version;
    DbArticleOrComment::from_json(wire_article(id, base, insert(0, 1, "by A"), 1, 101), 2, &mut store).unwrap();
    let v1 = store.articles[0].version;
    DbArticleOrComment::from_json(wire_article(id, base, insert(0, 1, "by B"), 2, 102), 2, &mut store).unwrap();
    let a = &store.articles[0];
    assert_eq!(a.version, v1);
    assert_eq!(a.edits.len(), 2);
    assert_eq!(a.conflicts.len(), 1);
    assert_eq!(a.conflicts[0].previous_version, base);
    assert_eq!(a.conflicts[0].actual_version, v1);
    assert_eq!(a.conflicts[0].author, 2);
}

#[test]
fn received_duplicate_and_invalid_edits() {
    let mut store = VersionStore::new();
    let v0 = text_version(&Vec::new());
    let id = "https://remote.org/article/Main";
    DbArticleOrComment::from_json(wire_article(id, v0, insert(0, 0, "x"), 1, 101), 2, &mut store).unwrap();
    DbArticleOrComment::from_json(wire_article(id, v0, insert(0, 0, "x"), 1, 101), 2, &mut store).unwrap();
    assert_eq!(store.articles[0].edits.len(), 1);
    let head = store.articles[0].version;
    let bad = DbArticleOrComment::from_json(wire_article(id, head, insert(5, 1, "y"), 1, 103), 2, &mut store);
    assert_eq!(bad, Err(FederationError::InvalidEdit));
}

#[test]
fn into_json_then_from_json_round_trips() {
    let mut store = VersionStore::new();
    let v0 = text_version(&Vec::new());
    let id = "https://remote.org/article/Main";
    DbArticleOrComment::from_json(wire_article(id, v0, insert(0, 0, "x"), 1, 101), 2, &mut store).unwrap();
    let json = DbArticleOrComment::Article(0).into_json(&store);
    let r = DbArticleOrComment::from_json(json, 2, &mut store);
    assert_eq!(r, Ok(DbArticleOrComment::Article(0)));
    assert_eq!(store.articles.len(), 1);
    assert_eq!(store.articles[0].edits.len(), 1);
    assert_eq!(store.articles[0].text, vec!["x".to_string()]);
}

#[test]
fn follow_whose_actor_is_not_the_follower_is_refused() {
    let mut follows = FollowTable::new();
    let other = actor("https://remote.org/u/mallory", "https://remote.org/u/mallory/inbox", None);
    let follow = Follow {
        actor: "https://remote.org/u/alice".to_string(),
        object: "https://local.net/".to_string(),
        id: "https://remote.org/activity/1".to_string(),
    };
    let r = follow.receive("https://local.net/", &other, "x".to_string(), &mut follows);
    assert_eq!(r.err(), Some(FederationError::UrlMismatch));
    assert!(follows.relations.is_empty());
    let _ = SubmitOutcome::Unchanged;
}

#[test]
fn empty_to_none_turns_blank_into_none() {
    let mut v = Some("   \n\t ".to_string());
    empty_to_none(&mut v);
    assert_eq!(v, None);
    let mut e = Some(String::new());
    empty_to_none(&mut e);
    assert_eq!(e, None);
}

#[test]
fn deleting_an_article_takes_its_comments_and_renumbers() {
    let mut store = VersionStore::new();
    let v0 = text_version(&Vec::new());
    for id in ["https://r.org/article/A", "https://r.org/article/B"] {
        DbArticleOrComment::from_json(wire_article(id, v0, insert(0, 0, "x"), 1, 1), 2, &mut store).unwrap();
    }
    let comment = |id: &str, to: &str| {
        ApubArticleOrComment::Comment(ApubComment { id: id.to_string(), in_reply_to: to.to_string(), content: "c".to_string() })
    };
    DbArticleOrComment::from_json(comment("https://r.org/c/1", "https://r.org/article/A"), 2, &mut store).unwrap();
    DbArticleOrComment::from_json(comment("https://r.org/c/2", "https://r.org/article/B"), 2, &mut store).unwrap();
    DbArticleOrComment::from_json(comment("https://r.org/c/3", "https://r.org/c/2"), 2, &mut store).unwrap();
    assert_eq!(store.delete_article(0), Ok(()));
    assert_eq!(store.articles.len(), 1);
    assert_eq!(store.articles[0].ap_id, "https://r.org/article/B");
    assert_eq!(store.comments.len(), 2);
    assert_eq!(store.comments[0].ap_id, "https://r.org/c/2");
    assert_eq!(store.comments[0].article, 0);
    assert_eq!(store.comments[1].parent, Some(0));
    assert_eq!(store.delete_article(5), Err(ibis::article::EditError::NotFound));
}
