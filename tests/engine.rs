use ibis::article::{Article, EditError, EditForm, SubmitOutcome};
use ibis::patch::{apply_patch, rebase, Hunk, Patch};
use ibis::store::VersionStore;
use ibis::version::{text_version, EditVersion};

fn lines(ls: &[&str]) -> Vec<String> {
    ls.iter().map(|s| s.to_string()).collect()
}

fn hunk(start: usize, removed: usize, inserted: &[&str]) -> Hunk {
    Hunk { start, removed, inserted: lines(inserted) }
}

fn patch(hunks: Vec<Hunk>) -> Patch {
    Patch { hunks }
}

fn form(based_on: EditVersion, p: Patch, author: u64, summary: &str) -> EditForm {
    EditForm { based_on, patch: p, author, summary: summary.to_string() }
}

fn main_article() -> Article {
    Article::new("Main".to_string(), "https://example.com/article/Main".to_string(), 1, true, false, true)
}

#[test]
fn fingerprint_of_empty_text_is_the_basis() {
    assert_eq!(text_version(&Vec::new()).hash, 0xcbf29ce484222325);
}

#[test]
fn fingerprint_of_one_line() {
    // FNV-1a over "a\n".
    let mut h: u64 = 0xcbf29ce484222325;
    for b in [b'a', b'\n'] {
        h = (h ^ b as u64).wrapping_mul(0x100000001b3);
    }
    assert_eq!(text_version(&lines(&["a"])).hash, h);
    assert_ne!(text_version(&lines(&["a"])), text_version(&lines(&["b"])));
}

#[test]
fn apply_replaces_and_inserts() {
    let base = lines(&["a", "b", "c", "d"]);
    let p = patch(vec![hunk(1, 1, &["B"]), hunk(3, 0, &["x", "y"])]);
    assert!(p.fits(base.len()));
    assert_eq!(apply_patch(&base, &p), lines(&["a", "B", "c", "x", "y", "d"]));
}

#[test]
fn fits_rejects_overlap_and_overrun() {
    assert!(!patch(vec![hunk(0, 2, &[]), hunk(1, 0, &["x"])]).fits(3));
    assert!(!patch(vec![hunk(2, 2, &[])]).fits(3));
    assert!(patch(vec![hunk(3, 0, &["end"])]).fits(3));
}

#[test]
fn rebase_shifts_later_hunks_and_refuses_overlap() {
    let theirs = patch(vec![hunk(0, 1, &["A", "A2"])]);
    let mine = patch(vec![hunk(2, 1, &["C"])]);
    let r = rebase(&mine, &theirs).unwrap();
    assert_eq!(r.hunks[0].start, 3);
    let clash = patch(vec![hunk(0, 1, &["Z"])]);
    assert!(rebase(&clash, &theirs).is_none());
}

#[test]
fn history_replays_to_the_text() {
    let mut a = main_article();
    let v0 = a.version;
    let r1 = a.submit_edit(form(v0, patch(vec![hunk(0, 0, &["one", "two"])]), 1, "first"), false);
    assert!(matches!(r1, Ok(SubmitOutcome::Applied(_))));
    let r2 = a.submit_edit(form(a.version, patch(vec![hunk(1, 1, &["TWO"])]), 2, "second"), false);
    assert!(matches!(r2, Ok(SubmitOutcome::Applied(_))));
    let mut text: Vec<String> = Vec::new();
    for e in &a.edits {
        assert_eq!(e.previous_version, text_version(&text));
        text = apply_patch(&text, &e.patch);
        assert_eq!(e.version, text_version(&text));
    }
    assert_eq!(text, a.text);
    assert_eq!(a.text, lines(&["one", "TWO"]));
    assert_eq!(a.version, text_version(&a.text));
}

#[test]
fn two_submissions_on_one_head_apply_as_they_stand_once() {
    let mut a = main_article();
    let h = a.version;
    let first = a.submit_edit(form(h, patch(vec![hunk(0, 0, &["x"])]), 1, "x"), false);
    assert!(matches!(first, Ok(SubmitOutcome::Applied(_))));
    let second = a.submit_edit(form(h, patch(vec![hunk(0, 0, &["y"])]), 2, "y"), false);
    assert!(matches!(second, Ok(SubmitOutcome::Merged(_))));
    assert_eq!(a.edits.len(), 2);
}

#[test]
fn empty_patch_on_head_changes_nothing() {
    let mut a = main_article();
    a.submit_edit(form(a.version, patch(vec![hunk(0, 0, &["text"])]), 1, "s"), false).unwrap();
    let before = a.version;
    let r = a.submit_edit(form(a.version, patch(vec![]), 1, "nothing"), false);
    assert_eq!(r, Ok(SubmitOutcome::Unchanged));
    assert_eq!(a.edits.len(), 1);
    assert_eq!(a.conflicts.len(), 0);
    assert_eq!(a.version, before);
}

#[test]
fn scenario_disjoint_concurrent_edits_merge() {
    let mut a = main_article();
    let v0 = a.version;
    let r1 = a.submit_edit(form(v0, patch(vec![hunk(0, 0, &["add intro"])]), 1, "intro"), false);
    let v1 = match r1 {
        Ok(SubmitOutcome::Applied(v)) => v,
        other => panic!("unexpected {:?}", other),
    };
    assert_eq!(a.version, v1);
    let r2 = a.submit_edit(form(v0, patch(vec![hunk(0, 0, &["add references"])]), 2, "refs"), false);
    let v2 = match r2 {
        Ok(SubmitOutcome::Merged(v)) => v,
        other => panic!("unexpected {:?}", other),
    };
    assert_eq!(a.version, v2);
    assert_eq!(a.text, lines(&["add intro", "add references"]));
    assert!(a.conflicts.is_empty());
    assert_eq!(a.edits.len(), 2);
}

#[test]
fn scenario_same_line_conflicts_until_discarded() {
    let mut store = VersionStore::new();
    let mut a = main_article();
    a.submit_edit(form(a.version, patch(vec![hunk(0, 0, &["Main page"])]), 1, "start"), false).unwrap();
    let k = store.create_article(a).unwrap();
    let v0 = store.articles[k].version;
    let r1 = store.submit_edit(k, form(v0, patch(vec![hunk(0, 1, &["Main page by A"])]), 1, "A"), false);
    assert!(matches!(r1, Ok(SubmitOutcome::Applied(_))));
    let v1 = store.articles[k].version;
    let r2 = store.submit_edit(k, form(v0, patch(vec![hunk(0, 1, &["Main page by B"])]), 2, "B"), false);
    let id = match r2 {
        Ok(SubmitOutcome::Conflict(id)) => id,
        other => panic!("unexpected {:?}", other),
    };
    let c = &store.articles[k].conflicts[0];
    assert_eq!(c.previous_version, v0);
    assert_eq!(c.actual_version, v1);
    assert_eq!(store.articles[k].version, v1);
    let listed = ibis::api::edit_list(&store, ibis::api::ViewEditParams::ArticleId(k));
    assert_eq!(listed, vec![ibis::api::ConflictRef { article: k, id }]);
    let by_person = ibis::api::edit_list(&store, ibis::api::ViewEditParams::PersonId(2));
    assert_eq!(by_person.len(), 1);
    assert_eq!(store.discard_conflict(k, id), Ok(()));
    assert!(store.articles[k].conflicts.is_empty());
    assert_eq!(store.articles[k].version, v1);
    assert_eq!(store.articles[k].edits.len(), 2);
    assert!(ibis::api::edit_list(&store, ibis::api::ViewEditParams::ArticleId(k)).is_empty());
}

#[test]
fn discard_unknown_conflict_is_not_found() {
    let mut a = main_article();
    assert_eq!(a.discard_conflict(7), Err(EditError::NotFound));
}

#[test]
fn protected_article_refuses_non_admin() {
    let mut a = Article::new("P".to_string(), "https://example.com/article/P".to_string(), 1, true, true, true);
    let r = a.submit_edit(form(a.version, patch(vec![hunk(0, 0, &["x"])]), 1, "x"), false);
    assert_eq!(r, Err(EditError::Forbidden));
    let r = a.submit_edit(form(a.version, patch(vec![hunk(0, 0, &["x"])]), 1, "x"), true);
    assert!(matches!(r, Ok(SubmitOutcome::Applied(_))));
}

#[test]
fn patch_past_the_end_is_invalid() {
    let mut a = main_article();
    let r = a.submit_edit(form(a.version, patch(vec![hunk(0, 1, &["x"])]), 1, "x"), false);
    assert_eq!(r, Err(EditError::InvalidPatch));
    assert!(a.edits.is_empty());
}

#[test]
fn unknown_base_version_becomes_conflict() {
    let mut a = main_article();
    let r = a.submit_edit(form(EditVersion { hash: 42 }, patch(vec![hunk(0, 0, &["x"])]), 1, "x"), false);
    assert_eq!(r, Ok(SubmitOutcome::Conflict(0)));
    assert_eq!(a.next_conflict_id, 1);
}

#[test]
fn fork_and_source_evolve_independently() {
    let mut store = VersionStore::new();
    let mut a = main_article();
    a.submit_edit(form(a.version, patch(vec![hunk(0, 0, &["shared"])]), 1, "s"), false).unwrap();
    let src = store.create_article(a).unwrap();
    let fork = store.fork_article(src, 2, "https://other.org/article/Main".to_string()).unwrap();
    assert_eq!(fork, 1);
    assert_eq!(store.articles[fork].version, store.articles[src].version);
    assert_eq!(store.articles[fork].edits.len(), 1);
    let src_version = store.articles[src].version;
    let v = store.articles[fork].version;
    store.submit_edit(fork, form(v, patch(vec![hunk(1, 0, &["fork only"])]), 3, "f"), false).unwrap();
    assert_eq!(store.articles[src].version, src_version);
    assert_eq!(store.articles[src].text, lines(&["shared"]));
    let fork_version = store.articles[fork].version;
    store.submit_edit(src, form(src_version, patch(vec![hunk(0, 1, &["source only"])]), 4, "s"), false).unwrap();
    assert_eq!(store.articles[fork].version, fork_version);
    assert_eq!(store.articles[fork].text, lines(&["shared", "fork only"]));
    assert_eq!(store.articles[src].text, lines(&["source only"]));
    assert_eq!(store.fork_article(9, 2, String::new()), Err(EditError::NotFound));
    assert_eq!(
        store.fork_article(src, 2, "https://other.org/article/Main".to_string()),
        Err(EditError::AlreadyExists)
    );
    let dup = Article::new("Main".to_string(), "https://example.com/article/Main".to_string(), 1, true, false, true);
    assert_eq!(store.create_article(dup), Err(EditError::AlreadyExists));
    let history = ibis::api::edit_history_list(&store, ibis::api::ViewEditParams::ArticleId(src));
    assert_eq!(history.len(), 2);
    let by_four = ibis::api::edit_history_list(&store, ibis::api::ViewEditParams::PersonId(4));
    assert_eq!(by_four, vec![ibis::api::EditRef { article: src, index: 1 }]);
}

#[test]
fn duplicate_update_is_applied_once() {
    let mut a = main_article();
    let v0 = a.version;
    let remote = EditVersion { hash: 77 };
    let r1 = a.receive_update(form(v0, patch(vec![hunk(0, 0, &["remote"])]), 5, "r"), remote);
    assert!(matches!(r1, Ok(SubmitOutcome::Applied(_))));
    let r2 = a.receive_update(form(v0, patch(vec![hunk(0, 0, &["remote"])]), 5, "r"), remote);
    assert_eq!(r2, Ok(SubmitOutcome::Unchanged));
    assert_eq!(a.edits.len(), 1);
    assert_eq!(a.text, lines(&["remote"]));
    assert!(!a.edits[0].local);
    assert_eq!(a.edits[0].remote_version, Some(remote));
}

#[test]
fn store_rejects_missing_article() {
    let mut store = VersionStore::new();
    let r = store.submit_edit(3, form(EditVersion { hash: 0 }, patch(vec![]), 1, "x"), false);
    assert_eq!(r, Err(EditError::NotFound));
}

#[test]
fn main_page_starts_protected_with_default_text() {
    let a = ibis::setup::main_page("https", "example.com", 1, 9).unwrap();
    assert_eq!(a.ap_id, "https://example.com/article/Main_Page");
    assert_eq!(a.title, "Main_Page");
    assert!(a.protected && a.local && a.approved);
    assert_eq!(
        a.text,
        lines(&[
            "Welcome to Ibis, the federated Wikipedia alternative!",
            "",
            "This main page can only be edited by the admin. Use it as an introduction for new users, and to list interesting articles.",
        ])
    );
    assert_eq!(a.edits.len(), 1);
    assert_eq!(a.edits[0].author, 9);
    assert_eq!(a.edits[0].summary, "Default main page");
    assert_eq!(a.version, text_version(&a.text));
    assert!(ibis::setup::main_page("", "example.com", 1, 9).is_err());
}

#[test]
fn local_instance_has_identity_inbox_collections_and_keys() {
    let l = ibis::setup::local_instance("https", "example.com", "pub".to_string(), "priv".to_string()).unwrap();
    assert_eq!(l.instance.ap_id, "https://example.com");
    assert_eq!(l.instance.inbox, "https://example.com/inbox");
    assert_eq!(l.instances_url, "https://example.com/linked_instances");
    assert_eq!(l.articles_url, "https://example.com/all_articles");
    assert_eq!(l.public_key, "pub");
    assert_eq!(l.private_key, Some("priv".to_string()));
    assert!(l.instance.local);
}

#[test]
fn setup_creates_instance_admin_ghost_and_main_page() {
    let s = ibis::setup::setup("https", "example.com", "admin", 1, 1, "pub".to_string(), "priv".to_string()).unwrap();
    assert_eq!(s.admin.name, "admin");
    assert!(s.admin.admin);
    assert_eq!(s.admin.ap_id, "https://example.com/user/admin");
    assert_eq!(s.ghost_user.name, "ghost");
    assert!(!s.ghost_user.admin);
    assert!(s.main_page.protected);
    assert_eq!(s.main_page.edits[0].author, 1);
    assert!(ibis::setup::setup("", "example.com", "admin", 1, 1, String::new(), String::new()).is_err());
}
