use vstd::prelude::*;

use crate::article::{Article, EditError, EditForm, SubmitOutcome};
use crate::patch::Patch;
use crate::store::{article_id_taken, unique_article_ids, unique_comment_ids};
use crate::federation::{domains_match, str_equal, verify_domains_match, FederationError};
use crate::patch::copy_lines;
use crate::store::{Comment, VersionStore};
use crate::version::EditVersion;

verus! {

/// A stored article or comment, by its position in the store.
#[derive(Clone, Copy, Debug, PartialEq, Eq, Structural)]
pub enum DbArticleOrComment {
    Article(usize),
    Comment(usize),
}

/// An edit as carried on the wire: the change, the version it was based on,
/// and the version it produced where it was made.
pub struct ApubEdit {
    pub based_on: EditVersion,
    pub patch: Patch,
    pub summary: String,
    pub author: u64,
    pub version: EditVersion,
}

/// The wire form of an article. Its text is for display; a receiver takes
/// changes only through the edit it carries.
pub struct ApubArticle {
    pub id: String,
    pub name: String,
    pub content: Vec<String>,
    pub latest_version: EditVersion,
    pub protected: bool,
    pub edit: Option<ApubEdit>,
}

/// The wire form of a comment.
pub struct ApubComment {
    pub id: String,
    /// The article or comment that this one answers.
    pub in_reply_to: String,
    pub content: String,
}

/// The wire form of an article or a comment.
pub enum ApubArticleOrComment {
    Article(ApubArticle),
    Comment(ApubComment),
}

impl ApubArticleOrComment {
    /// The identity that the object claims.
    pub open spec fn id_view(&self) -> Seq<char> {
        match self {
            ApubArticleOrComment::Article(a) => a.id@,
            ApubArticleOrComment::Comment(c) => c.id@,
        }
    }
}

/// `k` is the first article with identity `id`.
pub open spec fn first_article(arts: Seq<Article>, id: Seq<char>, k: int) -> bool {
    &&& 0 <= k < arts.len()
    &&& arts[k].ap_id@ == id
    &&& forall|j: int| 0 <= j < k ==> (#[trigger] arts[j]).ap_id@ != id
}

/// `k` is the first comment with identity `id`.
pub open spec fn first_comment(cs: Seq<Comment>, id: Seq<char>, k: int) -> bool {
    &&& 0 <= k < cs.len()
    &&& cs[k].ap_id@ == id
    &&& forall|j: int| 0 <= j < k ==> (#[trigger] cs[j]).ap_id@ != id
}

/// What looking up `id` gives: an article where one has it, else a comment
/// where one has it.
pub open spec fn lookup(s: &VersionStore, id: Seq<char>, r: Option<DbArticleOrComment>) -> bool {
    match r {
        Some(DbArticleOrComment::Article(k)) => first_article(s.articles@, id, k as int),
        Some(DbArticleOrComment::Comment(k)) => {
            &&& forall|j: int| 0 <= j < s.articles@.len() ==> (#[trigger] s.articles@[j]).ap_id@ != id
            &&& first_comment(s.comments@, id, k as int)
        },
        None => {
            &&& forall|j: int| 0 <= j < s.articles@.len() ==> (#[trigger] s.articles@[j]).ap_id@ != id
            &&& forall|j: int| 0 <= j < s.comments@.len() ==> (#[trigger] s.comments@[j]).ap_id@ != id
        },
    }
}

fn find_article(arts: &Vec<Article>, id: &str) -> (r: Option<usize>)
    ensures
        match r {
            Some(k) => first_article(arts@, id@, k as int),
            None => forall|j: int| 0 <= j < arts@.len() ==> (#[trigger] arts@[j]).ap_id@ != id@,
        },
{
    let mut i: usize = 0;
    while i < arts.len()
        invariant
            i <= arts@.len(),
            forall|j: int| 0 <= j < i ==> (#[trigger] arts@[j]).ap_id@ != id@,
        decreases arts@.len() - i,
    {
        if str_equal(arts[i].ap_id.as_str(), id) {
            return Some(i);
        }
        i += 1;
    }
    None
}

fn find_comment(cs: &Vec<Comment>, id: &str) -> (r: Option<usize>)
    ensures
        match r {
            Some(k) => first_comment(cs@, id@, k as int),
            None => forall|j: int| 0 <= j < cs@.len() ==> (#[trigger] cs@[j]).ap_id@ != id@,
        },
{
    let mut i: usize = 0;
    while i < cs.len()
        invariant
            i <= cs@.len(),
            forall|j: int| 0 <= j < i ==> (#[trigger] cs@[j]).ap_id@ != id@,
        decreases cs@.len() - i,
    {
        if str_equal(cs[i].ap_id.as_str(), id) {
            return Some(i);
        }
        i += 1;
    }
    None
}

impl DbArticleOrComment {
    /// Finds the stored object with identity `id`: articles first, then
    /// comments, since both share one namespace of identities.
    pub fn read_from_id(store: &VersionStore, id: &str) -> (r: Option<DbArticleOrComment>)
        ensures
            lookup(store, id@, r),
    {
        match find_article(&store.articles, id) {
            Some(k) => Some(DbArticleOrComment::Article(k)),
            None => match find_comment(&store.comments, id) {
                Some(k) => Some(DbArticleOrComment::Comment(k)),
                None => None,
            },
        }
    }

    /// Checks that the object comes from the domain it claims: its identity
    /// must have the domain of `expected_domain`.
    pub fn verify(apub: &ApubArticleOrComment, expected_domain: &str) -> (r: Result<(), FederationError>)
        ensures
            r == domains_match(apub.id_view(), expected_domain@),
    {
        match apub {
            ApubArticleOrComment::Article(a) => verify_domains_match(a.id.as_str(), expected_domain),
            ApubArticleOrComment::Comment(c) => verify_domains_match(c.id.as_str(), expected_domain),
        }
    }

    /// The object stands in the store.
    pub open spec fn in_store(self, s: &VersionStore) -> bool {
        match self {
            DbArticleOrComment::Article(k) => k < s.articles@.len(),
            DbArticleOrComment::Comment(k) => k < s.comments@.len(),
        }
    }

    /// The wire form of the stored object. A comment answers its parent
    /// comment where it has one, else its article.
    pub fn into_json(self, store: &VersionStore) -> (r: ApubArticleOrComment)
        requires
            store.wf(),
            self.in_store(store),
        ensures
            match (self, r) {
                (DbArticleOrComment::Article(k), ApubArticleOrComment::Article(a)) => DbArticleOrComment::article_json(
                    &store.articles@[k as int],
                    a,
                ),
                (DbArticleOrComment::Comment(k), ApubArticleOrComment::Comment(c)) => {
                    let com = store.comments@[k as int];
                    &&& c.id@ == com.ap_id@
                    &&& c.content@ == com.content@
                    &&& c.in_reply_to@ == match com.parent {
                        Some(p) => store.comments@[p as int].ap_id@,
                        None => store.articles@[com.article as int].ap_id@,
                    }
                },
                _ => false,
            },
    {
        match self {
            DbArticleOrComment::Article(k) => {
                let art = &store.articles[k];
                let n = art.edits.len();
                let edit = if n == 0 {
                    None
                } else {
                    let last = &art.edits[n - 1];
                    Some(
                        ApubEdit {
                            based_on: last.previous_version,
                            patch: last.patch.copy(),
                            summary: last.summary.clone(),
                            author: last.author,
                            version: last.version,
                        },
                    )
                };
                ApubArticleOrComment::Article(
                    ApubArticle {
                        id: art.ap_id.clone(),
                        name: art.title.clone(),
                        content: copy_lines(&art.text),
                        latest_version: art.version,
                        protected: art.protected,
                        edit,
                    },
                )
            },
            DbArticleOrComment::Comment(k) => {
                let com = &store.comments[k];
                assert(VersionStore::comment_refs_ok(
                    store.comments@[k as int],
                    store.articles@.len() as int,
                    store.comments@.len() as int,
                ));
                let in_reply_to = match com.parent {
                    Some(p) => store.comments[p].ap_id.clone(),
                    None => store.articles[com.article].ap_id.clone(),
                };
                ApubArticleOrComment::Comment(
                    ApubComment { id: com.ap_id.clone(), in_reply_to, content: com.content.clone() },
                )
            },
        }
    }

    /// Takes a received object into the store. An article not yet known is
    /// first stored empty, homed at `instance_id`; the edit that the article
    /// carries is then taken as a received change, through the same merge
    /// and conflict rules as a local one, never by copying its text. A known
    /// comment is returned as it stands; a new comment is attached to the
    /// article or comment it answers, which must be known.
    pub fn from_json(apub: ApubArticleOrComment, instance_id: u64, store: &mut VersionStore) -> (r: Result<DbArticleOrComment, FederationError>)
        requires
            old(store).wf(),
            forall|i: int| 0 <= i < old(store).articles@.len() ==> (#[trigger] old(store).articles@[i]).next_conflict_id < u64::MAX,
        ensures
            final(store).wf(),
            DbArticleOrComment::taken(old(store), final(store), apub, instance_id, r),
    {
        match apub {
            ApubArticleOrComment::Article(a) => {
                let ghost ga = a;
                let ghost mid_store: VersionStore;
                let ghost found: bool;
                let k = match find_article(&store.articles, a.id.as_str()) {
                    Some(k) => {
                        proof {
                            mid_store = *store;
                            found = true;
                        }
                        k
                    },
                    None => {
                        let art = Article::new(a.name, a.id, instance_id, false, a.protected, true);
                        let created = store.create_article(art);
                        proof {
                            mid_store = *store;
                            found = false;
                        }
                        match created {
                            Ok(k) => k,
                            Err(_) => {
                                return Err(FederationError::NotFound);
                            },
                        }
                    },
                };
                let ghost mut grr: Result<SubmitOutcome, EditError> = Ok(SubmitOutcome::Unchanged);
                let r = match a.edit {
                    None => Ok(DbArticleOrComment::Article(k)),
                    Some(e) => {
                        let form = EditForm {
                            based_on: e.based_on,
                            patch: e.patch,
                            author: e.author,
                            summary: e.summary,
                        };
                        let rr = store.receive_update(k, form, e.version);
                        proof {
                            grr = rr;
                        }
                        match rr {
                            Ok(_) => Ok(DbArticleOrComment::Article(k)),
                            Err(_) => Err(FederationError::InvalidEdit),
                        }
                    },
                };
                proof {
                    assert(DbArticleOrComment::edit_applied(
                        &mid_store.articles@[k as int],
                        &store.articles@[k as int],
                        ga.edit,
                        k,
                        r,
                        grr,
                    ));
                    assert(ga.edit is None ==> *store == mid_store);
                    assert(VersionStore::only_changed(&mid_store, store, k as int));
                    if found {
                        assert(first_article(old(store).articles@, ga.id@, k as int));
                        assert(article_id_taken(old(store).articles@, ga.id@));
                        assert(mid_store == *old(store));
                        assert(DbArticleOrComment::edit_applied(
                            &old(store).articles@[k as int],
                            &store.articles@[k as int],
                            ga.edit,
                            k as int as usize,
                            r,
                            grr,
                        ));
                        assert(VersionStore::only_changed(old(store), store, k as int));
                    } else {
                        let n = old(store).articles@.len();
                        assert(n == old(store).articles.len());
                        assert(k as int == n);
                        assert(!article_id_taken(old(store).articles@, ga.id@));
                        assert(DbArticleOrComment::fresh(mid_store.articles@[n as int], ga, instance_id));
                        assert(DbArticleOrComment::edit_applied(
                            &mid_store.articles@[n as int],
                            &store.articles@[n as int],
                            ga.edit,
                            n as usize,
                            r,
                            grr,
                        ));
                        assert(store.articles@.len() == n + 1);
                        assert(store.comments@ == old(store).comments@);
                        assert forall|j: int| 0 <= j < n implies #[trigger] store.articles@[j] == old(store).articles@[j] by {
                            assert(store.articles@[j] == mid_store.articles@[j]);
                            assert(mid_store.articles@[j] == old(store).articles@[j]);
                        }
                    }
                }
                r
            },
            ApubArticleOrComment::Comment(c) => {
                if let Some(k) = find_comment(&store.comments, c.id.as_str()) {
                    return Ok(DbArticleOrComment::Comment(k));
                }
                let target = DbArticleOrComment::read_from_id(store, c.in_reply_to.as_str());
                let (article, parent) = match target {
                    None => {
                        return Err(FederationError::NotFound);
                    },
                    Some(DbArticleOrComment::Article(k)) => (k, None),
                    Some(DbArticleOrComment::Comment(p)) => {
                        assert(VersionStore::comment_refs_ok(
                            store.comments@[p as int],
                            store.articles@.len() as int,
                            store.comments@.len() as int,
                        ));
                        (store.comments[p].article, Some(p))
                    },
                };
                let k = store.comments.len();
                store.comments.push(Comment { ap_id: c.id, article, parent, content: c.content, local: false });
                proof {
                    assert(store.comments@.drop_last() =~= old(store).comments@);
                    assert forall|i: int, j: int| 0 <= i < j < store.comments@.len() implies (
                    #[trigger] store.comments@[i]).ap_id@ != (#[trigger] store.comments@[j]).ap_id@ by {
                        assert(store.comments@[i] == old(store).comments@[i]);
                        if j < k {
                            assert(store.comments@[j] == old(store).comments@[j]);
                        }
                    }
                    assert forall|i: int| 0 <= i < store.comments@.len() implies VersionStore::comment_refs_ok(
                        #[trigger] store.comments@[i],
                        store.articles@.len() as int,
                        store.comments@.len() as int,
                    ) by {
                        if i < k {
                            assert(store.comments@[i] == old(store).comments@[i]);
                            assert(VersionStore::comment_refs_ok(
                                old(store).comments@[i],
                                old(store).articles@.len() as int,
                                old(store).comments@.len() as int,
                            ));
                        }
                    }
                }
                Ok(DbArticleOrComment::Comment(k))
            },
        }
    }

    /// `a` is the wire form of `art`: its identity, title, text, head and
    /// protection, and its latest edit where it has one.
    pub open spec fn article_json(art: &Article, a: ApubArticle) -> bool {
        &&& a.id@ == art.ap_id@
        &&& a.name@ == art.title@
        &&& a.content@ == art.text@
        &&& a.latest_version == art.version
        &&& a.protected == art.protected
        &&& (a.edit is Some <==> art.edits@.len() > 0)
        &&& a.edit matches Some(e) ==> {
            let last = art.edits@.last();
            &&& e.based_on == last.previous_version
            &&& e.patch@ == last.patch@
            &&& e.summary@ == last.summary@
            &&& e.author == last.author
            &&& e.version == last.version
        }
    }

    /// `f` is the article that a received article `a` starts as here: empty,
    /// with no history, not local, homed at `instance_id`.
    pub open spec fn fresh(f: Article, a: ApubArticle, instance_id: u64) -> bool {
        &&& f.wf()
        &&& f.ap_id@ == a.id@
        &&& f.title@ == a.name@
        &&& f.instance_id == instance_id
        &&& !f.local
        &&& f.protected == a.protected
        &&& f.approved
        &&& f.text@.len() == 0
        &&& f.edits@.len() == 0
        &&& f.conflicts@.len() == 0
        &&& f.next_conflict_id == 0
    }

    /// What the edit that a received article carries does to the stored
    /// article at `k` (`before` to `after`): none leaves it as it is; one is
    /// taken as a received change (outcome `rr`), and a refused change gives
    /// `InvalidEdit`.
    pub open spec fn edit_applied(
        before: &Article,
        after: &Article,
        edit: Option<ApubEdit>,
        k: usize,
        r: Result<DbArticleOrComment, FederationError>,
        rr: Result<SubmitOutcome, EditError>,
    ) -> bool {
        match edit {
            None => *after == *before && r == Ok::<DbArticleOrComment, FederationError>(DbArticleOrComment::Article(k)),
            Some(e) => {
                &&& Article::received(before, after, e.based_on, e.patch@, e.author, e.summary@, e.version, rr)
                &&& r == match rr {
                    Ok(_) => Ok::<DbArticleOrComment, FederationError>(DbArticleOrComment::Article(k)),
                    Err(_) => Err::<DbArticleOrComment, FederationError>(FederationError::InvalidEdit),
                }
            },
        }
    }

    /// What taking the received object `apub` into the store does.
    pub open spec fn taken(
        old: &VersionStore,
        new: &VersionStore,
        apub: ApubArticleOrComment,
        instance_id: u64,
        r: Result<DbArticleOrComment, FederationError>,
    ) -> bool {
        match apub {
            ApubArticleOrComment::Article(a) => {
                if article_id_taken(old.articles@, a.id@) {
                    exists|k: int| #![trigger first_article(old.articles@, a.id@, k)]
                        first_article(old.articles@, a.id@, k) && VersionStore::only_changed(old, new, k)
                            && exists|rr: Result<SubmitOutcome, EditError>|
                            #[trigger] DbArticleOrComment::edit_applied(
                                &old.articles@[k],
                                &new.articles@[k],
                                a.edit,
                                k as usize,
                                r,
                                rr,
                            )
                } else {
                    let n = old.articles@.len();
                    &&& new.articles@.len() == n + 1
                    &&& forall|j: int| 0 <= j < n ==> #[trigger] new.articles@[j] == old.articles@[j]
                    &&& new.comments@ == old.comments@
                    &&& exists|f: Article, rr: Result<SubmitOutcome, EditError>|
                        DbArticleOrComment::fresh(f, a, instance_id) && #[trigger] DbArticleOrComment::edit_applied(
                            &f,
                            &new.articles@[n as int],
                            a.edit,
                            n as usize,
                            r,
                            rr,
                        )
                }
            },
            ApubArticleOrComment::Comment(c) => {
                if exists|j: int| 0 <= j < old.comments@.len() && (#[trigger] old.comments@[j]).ap_id@ == c.id@ {
                    r matches Ok(DbArticleOrComment::Comment(k)) && first_comment(old.comments@, c.id@, k as int)
                        && *new == *old
                } else {
                    let com = new.comments@.last();
                    ||| {
                        &&& r == Err::<DbArticleOrComment, FederationError>(FederationError::NotFound)
                        &&& lookup(old, c.in_reply_to@, None)
                        &&& *new == *old
                    }
                    ||| {
                        &&& r == Ok::<DbArticleOrComment, FederationError>(DbArticleOrComment::Comment(old.comments@.len() as usize))
                        &&& new.articles@ == old.articles@
                        &&& new.comments@.drop_last() == old.comments@
                        &&& new.comments@.len() == old.comments@.len() + 1
                        &&& com.ap_id@ == c.id@
                        &&& com.content@ == c.content@
                        &&& !com.local
                        &&& match com.parent {
                            None => lookup(old, c.in_reply_to@, Some(DbArticleOrComment::Article(com.article))),
                            Some(p) => lookup(old, c.in_reply_to@, Some(DbArticleOrComment::Comment(p)))
                                && com.article == old.comments@[p as int].article,
                        }
                    }
                }
            },
        }
    }
}

/// Sending a stored article and taking the result back is lossless: the
/// same article is found, and nothing changes, since its latest edit is
/// already in its history.
pub proof fn lemma_article_round_trip(
    s0: &VersionStore,
    s1: &VersionStore,
    k: usize,
    a: ApubArticle,
    instance_id: u64,
    r: Result<DbArticleOrComment, FederationError>,
)
    requires
        s0.wf(),
        k < s0.articles@.len(),
        DbArticleOrComment::article_json(&s0.articles@[k as int], a),
        DbArticleOrComment::taken(s0, s1, ApubArticleOrComment::Article(a), instance_id, r),
    ensures
        r == Ok::<DbArticleOrComment, FederationError>(DbArticleOrComment::Article(k)),
        s1.articles@ == s0.articles@,
        s1.comments@ == s0.comments@,
{
    let art = s0.articles@[k as int];
    assert(article_id_taken(s0.articles@, a.id@));
    let k2 = choose|k2: int| #![trigger first_article(s0.articles@, a.id@, k2)]
        first_article(s0.articles@, a.id@, k2) && VersionStore::only_changed(s0, s1, k2)
            && exists|rr: Result<SubmitOutcome, EditError>|
            #[trigger] DbArticleOrComment::edit_applied(
                &s0.articles@[k2],
                &s1.articles@[k2],
                a.edit,
                k2 as usize,
                r,
                rr,
            );
    assert(k2 == k as int) by {
        if k2 < k {
            assert(s0.articles@[k2].ap_id@ != s0.articles@[k as int].ap_id@);
        } else if k2 > k {
            assert(s0.articles@[k as int].ap_id@ != s0.articles@[k2].ap_id@);
        }
    }
    let rr = choose|rr: Result<SubmitOutcome, EditError>|
        #[trigger] DbArticleOrComment::edit_applied(&s0.articles@[k2], &s1.articles@[k2], a.edit, k2 as usize, r, rr);
    if let Some(e) = a.edit {
        let n = art.edits@.len() as int;
        assert(art.edits@[n - 1].version == e.version);
        assert(crate::article::update_seen(art.edits@, e.version));
    }
    assert(s1.articles@[k as int] == s0.articles@[k as int]);
    assert(s1.articles@ =~= s0.articles@);
}

} // verus!
