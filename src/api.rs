use vstd::prelude::*;

use crate::article::{Article, Edit, EditConflict};
use crate::store::VersionStore;

verus! {

/// Why a request was refused.
#[derive(Clone, Copy, Debug, PartialEq, Eq, Structural)]
pub enum ApiError {
    /// Only an administrator may do this.
    NotAdmin,
    /// Neither an article nor a person was named.
    MissingParameter,
}

/// The signed-in local user.
pub struct LocalUserView {
    pub person_id: u64,
    pub name: String,
    pub admin: bool,
}

/// Fails unless the user is an administrator.
pub fn check_is_admin(user: &LocalUserView) -> (r: Result<(), ApiError>)
    ensures
        r == (if user.admin {
            Ok::<(), ApiError>(())
        } else {
            Err::<(), ApiError>(ApiError::NotAdmin)
        }),
{
    if !user.admin {
        return Err(ApiError::NotAdmin);
    }
    Ok(())
}

/// `s` without its leading and trailing white space.
pub uninterp spec fn trimmed(s: Seq<char>) -> Seq<char>;

/// Relies on `str::trim`: the slice of `s` left once leading and trailing
/// white space is removed.
#[verifier::external_body]
fn trim_str(s: &str) -> (r: &str)
    ensures
        r@ == trimmed(s@),
{
    s.trim()
}

/// Trims the string, where there is one, and turns it into `None` where
/// nothing is left.
pub fn empty_to_none(val: &mut Option<String>)
    ensures
        *old(val) is None ==> *final(val) is None,
        *old(val) matches Some(s) ==> (trimmed(s@).len() == 0 <==> *final(val) is None),
        *old(val) matches Some(s) ==> (trimmed(s@).len() > 0 ==> (*final(val) matches Some(t) && t@ == trimmed(s@))),
{
    let trimmed_val = match &*val {
        Some(s) => {
            let t = trim_str(s.as_str());
            if t.unicode_len() == 0 {
                None
            } else {
                Some(String::from_str(t))
            }
        },
        None => None,
    };
    *val = trimmed_val;
}

/// Whose pending conflicts to list.
#[derive(Clone, Copy, Debug, PartialEq, Eq, Structural)]
pub enum ViewEditParams {
    /// Those of the article at this position.
    ArticleId(usize),
    /// Those submitted by this person, over all articles.
    PersonId(u64),
}

/// The article named, else the person named; one of them must be.
pub fn edit_list_params(article_id: Option<usize>, person_id: Option<u64>) -> (r: Result<ViewEditParams, ApiError>)
    ensures
        r == match (article_id, person_id) {
            (Some(a), _) => Ok::<ViewEditParams, ApiError>(ViewEditParams::ArticleId(a)),
            (None, Some(p)) => Ok::<ViewEditParams, ApiError>(ViewEditParams::PersonId(p)),
            (None, None) => Err::<ViewEditParams, ApiError>(ApiError::MissingParameter),
        },
{
    if let Some(a) = article_id {
        Ok(ViewEditParams::ArticleId(a))
    } else if let Some(p) = person_id {
        Ok(ViewEditParams::PersonId(p))
    } else {
        Err(ApiError::MissingParameter)
    }
}

/// A pending conflict, by the position of its article and its id.
#[derive(Clone, Copy, Debug, PartialEq, Eq, Structural)]
pub struct ConflictRef {
    pub article: usize,
    pub id: u64,
}

/// The pending conflicts `cs` of the article at `k`, those of `author` only
/// where one is given, in order.
pub open spec fn conflict_refs(cs: Seq<EditConflict>, k: usize, author: Option<u64>) -> Seq<ConflictRef>
    decreases cs.len(),
{
    if cs.len() == 0 {
        Seq::empty()
    } else {
        let rest = conflict_refs(cs.drop_last(), k, author);
        let c = cs.last();
        if author matches Some(p) && c.author != p {
            rest
        } else {
            rest.push(ConflictRef { article: k, id: c.id })
        }
    }
}

/// The pending conflicts of `author` on the articles `arts`, article by article.
pub open spec fn person_conflicts(arts: Seq<Article>, author: u64) -> Seq<ConflictRef>
    decreases arts.len(),
{
    if arts.len() == 0 {
        Seq::empty()
    } else {
        person_conflicts(arts.drop_last(), author) + conflict_refs(
            arts.last().conflicts@,
            (arts.len() - 1) as usize,
            Some(author),
        )
    }
}

/// Appends to `out` the conflicts of `a` (at position `k`), of `author` only where given.
fn push_conflicts(out: &mut Vec<ConflictRef>, a: &Article, k: usize, author: Option<u64>)
    ensures
        final(out)@ == old(out)@ + conflict_refs(a.conflicts@, k, author),
{
    let ghost start = out@;
    let mut i: usize = 0;
    assert(a.conflicts@.subrange(0, 0) =~= Seq::<EditConflict>::empty());
    assert(start + Seq::<ConflictRef>::empty() =~= start);
    while i < a.conflicts.len()
        invariant
            i <= a.conflicts@.len(),
            out@ == start + conflict_refs(a.conflicts@.subrange(0, i as int), k, author),
        decreases a.conflicts@.len() - i,
    {
        let c = &a.conflicts[i];
        let ghost prefix = a.conflicts@.subrange(0, i as int + 1);
        assert(prefix.drop_last() =~= a.conflicts@.subrange(0, i as int));
        assert(prefix.last() == a.conflicts@[i as int]);
        let keep = match author {
            Some(p) => c.author == p,
            None => true,
        };
        if keep {
            let ghost before = out@;
            out.push(ConflictRef { article: k, id: c.id });
            assert(out@ =~= start + conflict_refs(prefix, k, author));
        }
        i += 1;
    }
    assert(a.conflicts@.subrange(0, a.conflicts@.len() as int) =~= a.conflicts@);
}

/// The pending conflicts that the request names: those of one article, or
/// those of one person over all articles. An article position past the end
/// names no conflicts.
pub fn edit_list(store: &VersionStore, params: ViewEditParams) -> (r: Vec<ConflictRef>)
    ensures
        r@ == match params {
            ViewEditParams::ArticleId(k) => if k < store.articles@.len() {
                conflict_refs(store.articles@[k as int].conflicts@, k, None)
            } else {
                Seq::empty()
            },
            ViewEditParams::PersonId(p) => person_conflicts(store.articles@, p),
        },
{
    let mut out: Vec<ConflictRef> = Vec::new();
    match params {
        ViewEditParams::ArticleId(k) => {
            if k < store.articles.len() {
                push_conflicts(&mut out, &store.articles[k], k, None);
                assert(out@ =~= conflict_refs(store.articles@[k as int].conflicts@, k, None));
            } else {
                assert(out@ =~= Seq::<ConflictRef>::empty());
            }
        },
        ViewEditParams::PersonId(p) => {
            let mut i: usize = 0;
            assert(store.articles@.subrange(0, 0) =~= Seq::<Article>::empty());
            assert(out@ =~= person_conflicts(store.articles@.subrange(0, 0), p));
            while i < store.articles.len()
                invariant
                    i <= store.articles@.len(),
                    out@ == person_conflicts(store.articles@.subrange(0, i as int), p),
                decreases store.articles@.len() - i,
            {
                let ghost prefix = store.articles@.subrange(0, i as int + 1);
                assert(prefix.drop_last() =~= store.articles@.subrange(0, i as int));
                assert(prefix.last() == store.articles@[i as int]);
                push_conflicts(&mut out, &store.articles[i], i, Some(p));
                i += 1;
            }
            assert(store.articles@.subrange(0, store.articles@.len() as int) =~= store.articles@);
        },
    }
    out
}

/// An accepted edit, by the position of its article and its place in the history.
#[derive(Clone, Copy, Debug, PartialEq, Eq, Structural)]
pub struct EditRef {
    pub article: usize,
    pub index: usize,
}

/// The edits `es` of the article at `k`, those of `author` only where one
/// is given, in order of history.
pub open spec fn edit_refs(es: Seq<Edit>, k: usize, author: Option<u64>) -> Seq<EditRef>
    decreases es.len(),
{
    if es.len() == 0 {
        Seq::empty()
    } else {
        let rest = edit_refs(es.drop_last(), k, author);
        let e = es.last();
        if author matches Some(p) && e.author != p {
            rest
        } else {
            rest.push(EditRef { article: k, index: (es.len() - 1) as usize })
        }
    }
}

/// The edits of `author` on the articles `arts`, article by article.
pub open spec fn person_edits(arts: Seq<Article>, author: u64) -> Seq<EditRef>
    decreases arts.len(),
{
    if arts.len() == 0 {
        Seq::empty()
    } else {
        person_edits(arts.drop_last(), author) + edit_refs(
            arts.last().edits@,
            (arts.len() - 1) as usize,
            Some(author),
        )
    }
}

/// Appends to `out` the edits of `a` (at position `k`), of `author` only where given.
fn push_edits(out: &mut Vec<EditRef>, a: &Article, k: usize, author: Option<u64>)
    ensures
        final(out)@ == old(out)@ + edit_refs(a.edits@, k, author),
{
    let ghost start = out@;
    let mut i: usize = 0;
    assert(a.edits@.subrange(0, 0) =~= Seq::<Edit>::empty());
    assert(start + Seq::<EditRef>::empty() =~= start);
    while i < a.edits.len()
        invariant
            i <= a.edits@.len(),
            out@ == start + edit_refs(a.edits@.subrange(0, i as int), k, author),
        decreases a.edits@.len() - i,
    {
        let e = &a.edits[i];
        let ghost prefix = a.edits@.subrange(0, i as int + 1);
        assert(prefix.drop_last() =~= a.edits@.subrange(0, i as int));
        assert(prefix.last() == a.edits@[i as int]);
        let keep = match author {
            Some(p) => e.author == p,
            None => true,
        };
        if keep {
            out.push(EditRef { article: k, index: i });
            assert(out@ =~= start + edit_refs(prefix, k, author));
        }
        i += 1;
    }
    assert(a.edits@.subrange(0, a.edits@.len() as int) =~= a.edits@);
}

/// The accepted edits that the request names: the history of one article,
/// or the edits of one person over all articles. An article position past
/// the end names no edits.
pub fn edit_history_list(store: &VersionStore, params: ViewEditParams) -> (r: Vec<EditRef>)
    ensures
        r@ == match params {
            ViewEditParams::ArticleId(k) => if k < store.articles@.len() {
                edit_refs(store.articles@[k as int].edits@, k, None)
            } else {
                Seq::empty()
            },
            ViewEditParams::PersonId(p) => person_edits(store.articles@, p),
        },
{
    let mut out: Vec<EditRef> = Vec::new();
    match params {
        ViewEditParams::ArticleId(k) => {
            if k < store.articles.len() {
                push_edits(&mut out, &store.articles[k], k, None);
                assert(out@ =~= edit_refs(store.articles@[k as int].edits@, k, None));
            } else {
                assert(out@ =~= Seq::<EditRef>::empty());
            }
        },
        ViewEditParams::PersonId(p) => {
            let mut i: usize = 0;
            assert(store.articles@.subrange(0, 0) =~= Seq::<Article>::empty());
            assert(out@ =~= person_edits(store.articles@.subrange(0, 0), p));
            while i < store.articles.len()
                invariant
                    i <= store.articles@.len(),
                    out@ == person_edits(store.articles@.subrange(0, i as int), p),
                decreases store.articles@.len() - i,
            {
                let ghost prefix = store.articles@.subrange(0, i as int + 1);
                assert(prefix.drop_last() =~= store.articles@.subrange(0, i as int));
                assert(prefix.last() == store.articles@[i as int]);
                push_edits(&mut out, &store.articles[i], i, Some(p));
                i += 1;
            }
            assert(store.articles@.subrange(0, store.articles@.len() as int) =~= store.articles@);
        },
    }
    out
}

} // verus!
