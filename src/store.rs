use vstd::prelude::*;

use crate::article::{Article, EditError, EditForm, SubmitOutcome};
use crate::federation::str_equal;
use crate::patch::HunkView;
use crate::version::EditVersion;

verus! {

/// A comment on an article, optionally in reply to another comment; both
/// are referred to by position in the store.
pub struct Comment {
    pub ap_id: String,
    pub article: usize,
    pub parent: Option<usize>,
    pub content: String,
    pub local: bool,
}

/// The articles and comments of an instance, each addressed by its position.
pub struct VersionStore {
    pub articles: Vec<Article>,
    pub comments: Vec<Comment>,
}

/// No two articles share an identity.
pub open spec fn unique_article_ids(arts: Seq<Article>) -> bool {
    forall|i: int, j: int| 0 <= i < j < arts.len() ==> (#[trigger] arts[i]).ap_id@ != (#[trigger] arts[j]).ap_id@
}

/// No two comments share an identity.
pub open spec fn unique_comment_ids(cs: Seq<Comment>) -> bool {
    forall|i: int, j: int| 0 <= i < j < cs.len() ==> (#[trigger] cs[i]).ap_id@ != (#[trigger] cs[j]).ap_id@
}

/// Whether some article has the identity `id`.
pub open spec fn article_id_taken(arts: Seq<Article>, id: Seq<char>) -> bool {
    exists|j: int| 0 <= j < arts.len() && (#[trigger] arts[j]).ap_id@ == id
}

/// Whether some article has the identity `id`.
pub fn has_article_id(arts: &Vec<Article>, id: &str) -> (r: bool)
    ensures
        r == article_id_taken(arts@, id@),
{
    let mut i: usize = 0;
    while i < arts.len()
        invariant
            i <= arts@.len(),
            forall|j: int| 0 <= j < i ==> (#[trigger] arts@[j]).ap_id@ != id@,
        decreases arts@.len() - i,
    {
        if str_equal(arts[i].ap_id.as_str(), id) {
            return true;
        }
        i += 1;
    }
    false
}

/// How many of the first `n` comments are not on the article at `k`.
pub open spec fn kept_before(cs: Seq<Comment>, k: usize, n: int) -> int
    decreases n,
{
    if n <= 0 {
        0
    } else {
        kept_before(cs, k, n - 1) + if cs[n - 1].article != k {
            1int
        } else {
            0int
        }
    }
}

proof fn lemma_kept_bounds(cs: Seq<Comment>, k: usize, a: int, b: int)
    requires
        0 <= a <= b <= cs.len(),
    ensures
        0 <= kept_before(cs, k, a) <= kept_before(cs, k, b) <= b,
        a < b && cs[a].article != k ==> kept_before(cs, k, a) < kept_before(cs, k, b),
    decreases b,
{
    if b > 0 {
        if a < b {
            lemma_kept_bounds(cs, k, a, b - 1);
        }
        lemma_kept_bounds(cs, k, b - 1, b - 1);
    }
}

/// Where the reference to article `a` points once the article at `k` is gone.
pub open spec fn moved_article(a: usize, k: usize) -> usize {
    if a > k {
        (a - 1) as usize
    } else {
        a
    }
}

/// Where the reference to parent comment `parent` points once the comments
/// on the article at `k` are gone: a parent that went with them is dropped.
pub open spec fn moved_parent(cs: Seq<Comment>, k: usize, parent: Option<usize>) -> Option<usize> {
    match parent {
        None => None,
        Some(p) => if p < cs.len() && cs[p as int].article != k {
            Some(kept_before(cs, k, p as int) as usize)
        } else {
            None
        },
    }
}

/// `d` is comment `c` of `cs`, kept and renumbered once the article at `k` is gone.
pub open spec fn comment_moved(c: Comment, d: Comment, cs: Seq<Comment>, k: usize) -> bool {
    &&& d.ap_id@ == c.ap_id@
    &&& d.content@ == c.content@
    &&& d.local == c.local
    &&& d.article == moved_article(c.article, k)
    &&& d.parent == moved_parent(cs, k, c.parent)
}

/// How many of the first `n` comments are not on the article at `k`.
fn count_kept(cs: &Vec<Comment>, k: usize, n: usize) -> (r: usize)
    requires
        n <= cs@.len(),
    ensures
        r == kept_before(cs@, k, n as int),
{
    let mut i: usize = 0;
    let mut r: usize = 0;
    while i < n
        invariant
            i <= n <= cs@.len(),
            r == kept_before(cs@, k, i as int),
        decreases n - i,
    {
        proof {
            lemma_kept_bounds(cs@, k, i as int, i as int);
        }
        if cs[i].article != k {
            r += 1;
        }
        i += 1;
    }
    r
}

impl VersionStore {
    /// Every article keeps its invariant, comments refer to stored objects,
    /// and no two articles, nor two comments, share an identity.
    pub open spec fn wf(&self) -> bool {
        &&& forall|i: int| 0 <= i < self.articles@.len() ==> (#[trigger] self.articles@[i]).wf()
        &&& unique_article_ids(self.articles@)
        &&& unique_comment_ids(self.comments@)
        &&& forall|i: int|
            0 <= i < self.comments@.len() ==> VersionStore::comment_refs_ok(
                #[trigger] self.comments@[i],
                self.articles@.len() as int,
                self.comments@.len() as int,
            )
    }

    /// The comment refers to an article among the first `n_articles`, and
    /// to a parent among the first `n_comments`.
    pub open spec fn comment_refs_ok(c: Comment, n_articles: int, n_comments: int) -> bool {
        &&& c.article < n_articles
        &&& c.parent matches Some(p) ==> p < n_comments
    }

    /// `new` holds the same articles as `old` except at position `k`.
    pub open spec fn only_changed(old: &VersionStore, new: &VersionStore, k: int) -> bool {
        &&& new.articles@.len() == old.articles@.len()
        &&& forall|j: int| 0 <= j < old.articles@.len() && j != k ==> #[trigger] new.articles@[j] == old.articles@[j]
        &&& new.comments@ == old.comments@
    }

    /// An empty store.
    pub fn new() -> (r: VersionStore)
        ensures
            r.wf(),
            r.articles@.len() == 0,
    {
        VersionStore { articles: Vec::new(), comments: Vec::new() }
    }

    /// Adds an article; returns its position. An article whose identity is
    /// already stored is refused.
    pub fn create_article(&mut self, article: Article) -> (r: Result<usize, EditError>)
        requires
            old(self).wf(),
            article.wf(),
        ensures
            final(self).wf(),
            article_id_taken(old(self).articles@, article.ap_id@) ==> r == Err::<usize, EditError>(
                EditError::AlreadyExists,
            ) && *final(self) == *old(self),
            !article_id_taken(old(self).articles@, article.ap_id@) ==> {
                &&& r == Ok::<usize, EditError>(old(self).articles@.len() as usize)
                &&& final(self).articles@ == old(self).articles@.push(article)
                &&& final(self).comments@ == old(self).comments@
            },
    {
        if has_article_id(&self.articles, article.ap_id.as_str()) {
            return Err(EditError::AlreadyExists);
        }
        let k = self.articles.len();
        let ghost a = article;
        self.articles.push(article);
        proof {
            assert forall|i: int, j: int| 0 <= i < j < self.articles@.len() implies (
            #[trigger] self.articles@[i]).ap_id@ != (#[trigger] self.articles@[j]).ap_id@ by {
                assert(self.articles@[i] == old(self).articles@[i]);
                if j < k {
                    assert(self.articles@[j] == old(self).articles@[j]);
                }
            }
            assert forall|i: int| 0 <= i < self.articles@.len() implies (#[trigger] self.articles@[i]).wf() by {
                if i < k {
                    assert(self.articles@[i] == old(self).articles@[i]);
                }
            }
        }
        Ok(k)
    }

    /// Puts `a` at `index`; returns the article that stood there.
    fn replace_at(&mut self, index: usize, a: Article) -> (old_a: Article)
        requires
            index < old(self).articles@.len(),
        ensures
            old_a == old(self).articles@[index as int],
            final(self).articles@ == old(self).articles@.update(index as int, a),
            final(self).comments@ == old(self).comments@,
    {
        let old_a = self.articles.remove(index);
        self.articles.insert(index, a);
        proof {
            assert(final(self).articles@ =~= old(self).articles@.update(index as int, a));
        }
        old_a
    }

    /// Submits a local change to the article at `index`.
    pub fn submit_edit(&mut self, index: usize, form: EditForm, admin: bool) -> (r: Result<SubmitOutcome, EditError>)
        requires
            old(self).wf(),
            index < old(self).articles@.len() ==> old(self).articles@[index as int].next_conflict_id < u64::MAX,
        ensures
            final(self).wf(),
            VersionStore::only_changed(old(self), final(self), index as int),
            index >= old(self).articles@.len() ==> r == Err::<SubmitOutcome, EditError>(EditError::NotFound),
            index < old(self).articles@.len() ==> Article::edit_submitted(
                &old(self).articles@[index as int],
                &final(self).articles@[index as int],
                form.based_on,
                form.patch@,
                form.author,
                form.summary@,
                admin,
                r,
            ),
    {
        if index >= self.articles.len() {
            return Err(EditError::NotFound);
        }
        let placeholder = Article::new(String::new(), String::new(), 0, false, false, false);
        let mut a = self.replace_at(index, placeholder);
        let ghost f = form;
        let r = a.submit_edit(form, admin);
        let _p = self.replace_at(index, a);
        proof {
            crate::article::lemma_submitted_keeps_attributes(
                &old(self).articles@[index as int],
                &self.articles@[index as int],
                f.based_on,
                f.patch@,
                f.author,
                f.summary@,
                admin,
                r,
            );
            VersionStore::lemma_same_ids(old(self), self, index as int);
            assert forall|i: int| 0 <= i < self.articles@.len() implies (#[trigger] self.articles@[i]).wf() by {
                if i != index {
                    assert(self.articles@[i] == old(self).articles@[i]);
                }
            }
        }
        r
    }

    /// Replacing one article by one with the same identity keeps identities unique.
    proof fn lemma_same_ids(old: &VersionStore, new: &VersionStore, k: int)
        requires
            old.wf(),
            VersionStore::only_changed(old, new, k),
            0 <= k < old.articles@.len(),
            new.articles@[k].ap_id@ == old.articles@[k].ap_id@,
        ensures
            unique_article_ids(new.articles@),
    {
        assert forall|i: int, j: int| 0 <= i < j < new.articles@.len() implies (
        #[trigger] new.articles@[i]).ap_id@ != (#[trigger] new.articles@[j]).ap_id@ by {
            assert(new.articles@[i].ap_id@ == old.articles@[i].ap_id@);
            assert(new.articles@[j].ap_id@ == old.articles@[j].ap_id@);
        }
    }

    /// Takes a change received from another instance into the article at `index`.
    pub fn receive_update(&mut self, index: usize, form: EditForm, remote_version: EditVersion) -> (r: Result<SubmitOutcome, EditError>)
        requires
            old(self).wf(),
            index < old(self).articles@.len() ==> old(self).articles@[index as int].next_conflict_id < u64::MAX,
        ensures
            final(self).wf(),
            VersionStore::only_changed(old(self), final(self), index as int),
            index >= old(self).articles@.len() ==> r == Err::<SubmitOutcome, EditError>(EditError::NotFound),
            index < old(self).articles@.len() ==> Article::received(
                &old(self).articles@[index as int],
                &final(self).articles@[index as int],
                form.based_on,
                form.patch@,
                form.author,
                form.summary@,
                remote_version,
                r,
            ),
    {
        if index >= self.articles.len() {
            return Err(EditError::NotFound);
        }
        let placeholder = Article::new(String::new(), String::new(), 0, false, false, false);
        let mut a = self.replace_at(index, placeholder);
        let ghost f = form;
        let r = a.receive_update(form, remote_version);
        let _p = self.replace_at(index, a);
        proof {
            crate::article::lemma_received_keeps_attributes(
                &old(self).articles@[index as int],
                &self.articles@[index as int],
                f.based_on,
                f.patch@,
                f.author,
                f.summary@,
                remote_version,
                r,
            );
            VersionStore::lemma_same_ids(old(self), self, index as int);
            assert forall|i: int| 0 <= i < self.articles@.len() implies (#[trigger] self.articles@[i]).wf() by {
                if i != index {
                    assert(self.articles@[i] == old(self).articles@[i]);
                }
            }
        }
        r
    }

    /// What deleting the article at `k` does: the article goes with its whole
    /// history, and so do the comments on it; the articles and comments after
    /// them move up.
    pub open spec fn deleted(old: &VersionStore, new: &VersionStore, k: usize, r: Result<(), EditError>) -> bool {
        let cs = old.comments@;
        if k >= old.articles@.len() {
            r == Err::<(), EditError>(EditError::NotFound) && *new == *old
        } else {
            &&& r is Ok
            &&& new.articles@ == old.articles@.remove(k as int)
            &&& new.comments@.len() == kept_before(cs, k, cs.len() as int)
            &&& forall|i: int|
                0 <= i < cs.len() && cs[i].article != k ==> comment_moved(
                    #[trigger] cs[i],
                    new.comments@[kept_before(cs, k, i)],
                    cs,
                    k,
                )
        }
    }

    /// Deletes the article at `k`, for moderation: with it go its history,
    /// its pending conflicts and the comments on it.
    pub fn delete_article(&mut self, k: usize) -> (r: Result<(), EditError>)
        requires
            old(self).wf(),
        ensures
            final(self).wf(),
            VersionStore::deleted(old(self), final(self), k, r),
    {
        if k >= self.articles.len() {
            return Err(EditError::NotFound);
        }
        let ghost cs = self.comments@;
        let ghost na = self.articles@.len();
        let n = self.comments.len();
        let mut out: Vec<Comment> = Vec::new();
        let mut i: usize = 0;
        while i < n
            invariant
                cs == self.comments@,
                *self == *old(self),
                old(self).wf(),
                n == cs.len(),
                na == self.articles@.len(),
                k < na,
                i <= n,
                out@.len() == kept_before(cs, k, i as int),
                forall|j: int|
                    0 <= j < i && cs[j].article != k ==> comment_moved(
                        #[trigger] cs[j],
                        out@[kept_before(cs, k, j)],
                        cs,
                        k,
                    ),
                unique_comment_ids(out@),
                forall|m: int|
                    0 <= m < out@.len() ==> exists|j: int|
                        0 <= j < i && (#[trigger] out@[m]).ap_id@ == cs[j].ap_id@,
                forall|m: int|
                    0 <= m < out@.len() ==> VersionStore::comment_refs_ok(
                        #[trigger] out@[m],
                        na - 1,
                        kept_before(cs, k, n as int),
                    ),
            decreases n - i,
        {
            proof {
                lemma_kept_bounds(cs, k, i as int, i as int + 1);
                lemma_kept_bounds(cs, k, i as int + 1, n as int);
            }
            let c = &self.comments[i];
            if c.article != k {
                assert(VersionStore::comment_refs_ok(cs[i as int], na as int, n as int));
                let parent = match c.parent {
                    None => None,
                    Some(p) => {
                        if p < n && self.comments[p].article != k {
                            proof {
                                lemma_kept_bounds(cs, k, p as int, n as int);
                            }
                            Some(count_kept(&self.comments, k, p))
                        } else {
                            None
                        }
                    },
                };
                let article = if c.article > k {
                    c.article - 1
                } else {
                    c.article
                };
                let d = Comment {
                    ap_id: c.ap_id.clone(),
                    article,
                    parent,
                    content: c.content.clone(),
                    local: c.local,
                };
                let ghost before = out@;
                out.push(d);
                proof {
                    assert(out@[before.len() as int] == d);
                    assert forall|j: int|
                        0 <= j < i + 1 && cs[j].article != k implies comment_moved(
                        #[trigger] cs[j],
                        out@[kept_before(cs, k, j)],
                        cs,
                        k,
                    ) by {
                        if j < i {
                            lemma_kept_bounds(cs, k, j, i as int);
                            assert(out@[kept_before(cs, k, j)] == before[kept_before(cs, k, j)]);
                        }
                    }
                    assert forall|a: int, b: int| 0 <= a < b < out@.len() implies (
                    #[trigger] out@[a]).ap_id@ != (#[trigger] out@[b]).ap_id@ by {
                        assert(out@[a] == before[a]);
                        if b < before.len() {
                            assert(out@[b] == before[b]);
                        } else {
                            let j = choose|j: int| 0 <= j < i && (#[trigger] before[a]).ap_id@ == cs[j].ap_id@;
                            assert(cs[j].ap_id@ != cs[i as int].ap_id@);
                        }
                    }
                    assert forall|m: int| 0 <= m < out@.len() implies exists|j: int|
                        0 <= j < i + 1 && (#[trigger] out@[m]).ap_id@ == cs[j].ap_id@ by {
                        if m < before.len() {
                            assert(out@[m] == before[m]);
                            let j = choose|j: int| 0 <= j < i && (#[trigger] before[m]).ap_id@ == cs[j].ap_id@;
                            assert(out@[m].ap_id@ == cs[j].ap_id@);
                        } else {
                            assert(out@[m].ap_id@ == cs[i as int].ap_id@);
                        }
                    }
                    assert forall|m: int| 0 <= m < out@.len() implies VersionStore::comment_refs_ok(
                        #[trigger] out@[m],
                        na - 1,
                        kept_before(cs, k, n as int),
                    ) by {
                        if m < before.len() {
                            assert(out@[m] == before[m]);
                        }
                    }
                }
            } else {
                proof {
                    assert forall|m: int| 0 <= m < out@.len() implies exists|j: int|
                        0 <= j < i + 1 && (#[trigger] out@[m]).ap_id@ == cs[j].ap_id@ by {
                        let j = choose|j: int| 0 <= j < i && (#[trigger] out@[m]).ap_id@ == cs[j].ap_id@;
                        assert(0 <= j < i + 1);
                    }
                }
            }
            i += 1;
        }
        self.comments = out;
        let _gone = self.articles.remove(k);
        proof {
            let oa = old(self).articles@;
            assert(self.articles@ =~= oa.subrange(0, k as int) + oa.subrange(k as int + 1, oa.len() as int));
            assert forall|i: int| 0 <= i < self.articles@.len() implies (#[trigger] self.articles@[i]).wf() by {
                if i < k {
                    assert(self.articles@[i] == oa[i]);
                } else {
                    assert(self.articles@[i] == oa[i + 1]);
                }
            }
            assert forall|a: int, b: int| 0 <= a < b < self.articles@.len() implies (
            #[trigger] self.articles@[a]).ap_id@ != (#[trigger] self.articles@[b]).ap_id@ by {
                let a0 = if a < k { a } else { a + 1 };
                let b0 = if b < k { b } else { b + 1 };
                assert(self.articles@[a] == oa[a0]);
                assert(self.articles@[b] == oa[b0]);
            }
        }
        Ok(())
    }

    /// Discards the conflict `id` pending on the article at `index`.
    pub fn discard_conflict(&mut self, index: usize, id: u64) -> (r: Result<(), EditError>)
        requires
            old(self).wf(),
        ensures
            final(self).wf(),
            VersionStore::only_changed(old(self), final(self), index as int),
            index >= old(self).articles@.len() ==> r == Err::<(), EditError>(EditError::NotFound),
            index < old(self).articles@.len() ==> Article::discarded(
                &old(self).articles@[index as int],
                &final(self).articles@[index as int],
                id,
                r,
            ),
    {
        if index >= self.articles.len() {
            return Err(EditError::NotFound);
        }
        let placeholder = Article::new(String::new(), String::new(), 0, false, false, false);
        let mut a = self.replace_at(index, placeholder);
        let r = a.discard_conflict(id);
        let _p = self.replace_at(index, a);
        proof {
            VersionStore::lemma_same_ids(old(self), self, index as int);
            assert forall|i: int| 0 <= i < self.articles@.len() implies (#[trigger] self.articles@[i]).wf() by {
                if i != index {
                    assert(self.articles@[i] == old(self).articles@[i]);
                }
            }
        }
        r
    }

    /// Forks the article at `index` to the instance `instance_id` under
    /// `ap_id`; returns the position of the copy, which comes after all others.
    pub fn fork_article(&mut self, index: usize, instance_id: u64, ap_id: String) -> (r: Result<usize, EditError>)
        requires
            old(self).wf(),
        ensures
            final(self).wf(),
            VersionStore::fork_done(old(self), final(self), index as int, instance_id, ap_id@, r),
    {
        if index >= self.articles.len() {
            return Err(EditError::NotFound);
        }
        if has_article_id(&self.articles, ap_id.as_str()) {
            return Err(EditError::AlreadyExists);
        }
        let copy = self.articles[index].fork(instance_id, ap_id);
        let k = self.articles.len();
        self.articles.push(copy);
        proof {
            assert(self.articles@.drop_last() =~= old(self).articles@);
            assert forall|i: int| 0 <= i < self.articles@.len() implies (#[trigger] self.articles@[i]).wf() by {
                if i < k {
                    assert(self.articles@[i] == old(self).articles@[i]);
                }
            }
            assert forall|i: int, j: int| 0 <= i < j < self.articles@.len() implies (
            #[trigger] self.articles@[i]).ap_id@ != (#[trigger] self.articles@[j]).ap_id@ by {
                assert(self.articles@[i] == old(self).articles@[i]);
                if j < k {
                    assert(self.articles@[j] == old(self).articles@[j]);
                }
            }
        }
        Ok(k)
    }

    /// What forking the article at `index` does: a copy is added after all
    /// other articles, which stay as they were.
    pub open spec fn fork_done(old: &VersionStore, new: &VersionStore, index: int, instance_id: u64, ap_id: Seq<char>, r: Result<usize, EditError>) -> bool {
        if !(0 <= index < old.articles@.len()) {
            r == Err::<usize, EditError>(EditError::NotFound) && *new == *old
        } else if article_id_taken(old.articles@, ap_id) {
            r == Err::<usize, EditError>(EditError::AlreadyExists) && *new == *old
        } else {
            &&& r == Ok::<usize, EditError>(old.articles@.len() as usize)
            &&& new.articles@.len() == old.articles@.len() + 1
            &&& new.articles@.drop_last() == old.articles@
            &&& new.comments@ == old.comments@
            &&& Article::forked(&old.articles@[index], &new.articles@.last(), instance_id, ap_id)
        }
    }
}

/// A fork and its source evolve independently: editing the fork leaves the
/// source as it was, and editing the source afterwards leaves the fork as it was.
pub proof fn lemma_fork_independent(
    s0: &VersionStore,
    s1: &VersionStore,
    s2: &VersionStore,
    s3: &VersionStore,
    index: int,
    instance_id: u64,
    ap_id: Seq<char>,
    k: usize,
    fork_edit: (EditVersion, Seq<HunkView>, u64, Seq<char>, bool),
    source_edit: (EditVersion, Seq<HunkView>, u64, Seq<char>, bool),
    r2: Result<SubmitOutcome, EditError>,
    r3: Result<SubmitOutcome, EditError>,
)
    requires
        s0.wf(),
        0 <= index < s0.articles@.len(),
        VersionStore::fork_done(s0, s1, index, instance_id, ap_id, Ok(k)),
        VersionStore::only_changed(s1, s2, k as int),
        Article::edit_submitted(
            &s1.articles@[k as int],
            &s2.articles@[k as int],
            fork_edit.0,
            fork_edit.1,
            fork_edit.2,
            fork_edit.3,
            fork_edit.4,
            r2,
        ),
        VersionStore::only_changed(s2, s3, index),
        Article::edit_submitted(
            &s2.articles@[index],
            &s3.articles@[index],
            source_edit.0,
            source_edit.1,
            source_edit.2,
            source_edit.3,
            source_edit.4,
            r3,
        ),
    ensures
        s2.articles@[index] == s0.articles@[index],
        s3.articles@[k as int] == s2.articles@[k as int],
{
    assert(s0.articles@.len() == s0.articles.len());
    assert(k as int == s0.articles@.len());
    assert(s1.articles@[index] == s1.articles@.drop_last()[index]);
    assert(s2.articles@[index] == s1.articles@[index]);
    assert(s3.articles@[k as int] == s2.articles@[k as int]);
}

} // verus!
