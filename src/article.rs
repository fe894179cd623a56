use vstd::prelude::*;

use crate::patch::{
    apply_patch, apply_spec, copy_lines, hunks_fit, rebase, rebase_spec, HunkView, Patch,
};
use crate::version::{text_version, version_of, EditVersion};

verus! {

/// One accepted change to an article. Edits are never changed once recorded.
pub struct Edit {
    pub author: u64,
    /// The change, based on the text at `previous_version`'s point in history.
    pub patch: Patch,
    pub previous_version: EditVersion,
    /// The version of the text that the edit produced.
    pub version: EditVersion,
    pub summary: String,
    /// Made on this instance, as opposed to received from another one.
    pub local: bool,
    /// For an edit received from another instance: the version that the
    /// change had there.
    pub remote_version: Option<EditVersion>,
}

/// A submission that could not be merged with the edits made since the
/// version it was based on.
pub struct EditConflict {
    pub id: u64,
    pub author: u64,
    pub patch: Patch,
    /// The version that the author based the change on.
    pub previous_version: EditVersion,
    /// The head version at the time of the submission.
    pub actual_version: EditVersion,
    pub summary: String,
}

/// A change submitted to an article.
pub struct EditForm {
    pub based_on: EditVersion,
    pub patch: Patch,
    pub author: u64,
    pub summary: String,
}

/// What became of a submission.
#[derive(Clone, Copy, Debug, PartialEq, Eq, Structural)]
pub enum SubmitOutcome {
    /// Based on the head: applied as it stands; the new head version.
    Applied(EditVersion),
    /// Based on an older version: merged with the edits made since; the new head version.
    Merged(EditVersion),
    /// The text would not change: nothing recorded.
    Unchanged,
    /// Not mergeable: recorded as the conflict with this id.
    Conflict(u64),
}

/// Why a submission was refused.
#[derive(Clone, Copy, Debug, PartialEq, Eq, Structural)]
pub enum EditError {
    /// The article is protected and the author is no administrator.
    Forbidden,
    /// The patch does not fit the head text it is based on.
    InvalidPatch,
    /// No conflict, or no article, with that id.
    NotFound,
    /// An article with that identity is already stored.
    AlreadyExists,
}

/// A document with its full history of edits and the conflicts pending on it.
pub struct Article {
    pub title: String,
    pub ap_id: String,
    pub instance_id: u64,
    pub local: bool,
    pub protected: bool,
    pub approved: bool,
    /// The current text, line by line: the edits replayed in order.
    pub text: Vec<String>,
    /// The head version: the version of `text`.
    pub version: EditVersion,
    pub edits: Vec<Edit>,
    pub conflicts: Vec<EditConflict>,
    pub next_conflict_id: u64,
}

/// The patches of a list of edits.
pub open spec fn patches_of(es: Seq<Edit>) -> Seq<Seq<HunkView>> {
    es.map_values(|e: Edit| e.patch@)
}

/// The text that results from applying the patches in order to the empty text.
pub open spec fn replay(ps: Seq<Seq<HunkView>>) -> Seq<String>
    decreases ps.len(),
{
    if ps.len() == 0 {
        Seq::empty()
    } else {
        apply_spec(replay(ps.drop_last()), ps.last())
    }
}

/// The version after the first `k` edits.
pub open spec fn version_at(es: Seq<Edit>, k: int) -> EditVersion {
    if k == 0 {
        version_of(Seq::empty())
    } else {
        es[k - 1].version
    }
}

/// The latest point `j <= k` in the history whose version is `b`.
pub open spec fn find_base(es: Seq<Edit>, b: EditVersion, k: int) -> Option<int>
    decreases k,
{
    if version_at(es, k) == b {
        Some(k)
    } else if k <= 0 {
        None
    } else {
        find_base(es, b, k - 1)
    }
}

/// The patch `q` carried over the patches `ps` in order.
pub open spec fn carry(q: Seq<HunkView>, ps: Seq<Seq<HunkView>>) -> Option<Seq<HunkView>>
    decreases ps.len(),
{
    if ps.len() == 0 {
        Some(q)
    } else {
        match rebase_spec(q, ps[0]) {
            None => None,
            Some(r) => carry(r, ps.drop_first()),
        }
    }
}

/// The history holds together: every edit fits the text before it, and the
/// recorded versions are those of the texts the history passes through.
pub open spec fn history_wf(es: Seq<Edit>) -> bool {
    let ps = patches_of(es);
    &&& forall|i: int|
        0 <= i < ps.len() ==> hunks_fit(#[trigger] ps[i], replay(ps.subrange(0, i)).len() as int)
    &&& forall|i: int|
        0 <= i < es.len() ==> #[trigger] es[i].version == version_of(
            replay(ps.subrange(0, i + 1)),
        )
    &&& forall|i: int| 0 <= i < es.len() ==> #[trigger] es[i].previous_version == version_at(es, i)
}

impl Article {
    /// The article's invariant.
    pub open spec fn wf(&self) -> bool {
        &&& history_wf(self.edits@)
        &&& self.text@ == replay(patches_of(self.edits@))
        &&& self.version == version_of(self.text@)
        &&& forall|i: int|
            0 <= i < self.conflicts@.len() ==> (#[trigger] self.conflicts@[i]).id
                < self.next_conflict_id
        &&& forall|i: int, j: int|
            0 <= i < j < self.conflicts@.len() ==> (#[trigger] self.conflicts@[i]).id
                != (#[trigger] self.conflicts@[j]).id
    }

    /// The patch that a submission based on `b` with patch `q` comes to on the
    /// head text: `q` itself where `b` is the head; else `q` carried over the
    /// edits made since the latest point in history at version `b`.
    pub open spec fn target_patch(&self, b: EditVersion, q: Seq<HunkView>) -> Option<Seq<HunkView>> {
        if b == self.version {
            Some(q)
        } else {
            let n = self.edits@.len() as int;
            match find_base(self.edits@, b, n) {
                None => None,
                Some(k) => carry(q, patches_of(self.edits@).subrange(k, n)),
            }
        }
    }

    /// The article `new` is `old` with one more edit, of patch `r` and the
    /// given author, summary and provenance; conflicts untouched.
    pub open spec fn appended(
        old: &Article,
        new: &Article,
        r: Seq<HunkView>,
        author: u64,
        summary: Seq<char>,
        local: bool,
        remote_version: Option<EditVersion>,
    ) -> bool {
        let e = new.edits@.last();
        &&& new.text@ == apply_spec(old.text@, r)
        &&& new.version == version_of(new.text@)
        &&& new.edits@.len() == old.edits@.len() + 1
        &&& new.edits@.drop_last() == old.edits@
        &&& e.patch@ == r
        &&& e.author == author
        &&& e.summary@ == summary
        &&& e.local == local
        &&& e.remote_version == remote_version
        &&& e.previous_version == old.version
        &&& e.version == new.version
        &&& new.conflicts@ == old.conflicts@
        &&& new.next_conflict_id == old.next_conflict_id
        &&& Article::same_attributes(old, new)
    }

    /// Title, identity and flags agree.
    pub open spec fn same_attributes(a: &Article, b: &Article) -> bool {
        &&& a.title@ == b.title@
        &&& a.ap_id@ == b.ap_id@
        &&& a.instance_id == b.instance_id
        &&& a.local == b.local
        &&& a.protected == b.protected
        &&& a.approved == b.approved
    }

    /// The article `new` is `old` unchanged in text and history.
    pub open spec fn same_history(old: &Article, new: &Article) -> bool {
        &&& new.text@ == old.text@
        &&& new.version == old.version
        &&& new.edits@ == old.edits@
        &&& Article::same_attributes(old, new)
    }

    /// What recording a submission (based on `b`, patch `q`) does to `old`,
    /// with outcome `out` and result `new`: where `q` carried to the head
    /// fits the head text, it is applied, unless the text would not change;
    /// otherwise the submission is kept as a conflict.
    pub open spec fn submitted(
        old: &Article,
        new: &Article,
        b: EditVersion,
        q: Seq<HunkView>,
        author: u64,
        summary: Seq<char>,
        local: bool,
        remote_version: Option<EditVersion>,
        out: SubmitOutcome,
    ) -> bool {
        let len = old.text@.len() as int;
        match old.target_patch(b, q) {
            Some(r) => if hunks_fit(r, len) {
                if text_view(apply_spec(old.text@, r)) == text_view(old.text@) {
                    out == SubmitOutcome::Unchanged && *new == *old
                } else {
                    &&& out == (if b == old.version {
                        SubmitOutcome::Applied(new.version)
                    } else {
                        SubmitOutcome::Merged(new.version)
                    })
                    &&& Article::appended(old, new, r, author, summary, local, remote_version)
                }
            } else {
                Article::conflicted(old, new, b, q, author, summary, out)
            },
            None => Article::conflicted(old, new, b, q, author, summary, out),
        }
    }

    /// `new` is `old` with one more conflict, recording the submission.
    pub open spec fn conflicted(
        old: &Article,
        new: &Article,
        b: EditVersion,
        q: Seq<HunkView>,
        author: u64,
        summary: Seq<char>,
        out: SubmitOutcome,
    ) -> bool {
        let c = new.conflicts@.last();
        &&& out == SubmitOutcome::Conflict(old.next_conflict_id)
        &&& Article::same_history(old, new)
        &&& new.conflicts@.len() == old.conflicts@.len() + 1
        &&& new.conflicts@.drop_last() == old.conflicts@
        &&& c.id == old.next_conflict_id
        &&& c.author == author
        &&& c.patch@ == q
        &&& c.previous_version == b
        &&& c.actual_version == old.version
        &&& c.summary@ == summary
        &&& new.next_conflict_id == old.next_conflict_id + 1
    }
}

/// The characters of each line of a text.
pub open spec fn text_view(lines: Seq<String>) -> Seq<Seq<char>> {
    lines.map_values(|l: String| l@)
}

/// Whether two texts are the same, line by line.
pub fn same_lines(a: &Vec<String>, b: &Vec<String>) -> (r: bool)
    ensures
        r == (text_view(a@) == text_view(b@)),
{
    if a.len() != b.len() {
        assert(text_view(a@).len() != text_view(b@).len());
        return false;
    }
    let mut i: usize = 0;
    while i < a.len()
        invariant
            a@.len() == b@.len(),
            i <= a@.len(),
            forall|j: int| 0 <= j < i ==> a@[j]@ == b@[j]@,
        decreases a@.len() - i,
    {
        if a[i] != b[i] {
            assert(text_view(a@)[i as int] != text_view(b@)[i as int]);
            return false;
        }
        i += 1;
    }
    assert(text_view(a@) =~= text_view(b@));
    true
}

/// The latest point in the history of `es` whose version is `b`.
fn find_base_index(es: &Vec<Edit>, b: EditVersion) -> (r: Option<usize>)
    ensures
        match r {
            None => find_base(es@, b, es@.len() as int) is None,
            Some(k) => find_base(es@, b, es@.len() as int) == Some(k as int) && k <= es@.len(),
        },
{
    let empty: Vec<String> = Vec::new();
    let initial = text_version(&empty);
    assert(empty@ =~= Seq::<String>::empty());
    let mut k: usize = es.len();
    while k > 0
        invariant
            k <= es@.len(),
            initial == version_of(Seq::empty()),
            find_base(es@, b, k as int) == find_base(es@, b, es@.len() as int),
        decreases k,
    {
        if es[k - 1].version == b {
            return Some(k);
        }
        k -= 1;
    }
    if initial == b {
        Some(0)
    } else {
        None
    }
}

/// The patch `q` carried over the edits `es[k..]` in order.
fn carry_over(q: &Patch, es: &Vec<Edit>, k: usize) -> (r: Option<Patch>)
    requires
        k <= es@.len(),
    ensures
        match r {
            None => carry(q@, patches_of(es@).subrange(k as int, es@.len() as int)) is None,
            Some(p) => carry(q@, patches_of(es@).subrange(k as int, es@.len() as int)) == Some(p@),
        },
{
    let ghost ps = patches_of(es@);
    let n = es.len();
    let mut cur = q.copy();
    let mut i: usize = k;
    while i < n
        invariant
            n == es@.len(),
            ps == patches_of(es@),
            k <= i <= n,
            carry(cur@, ps.subrange(i as int, n as int)) == carry(q@, ps.subrange(k as int, n as int)),
        decreases n - i,
    {
        let ghost rest = ps.subrange(i as int, n as int);
        assert(rest[0] == es@[i as int].patch@);
        assert(rest.drop_first() =~= ps.subrange(i as int + 1, n as int));
        match rebase(&cur, &es[i].patch) {
            None => {
                return None;
            },
            Some(next) => {
                cur = next;
            },
        }
        i += 1;
    }
    Some(cur)
}

proof fn lemma_append_fits(old: Seq<Edit>, new: Seq<Edit>)
    requires
        history_wf(old),
        new.len() == old.len() + 1,
        new.drop_last() == old,
        hunks_fit(new.last().patch@, replay(patches_of(old)).len() as int),
    ensures
        forall|i: int|
            0 <= i < patches_of(new).len() ==> hunks_fit(
                #[trigger] patches_of(new)[i],
                replay(patches_of(new).subrange(0, i)).len() as int,
            ),
{
    let po = patches_of(old);
    let pn = patches_of(new);
    let n = old.len() as int;
    assert forall|i: int| 0 <= i < pn.len() implies hunks_fit(
        #[trigger] pn[i],
        replay(pn.subrange(0, i)).len() as int,
    ) by {
        assert(new[i] == new.drop_last()[i] || i == n);
        if i < n {
            assert(pn.subrange(0, i) =~= po.subrange(0, i));
            assert(pn[i] == po[i]);
        } else {
            assert(pn.subrange(0, i) =~= po);
        }
    }
}

proof fn lemma_append_versions(old: Seq<Edit>, new: Seq<Edit>)
    requires
        history_wf(old),
        new.len() == old.len() + 1,
        new.drop_last() == old,
        new.last().version == version_of(apply_spec(replay(patches_of(old)), new.last().patch@)),
    ensures
        forall|i: int|
            0 <= i < new.len() ==> #[trigger] new[i].version == version_of(
                replay(patches_of(new).subrange(0, i + 1)),
            ),
{
    let po = patches_of(old);
    let pn = patches_of(new);
    let n = old.len() as int;
    assert forall|i: int| 0 <= i < new.len() implies #[trigger] new[i].version == version_of(
        replay(pn.subrange(0, i + 1)),
    ) by {
        if i < n {
            assert(pn.subrange(0, i + 1) =~= po.subrange(0, i + 1));
            assert(new[i] == old[i]);
        } else {
            assert(pn.subrange(0, i + 1).drop_last() =~= po);
        }
    }
}

proof fn lemma_append_previous(old: Seq<Edit>, new: Seq<Edit>)
    requires
        history_wf(old),
        new.len() == old.len() + 1,
        new.drop_last() == old,
        new.last().previous_version == version_at(old, old.len() as int),
    ensures
        forall|i: int| 0 <= i < new.len() ==> #[trigger] new[i].previous_version == version_at(new, i),
{
    let n = old.len() as int;
    assert forall|i: int| 0 <= i < new.len() implies #[trigger] new[i].previous_version
        == version_at(new, i) by {
        if i < n {
            assert(new[i] == old[i]);
        }
        if 0 < i {
            assert(new[i - 1] == old[i - 1]);
        }
    }
}

/// Appending an edit of a patch that fits the current text keeps the history whole.
proof fn lemma_append_keeps_history(old: Seq<Edit>, new: Seq<Edit>)
    requires
        history_wf(old),
        new.len() == old.len() + 1,
        new.drop_last() == old,
        hunks_fit(new.last().patch@, replay(patches_of(old)).len() as int),
        new.last().previous_version == version_at(old, old.len() as int),
        new.last().version == version_of(apply_spec(replay(patches_of(old)), new.last().patch@)),
    ensures
        history_wf(new),
        replay(patches_of(new)) == apply_spec(replay(patches_of(old)), new.last().patch@),
{
    lemma_append_fits(old, new);
    lemma_append_versions(old, new);
    lemma_append_previous(old, new);
    assert(patches_of(new).drop_last() =~= patches_of(old));
}

/// The text after the first `n` edits of a whole history has the version that
/// the history records for that point.
proof fn lemma_version_at(es: Seq<Edit>, k: int)
    requires
        history_wf(es),
        0 <= k <= es.len(),
    ensures
        version_at(es, k) == version_of(replay(patches_of(es).subrange(0, k))),
{
    if k == 0 {
        assert(patches_of(es).subrange(0, 0) =~= Seq::<Seq<HunkView>>::empty());
    } else {
        assert(es[k - 1].version == version_of(replay(patches_of(es).subrange(0, k))));
    }
}

impl Article {
    /// Records a submission and says what became of it: applied, merged, unchanged or conflicted.
    fn submit(&mut self, form: EditForm, local: bool, remote_version: Option<EditVersion>) -> (out:
        SubmitOutcome)
        requires
            old(self).wf(),
            old(self).next_conflict_id < u64::MAX,
            form.based_on == old(self).version ==> hunks_fit(
                form.patch@,
                old(self).text@.len() as int,
            ),
        ensures
            final(self).wf(),
            Article::submitted(
                old(self),
                final(self),
                form.based_on,
                form.patch@,
                form.author,
                form.summary@,
                local,
                remote_version,
                out,
            ),
    {
        let ghost old_self = *self;
        let fast = form.based_on == self.version;
        let target: Option<Patch> = if fast {
            Some(form.patch.copy())
        } else {
            match find_base_index(&self.edits, form.based_on) {
                None => None,
                Some(k) => carry_over(&form.patch, &self.edits, k),
            }
        };
        assert(match target {
            None => self.target_patch(form.based_on, form.patch@) is None,
            Some(r) => self.target_patch(form.based_on, form.patch@) == Some(r@),
        });
        if let Some(r) = target {
            if r.fits(self.text.len()) {
                let new_text = apply_patch(&self.text, &r);
                if same_lines(&new_text, &self.text) {
                    return SubmitOutcome::Unchanged;
                }
                let v = text_version(&new_text);
                let e = Edit {
                    author: form.author,
                    patch: r,
                    previous_version: self.version,
                    version: v,
                    summary: form.summary,
                    local,
                    remote_version,
                };
                self.edits.push(e);
                proof {
                    assert(self.edits@.drop_last() =~= old_self.edits@);
                    lemma_version_at(old_self.edits@, old_self.edits@.len() as int);
                    assert(old_self.edits@.subrange(0, old_self.edits@.len() as int)
                        =~= old_self.edits@);
                    assert(patches_of(old_self.edits@).subrange(
                        0,
                        old_self.edits@.len() as int,
                    ) =~= patches_of(old_self.edits@));
                    lemma_append_keeps_history(old_self.edits@, self.edits@);
                }
                self.text = new_text;
                self.version = v;
                if fast {
                    return SubmitOutcome::Applied(v);
                } else {
                    return SubmitOutcome::Merged(v);
                }
            }
        }
        let id = self.next_conflict_id;
        let c = EditConflict {
            id,
            author: form.author,
            patch: form.patch,
            previous_version: form.based_on,
            actual_version: self.version,
            summary: form.summary,
        };
        self.conflicts.push(c);
        self.next_conflict_id = id + 1;
        proof {
            assert(self.conflicts@.drop_last() =~= old_self.conflicts@);
            assert forall|i: int, j: int|
                0 <= i < j < self.conflicts@.len() implies (#[trigger] self.conflicts@[i]).id
                != (#[trigger] self.conflicts@[j]).id by {
                if j < old_self.conflicts@.len() {
                    assert(self.conflicts@[i] == old_self.conflicts@[i]);
                    assert(self.conflicts@[j] == old_self.conflicts@[j]);
                } else {
                    assert(self.conflicts@[i] == old_self.conflicts@[i]);
                }
            }
            assert forall|i: int| 0 <= i < self.conflicts@.len() implies (
            #[trigger] self.conflicts@[i]).id < self.next_conflict_id by {
                if i < old_self.conflicts@.len() {
                    assert(self.conflicts@[i] == old_self.conflicts@[i]);
                }
            }
        }
        SubmitOutcome::Conflict(id)
    }
}

/// Whether the history records an edit received with remote version `v`, or
/// one that produced `v`.
pub open spec fn update_seen(es: Seq<Edit>, v: EditVersion) -> bool {
    exists|i: int| 0 <= i < es.len() && ((#[trigger] es[i]).version == v || es[i].remote_version == Some(v))
}

fn has_seen(es: &Vec<Edit>, v: EditVersion) -> (r: bool)
    ensures
        r == update_seen(es@, v),
{
    let mut i: usize = 0;
    while i < es.len()
        invariant
            i <= es@.len(),
            forall|j: int| 0 <= j < i ==> !((#[trigger] es@[j]).version == v || es@[j].remote_version == Some(v)),
        decreases es@.len() - i,
    {
        let e = &es[i];
        if e.version == v {
            assert(es@[i as int].version == v);
            return true;
        }
        match e.remote_version {
            Some(rv) => {
                if rv == v {
                    assert(es@[i as int].remote_version == Some(v));
                    return true;
                }
            },
            None => {},
        }
        assert(!(es@[i as int].version == v || es@[i as int].remote_version == Some(v)));
        i += 1;
    }
    false
}

/// A copy of an edit.
fn copy_edit(e: &Edit) -> (r: Edit)
    ensures
        r.author == e.author,
        r.patch@ == e.patch@,
        r.previous_version == e.previous_version,
        r.version == e.version,
        r.summary@ == e.summary@,
        r.local == e.local,
        r.remote_version == e.remote_version,
{
    Edit {
        author: e.author,
        patch: e.patch.copy(),
        previous_version: e.previous_version,
        version: e.version,
        summary: e.summary.clone(),
        local: e.local,
        remote_version: e.remote_version,
    }
}

impl Article {
    /// A new article with empty text and no history.
    pub fn new(title: String, ap_id: String, instance_id: u64, local: bool, protected: bool, approved: bool) -> (r: Article)
        ensures
            r.wf(),
            r.text@.len() == 0,
            r.edits@.len() == 0,
            r.conflicts@.len() == 0,
            r.next_conflict_id == 0,
            r.version == version_of(Seq::empty()),
            r.title@ == title@,
            r.ap_id@ == ap_id@,
            r.instance_id == instance_id,
            r.local == local,
            r.protected == protected,
            r.approved == approved,
    {
        let text: Vec<String> = Vec::new();
        let version = text_version(&text);
        let r = Article {
            title,
            ap_id,
            instance_id,
            local,
            protected,
            approved,
            text,
            version,
            edits: Vec::new(),
            conflicts: Vec::new(),
            next_conflict_id: 0,
        };
        assert(r.text@ =~= Seq::<String>::empty());
        assert(patches_of(r.edits@) =~= Seq::<Seq<HunkView>>::empty());
        r
    }

    /// Submits a change made on this instance. A protected article takes
    /// changes from administrators only; a change based on the head must fit
    /// the head text.
    pub fn submit_edit(&mut self, form: EditForm, admin: bool) -> (r: Result<SubmitOutcome, EditError>)
        requires
            old(self).wf(),
            old(self).next_conflict_id < u64::MAX,
        ensures
            final(self).wf(),
            Article::edit_submitted(old(self), final(self), form.based_on, form.patch@, form.author, form.summary@, admin, r),
    {
        if self.protected && !admin {
            return Err(EditError::Forbidden);
        }
        if form.based_on == self.version && !form.patch.fits(self.text.len()) {
            return Err(EditError::InvalidPatch);
        }
        Ok(self.submit(form, true, None))
    }

    /// Takes a change received from another instance, where it produced
    /// `remote_version`. A change already taken (its remote version, or the
    /// version it produced, is in the history) is taken no second time.
    pub fn receive_update(&mut self, form: EditForm, remote_version: EditVersion) -> (r: Result<SubmitOutcome, EditError>)
        requires
            old(self).wf(),
            old(self).next_conflict_id < u64::MAX,
        ensures
            final(self).wf(),
            Article::received(old(self), final(self), form.based_on, form.patch@, form.author, form.summary@, remote_version, r),
    {
        if has_seen(&self.edits, remote_version) {
            return Ok(SubmitOutcome::Unchanged);
        }
        if form.based_on == self.version && !form.patch.fits(self.text.len()) {
            return Err(EditError::InvalidPatch);
        }
        Ok(self.submit(form, false, Some(remote_version)))
    }

    /// What receiving a change from another instance does.
    pub open spec fn received(
        old: &Article,
        new: &Article,
        b: EditVersion,
        q: Seq<HunkView>,
        author: u64,
        summary: Seq<char>,
        remote_version: EditVersion,
        r: Result<SubmitOutcome, EditError>,
    ) -> bool {
        if update_seen(old.edits@, remote_version) {
            r == Ok::<SubmitOutcome, EditError>(SubmitOutcome::Unchanged) && *new == *old
        } else if b == old.version && !hunks_fit(q, old.text@.len() as int) {
            r == Err::<SubmitOutcome, EditError>(EditError::InvalidPatch) && *new == *old
        } else {
            (r matches Ok(out) && Article::submitted(old, new, b, q, author, summary, false, Some(remote_version), out))
        }
    }

    /// Discards the pending conflict with the given id; text and history stay as they are.
    pub fn discard_conflict(&mut self, id: u64) -> (r: Result<(), EditError>)
        requires
            old(self).wf(),
        ensures
            final(self).wf(),
            Article::discarded(old(self), final(self), id, r),
    {
        let ghost old_self = *self;
        let mut i: usize = 0;
        while i < self.conflicts.len()
            invariant
                *self == old_self,
                old_self == *old(self),
                old_self.wf(),
                i <= self.conflicts@.len(),
                forall|j: int| 0 <= j < i ==> (#[trigger] self.conflicts@[j]).id != id,
            decreases self.conflicts@.len() - i,
        {
            if self.conflicts[i].id == id {
                let _c = self.conflicts.remove(i);
                proof {
                    let oc = old_self.conflicts@;
                    assert(self.conflicts@ =~= oc.subrange(0, i as int) + oc.subrange(i as int + 1, oc.len() as int));
                    assert forall|a: int, b: int|
                        0 <= a < b < self.conflicts@.len() implies (#[trigger] self.conflicts@[a]).id
                        != (#[trigger] self.conflicts@[b]).id by {
                        let a0 = if a < i { a } else { a + 1 };
                        let b0 = if b < i { b } else { b + 1 };
                        assert(self.conflicts@[a] == old_self.conflicts@[a0]);
                        assert(self.conflicts@[b] == old_self.conflicts@[b0]);
                    }
                    assert forall|a: int| 0 <= a < self.conflicts@.len() implies (
                    #[trigger] self.conflicts@[a]).id < self.next_conflict_id by {
                        let a0 = if a < i { a } else { a + 1 };
                        assert(self.conflicts@[a] == old_self.conflicts@[a0]);
                    }
                    assert(old_self.conflicts@[i as int].id == id);
                    assert(self.conflicts@ == old_self.conflicts@.remove(i as int));
                }
                return Ok(());
            }
            i += 1;
        }
        Err(EditError::NotFound)
    }

    /// What discarding the conflict `id` does: where a pending conflict has
    /// that id, it is removed and all else stays; otherwise `NotFound` and
    /// nothing changes.
    pub open spec fn discarded(old: &Article, new: &Article, id: u64, r: Result<(), EditError>) -> bool {
        if exists|i: int| 0 <= i < old.conflicts@.len() && (#[trigger] old.conflicts@[i]).id == id {
            &&& r is Ok
            &&& Article::same_history(old, new)
            &&& new.next_conflict_id == old.next_conflict_id
            &&& exists|i: int|
                0 <= i < old.conflicts@.len() && (#[trigger] old.conflicts@[i]).id == id
                    && new.conflicts@ == old.conflicts@.remove(i)
        } else {
            r == Err::<(), EditError>(EditError::NotFound) && *new == *old
        }
    }

    /// A copy of this article, with its full history, homed at another
    /// instance under another identity. It starts with no pending conflicts.
    pub fn fork(&self, instance_id: u64, ap_id: String) -> (r: Article)
        requires
            self.wf(),
        ensures
            r.wf(),
            Article::forked(self, &r, instance_id, ap_id@),
    {
        let mut edits: Vec<Edit> = Vec::new();
        let mut i: usize = 0;
        while i < self.edits.len()
            invariant
                i <= self.edits@.len(),
                edits@.len() == i,
                forall|j: int| 0 <= j < i ==> Article::same_edit(#[trigger] edits@[j], self.edits@[j]),
            decreases self.edits@.len() - i,
        {
            let e = copy_edit(&self.edits[i]);
            edits.push(e);
            i += 1;
        }
        let r = Article {
            title: self.title.clone(),
            ap_id,
            instance_id,
            local: true,
            protected: false,
            approved: self.approved,
            text: copy_lines(&self.text),
            version: self.version,
            edits,
            conflicts: Vec::new(),
            next_conflict_id: 0,
        };
        proof {
            assert(patches_of(r.edits@) =~= patches_of(self.edits@));
            assert forall|j: int| 0 <= j < r.edits@.len() implies #[trigger] r.edits@[j].version == self.edits@[j].version
                && r.edits@[j].previous_version == self.edits@[j].previous_version by {
                assert(Article::same_edit(r.edits@[j], self.edits@[j]));
            }
            assert forall|j: int| 0 <= j < r.edits@.len() implies #[trigger] r.edits@[j].previous_version == version_at(r.edits@, j) by {
                assert(Article::same_edit(r.edits@[j], self.edits@[j]));
                assert(self.edits@[j].previous_version == version_at(self.edits@, j));
                if j > 0 {
                    assert(Article::same_edit(r.edits@[j - 1], self.edits@[j - 1]));
                }
            }
        }
        r
    }

    /// Two edits record the same change.
    pub open spec fn same_edit(a: Edit, b: Edit) -> bool {
        &&& a.author == b.author
        &&& a.patch@ == b.patch@
        &&& a.previous_version == b.previous_version
        &&& a.version == b.version
        &&& a.summary@ == b.summary@
        &&& a.local == b.local
        &&& a.remote_version == b.remote_version
    }

    /// `new` is a fork of `old`: the same text, head and history, homed at
    /// `instance_id` under `ap_id`, local, unprotected, with no pending conflicts.
    pub open spec fn forked(old: &Article, new: &Article, instance_id: u64, ap_id: Seq<char>) -> bool {
        &&& new.text@ == old.text@
        &&& new.version == old.version
        &&& new.edits@.len() == old.edits@.len()
        &&& forall|j: int| 0 <= j < old.edits@.len() ==> Article::same_edit(#[trigger] new.edits@[j], old.edits@[j])
        &&& new.title@ == old.title@
        &&& new.ap_id@ == ap_id
        &&& new.instance_id == instance_id
        &&& new.local
        &&& !new.protected
        &&& new.approved == old.approved
        &&& new.conflicts@.len() == 0
    }
}

impl Article {
    /// What a local submission by an author with the given rights does.
    pub open spec fn edit_submitted(
        old: &Article,
        new: &Article,
        b: EditVersion,
        q: Seq<HunkView>,
        author: u64,
        summary: Seq<char>,
        admin: bool,
        r: Result<SubmitOutcome, EditError>,
    ) -> bool {
        if old.protected && !admin {
            r == Err::<SubmitOutcome, EditError>(EditError::Forbidden) && *new == *old
        } else if b == old.version && !hunks_fit(q, old.text@.len() as int) {
            r == Err::<SubmitOutcome, EditError>(EditError::InvalidPatch) && *new == *old
        } else {
            (r matches Ok(out) && Article::submitted(old, new, b, q, author, summary, true, None, out))
        }
    }
}

/// The history replays to the text: applying every recorded edit in order to
/// the empty text gives the current text, whose version is the head version,
/// and each recorded version is that of the text the history had reached there.
pub proof fn lemma_history_replay(a: &Article)
    requires
        a.wf(),
    ensures
        replay(patches_of(a.edits@)) == a.text@,
        version_of(replay(patches_of(a.edits@))) == a.version,
        forall|k: int|
            0 <= k <= a.edits@.len() ==> #[trigger] version_at(a.edits@, k) == version_of(
                replay(patches_of(a.edits@).subrange(0, k)),
            ),
{
    assert forall|k: int| 0 <= k <= a.edits@.len() implies #[trigger] version_at(a.edits@, k)
        == version_of(replay(patches_of(a.edits@).subrange(0, k))) by {
        lemma_version_at(a.edits@, k);
    }
}

/// Two submissions based on the same head, recorded one after the other: at
/// most one of them is applied as it stands. Once the first has moved the head,
/// the second is merged, changes nothing, or becomes exactly one conflict.
pub proof fn lemma_one_fast_path(
    a0: &Article,
    a1: &Article,
    a2: &Article,
    q1: Seq<HunkView>,
    q2: Seq<HunkView>,
    author1: u64,
    author2: u64,
    summary1: Seq<char>,
    summary2: Seq<char>,
    local1: bool,
    local2: bool,
    remote1: Option<EditVersion>,
    remote2: Option<EditVersion>,
    o1: SubmitOutcome,
    o2: SubmitOutcome,
)
    requires
        a0.wf(),
        Article::submitted(a0, a1, a0.version, q1, author1, summary1, local1, remote1, o1),
        Article::submitted(a1, a2, a0.version, q2, author2, summary2, local2, remote2, o2),
        o1 is Applied ==> a1.version != a0.version,
    ensures
        !(o1 is Applied && o2 is Applied),
        o1 is Applied ==> (o2 is Merged || o2 is Unchanged || o2 is Conflict),
        o2 is Conflict ==> a2.conflicts@.len() == a1.conflicts@.len() + 1 && a2.edits@ == a1.edits@,
        o2 is Merged || o2 is Applied ==> a2.edits@.len() == a1.edits@.len() + 1,
{
}

/// A submission based on the head with an empty patch records nothing: no
/// edit, no conflict, and the article stays as it was.
pub proof fn lemma_empty_patch_idempotent(
    a0: &Article,
    a1: &Article,
    author: u64,
    summary: Seq<char>,
    local: bool,
    remote: Option<EditVersion>,
    o: SubmitOutcome,
)
    requires
        a0.wf(),
        Article::submitted(a0, a1, a0.version, Seq::empty(), author, summary, local, remote, o),
    ensures
        o == SubmitOutcome::Unchanged,
        *a1 == *a0,
{
    assert(apply_spec(a0.text@, Seq::empty()) =~= a0.text@);
}

/// Discarding a conflict leaves the head version, the text and the history as they were.
pub proof fn lemma_discard_keeps_history(a0: &Article, a1: &Article, id: u64, r: Result<(), EditError>)
    requires
        Article::discarded(a0, a1, id, r),
    ensures
        a1.version == a0.version,
        a1.text@ == a0.text@,
        a1.edits@ == a0.edits@,
{
}

/// The same update received twice is applied at most once: the second
/// delivery finds the first one's remote version in the history.
pub proof fn lemma_duplicate_update(
    a0: &Article,
    a1: &Article,
    a2: &Article,
    b: EditVersion,
    q: Seq<HunkView>,
    author: u64,
    summary: Seq<char>,
    v: EditVersion,
    r1: Result<SubmitOutcome, EditError>,
    r2: Result<SubmitOutcome, EditError>,
)
    requires
        a0.wf(),
        Article::received(a0, a1, b, q, author, summary, v, r1),
        Article::received(a1, a2, b, q, author, summary, v, r2),
    ensures
        a2.edits@.len() <= a0.edits@.len() + 1,
        a1.edits@.len() == a0.edits@.len() + 1 ==> *a2 == *a1,
{
    if a1.edits@.len() == a0.edits@.len() + 1 {
        let n = a0.edits@.len() as int;
        assert(a1.edits@[n].remote_version == Some(v));
        assert(update_seen(a1.edits@, v));
    }
}

/// Receiving a change keeps the article's title, identity and flags.
pub proof fn lemma_received_keeps_attributes(
    old: &Article,
    new: &Article,
    b: EditVersion,
    q: Seq<HunkView>,
    author: u64,
    summary: Seq<char>,
    remote_version: EditVersion,
    r: Result<SubmitOutcome, EditError>,
)
    requires
        Article::received(old, new, b, q, author, summary, remote_version, r),
    ensures
        Article::same_attributes(old, new),
{
}

/// A local submission keeps the article's title, identity and flags.
pub proof fn lemma_submitted_keeps_attributes(
    old: &Article,
    new: &Article,
    b: EditVersion,
    q: Seq<HunkView>,
    author: u64,
    summary: Seq<char>,
    admin: bool,
    r: Result<SubmitOutcome, EditError>,
)
    requires
        Article::edit_submitted(old, new, b, q, author, summary, admin, r),
    ensures
        Article::same_attributes(old, new),
{
}

} // verus!
