use vstd::prelude::*;

verus! {

/// One contiguous change to a document: the lines `start .. start + removed`
/// of the document it is based on are replaced by `inserted`.
pub struct Hunk {
    pub start: usize,
    pub removed: usize,
    pub inserted: Vec<String>,
}

/// What a hunk is, as a mathematical value.
pub struct HunkView {
    pub start: nat,
    pub removed: nat,
    pub inserted: Seq<String>,
}

impl HunkView {
    /// The first line after the replaced range.
    pub open spec fn end(&self) -> int {
        (self.start + self.removed) as int
    }
}

impl View for Hunk {
    type V = HunkView;

    open spec fn view(&self) -> HunkView {
        HunkView { start: self.start as nat, removed: self.removed as nat, inserted: self.inserted@ }
    }
}

/// A change to a document, as hunks in increasing order.
pub struct Patch {
    pub hunks: Vec<Hunk>,
}

/// The views of a list of hunks.
pub open spec fn view_hunks(hs: Seq<Hunk>) -> Seq<HunkView> {
    hs.map_values(|h: Hunk| h@)
}

impl View for Patch {
    type V = Seq<HunkView>;

    open spec fn view(&self) -> Seq<HunkView> {
        view_hunks(self.hunks@)
    }
}

/// The hunks stand in order, do not overlap, and lie within a document of `len` lines.
pub open spec fn hunks_fit(hs: Seq<HunkView>, len: int) -> bool {
    &&& forall|i: int| 0 <= i < hs.len() ==> #[trigger] hs[i].end() <= len
    &&& forall|i: int| 0 <= i < hs.len() - 1 ==> #[trigger] hs[i].end() <= hs[i + 1].start
}

/// The document `base` from line `cursor` on, with the hunks `hs` applied.
pub open spec fn apply_hunks(base: Seq<String>, hs: Seq<HunkView>, cursor: int) -> Seq<String>
    decreases hs.len(),
{
    if hs.len() == 0 {
        base.subrange(cursor, base.len() as int)
    } else {
        let h = hs[0];
        base.subrange(cursor, h.start as int) + h.inserted + apply_hunks(
            base,
            hs.drop_first(),
            h.end(),
        )
    }
}

/// The document `base` with the patch `hs` applied.
pub open spec fn apply_spec(base: Seq<String>, hs: Seq<HunkView>) -> Seq<String> {
    apply_hunks(base, hs, 0)
}

/// Hunk `a` lies wholly before hunk `b` in the document both are based on:
/// `a` ends at or before the line where `b` starts.
pub open spec fn hunk_before(a: HunkView, b: HunkView) -> bool {
    a.end() <= b.start
}

/// Where hunk `q`, now at line `pos`, starts once the hunks `ps` (all based on
/// the same document as `q`) have been applied; `None` where one of `ps`
/// overlaps `q`, or the position leaves the range of `usize`.
pub open spec fn shifted_start(q: HunkView, ps: Seq<HunkView>, pos: int) -> Option<int>
    decreases ps.len(),
{
    if ps.len() == 0 {
        Some(pos)
    } else {
        let p = ps[0];
        if hunk_before(p, q) {
            let grown = pos + p.inserted.len();
            if grown > usize::MAX || grown < p.removed {
                None
            } else {
                shifted_start(q, ps.drop_first(), grown - p.removed)
            }
        } else if hunk_before(q, p) {
            shifted_start(q, ps.drop_first(), pos)
        } else {
            None
        }
    }
}

/// The patch `qs` carried over the patch `ps` (both based on the same
/// document), so that it applies to the document that `ps` produced;
/// `None` where a hunk of `qs` overlaps one of `ps`.
pub open spec fn rebase_spec(qs: Seq<HunkView>, ps: Seq<HunkView>) -> Option<Seq<HunkView>>
    decreases qs.len(),
{
    if qs.len() == 0 {
        Some(Seq::empty())
    } else {
        let q = qs[0];
        match shifted_start(q, ps, q.start as int) {
            None => None,
            Some(s) => match rebase_spec(qs.drop_first(), ps) {
                None => None,
                Some(rest) => Some(
                    seq![HunkView { start: s as nat, removed: q.removed, inserted: q.inserted }]
                        + rest,
                ),
            },
        }
    }
}

/// `a` put in front of the patch that `o` holds, if it holds one.
pub open spec fn prepend_hunks(a: Seq<HunkView>, o: Option<Seq<HunkView>>) -> Option<Seq<HunkView>> {
    match o {
        None => None,
        Some(rest) => Some(a + rest),
    }
}

/// A copy of a list of lines.
pub fn copy_lines(v: &Vec<String>) -> (r: Vec<String>)
    ensures
        r@ == v@,
{
    let mut r: Vec<String> = Vec::new();
    let mut i: usize = 0;
    while i < v.len()
        invariant
            i <= v@.len(),
            r@ == v@.subrange(0, i as int),
        decreases v@.len() - i,
    {
        r.push(v[i].clone());
        i += 1;
        assert(r@ =~= v@.subrange(0, i as int));
    }
    assert(r@ =~= v@);
    r
}

impl Hunk {
    /// A copy of this hunk.
    pub fn copy(&self) -> (r: Hunk)
        ensures
            r@ == self@,
    {
        Hunk { start: self.start, removed: self.removed, inserted: copy_lines(&self.inserted) }
    }
}

impl Patch {
    /// A copy of this patch.
    pub fn copy(&self) -> (r: Patch)
        ensures
            r@ == self@,
    {
        let mut hunks: Vec<Hunk> = Vec::new();
        let mut i: usize = 0;
        while i < self.hunks.len()
            invariant
                i <= self.hunks@.len(),
                view_hunks(hunks@) == self@.subrange(0, i as int),
            decreases self.hunks@.len() - i,
        {
            let c = self.hunks[i].copy();
            assert(c@ == self@[i as int]);
            let ghost before = hunks@;
            hunks.push(c);
            assert(hunks@ == before.push(c));
            assert(view_hunks(hunks@) =~= view_hunks(before).push(c@));
            assert(self@.subrange(0, i as int + 1) =~= self@.subrange(0, i as int).push(self@[i as int]));
            i += 1;
            assert(view_hunks(hunks@) =~= self@.subrange(0, i as int));
        }
        let r = Patch { hunks };
        assert(r@ =~= self@);
        r
    }

    /// A patch that changes nothing.
    pub fn empty() -> (r: Patch)
        ensures
            r@ == Seq::<HunkView>::empty(),
    {
        let r = Patch { hunks: Vec::new() };
        assert(r@ =~= Seq::<HunkView>::empty());
        r
    }

    /// Whether the hunks stand in order, do not overlap, and lie within a document of `len` lines.
    pub fn fits(&self, len: usize) -> (r: bool)
        ensures
            r == hunks_fit(self@, len as int),
    {
        let n = self.hunks.len();
        let mut i: usize = 0;
        while i < n
            invariant
                n == self@.len(),
                i <= n,
                forall|j: int| 0 <= j < i ==> #[trigger] self@[j].end() <= len,
                forall|j: int| 0 <= j < i && j < n - 1 ==> #[trigger] self@[j].end() <= self@[j + 1].start,
            decreases n - i,
        {
            let h = &self.hunks[i];
            assert(self@[i as int] == h@);
            if h.removed > len || h.start > len - h.removed {
                assert(!(self@[i as int].end() <= len));
                return false;
            }
            if i + 1 < n && h.start + h.removed > self.hunks[i + 1].start {
                assert(self@[i as int + 1] == self.hunks@[i + 1]@);
                assert(!(self@[i as int].end() <= self@[i as int + 1].start));
                return false;
            }
            i += 1;
        }
        true
    }
}

/// The document `base` with the patch applied.
pub fn apply_patch(base: &Vec<String>, patch: &Patch) -> (r: Vec<String>)
    requires
        hunks_fit(patch@, base@.len() as int),
    ensures
        r@ == apply_spec(base@, patch@),
{
    let ghost b = base@;
    let ghost hs = patch@;
    let n = patch.hunks.len();
    let mut out: Vec<String> = Vec::new();
    let mut cursor: usize = 0;
    let mut i: usize = 0;
    assert(hs.subrange(0, n as int) =~= hs);
    while i < n
        invariant
            n == hs.len(),
            hs == patch@,
            b == base@,
            hunks_fit(hs, b.len() as int),
            i <= n,
            cursor <= b.len(),
            i < n ==> cursor <= hs[i as int].start,
            out@ + apply_hunks(b, hs.subrange(i as int, n as int), cursor as int) == apply_hunks(b, hs, 0),
        decreases n - i,
    {
        let h = &patch.hunks[i];
        assert(hs[i as int] == h@);
        let ghost rest = hs.subrange(i as int, n as int);
        assert(rest[0] == h@);
        assert(rest.drop_first() =~= hs.subrange(i as int + 1, n as int));
        let ghost out0 = out@;
        let mut k: usize = cursor;
        while k < h.start
            invariant
                cursor <= k <= h.start,
                h.start <= b.len(),
                b == base@,
                out@ == out0 + b.subrange(cursor as int, k as int),
            decreases h.start - k,
        {
            out.push(base[k].clone());
            k += 1;
            assert(out@ =~= out0 + b.subrange(cursor as int, k as int));
        }
        let mut j: usize = 0;
        let ghost out1 = out@;
        while j < h.inserted.len()
            invariant
                j <= h.inserted@.len(),
                b == base@,
                out@ == out1 + h.inserted@.subrange(0, j as int),
            decreases h.inserted@.len() - j,
        {
            out.push(h.inserted[j].clone());
            j += 1;
            assert(out@ =~= out1 + h.inserted@.subrange(0, j as int));
        }
        assert(h.inserted@.subrange(0, h.inserted@.len() as int) =~= h.inserted@);
        assert(out@ + apply_hunks(b, hs.subrange(i as int + 1, n as int), h@.end()) =~= out0
            + apply_hunks(b, rest, cursor as int));
        assert(hs[i as int].end() <= b.len());
        assert(h.start as int + h.removed as int <= b.len());
        assert(b.len() == base.len());
        cursor = h.start + h.removed;
        i += 1;
    }
    let ghost last = apply_hunks(b, hs.subrange(n as int, n as int), cursor as int);
    assert(last == b.subrange(cursor as int, b.len() as int));
    while cursor < base.len()
        invariant
            cursor <= b.len(),
            b == base@,
            out@ + b.subrange(cursor as int, b.len() as int) == apply_hunks(b, hs, 0),
        decreases b.len() - cursor,
    {
        let ghost before = out@;
        out.push(base[cursor].clone());
        assert(before + b.subrange(cursor as int, b.len() as int) =~= out@ + b.subrange(
            cursor as int + 1,
            b.len() as int,
        ));
        cursor += 1;
    }
    assert(out@ =~= out@ + b.subrange(cursor as int, b.len() as int));
    out
}

/// Where the hunk `q` starts once the patch `ps`, based on the same document, has been applied.
pub fn shift_start(q: &Hunk, ps: &Patch) -> (r: Option<usize>)
    ensures
        match r {
            None => shifted_start(q@, ps@, q.start as int) is None,
            Some(s) => shifted_start(q@, ps@, q.start as int) == Some(s as int),
        },
{
    let ghost hs = ps@;
    let n = ps.hunks.len();
    let mut pos: usize = q.start;
    let mut i: usize = 0;
    assert(hs.subrange(0, n as int) =~= hs);
    while i < n
        invariant
            n == hs.len(),
            hs == ps@,
            i <= n,
            shifted_start(q@, hs.subrange(i as int, n as int), pos as int) == shifted_start(q@, hs, q.start as int),
        decreases n - i,
    {
        let p = &ps.hunks[i];
        assert(hs[i as int] == p@);
        let ghost rest = hs.subrange(i as int, n as int);
        assert(rest[0] == p@);
        assert(rest.drop_first() =~= hs.subrange(i as int + 1, n as int));
        if p.removed <= q.start && p.start <= q.start - p.removed {
            if pos > usize::MAX - p.inserted.len() {
                return None;
            }
            let grown = pos + p.inserted.len();
            if grown < p.removed {
                return None;
            }
            pos = grown - p.removed;
        } else if q.removed <= p.start && q.start <= p.start - q.removed {
        } else {
            return None;
        }
        i += 1;
    }
    Some(pos)
}

/// The patch `qs` carried over the patch `ps`, both based on the same document,
/// so that it applies to the document that `ps` produced; `None` where they overlap.
pub fn rebase(qs: &Patch, ps: &Patch) -> (r: Option<Patch>)
    ensures
        match r {
            None => rebase_spec(qs@, ps@) is None,
            Some(p) => rebase_spec(qs@, ps@) == Some(p@),
        },
{
    let ghost all = qs@;
    let n = qs.hunks.len();
    let mut out: Vec<Hunk> = Vec::new();
    let mut i: usize = 0;
    assert(all.subrange(0, n as int) =~= all);
    assert(view_hunks(out@) =~= Seq::<HunkView>::empty());
    assert(Seq::<HunkView>::empty() + all =~= all);
    while i < n
        invariant
            n == all.len(),
            all == qs@,
            i <= n,
            rebase_spec(all, ps@) == prepend_hunks(
                view_hunks(out@),
                rebase_spec(all.subrange(i as int, n as int), ps@),
            ),
        decreases n - i,
    {
        let q = &qs.hunks[i];
        assert(all[i as int] == q@);
        let ghost rest = all.subrange(i as int, n as int);
        assert(rest[0] == q@);
        assert(rest.drop_first() =~= all.subrange(i as int + 1, n as int));
        match shift_start(q, ps) {
            None => {
                return None;
            },
            Some(s) => {
                let h = Hunk { start: s, removed: q.removed, inserted: copy_lines(&q.inserted) };
                let ghost before = out@;
                out.push(h);
                assert(view_hunks(out@) =~= view_hunks(before).push(h@));
                proof {
                    let tail = rebase_spec(all.subrange(i as int + 1, n as int), ps@);
                    if let Some(t) = tail {
                        assert(view_hunks(before) + (seq![h@] + t) =~= view_hunks(out@) + t);
                    }
                }
                i += 1;
            },
        }
    }
    let r = Patch { hunks: out };
    assert(r@ + Seq::<HunkView>::empty() =~= r@);
    Some(r)
}

} // verus!
