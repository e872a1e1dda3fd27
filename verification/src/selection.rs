use vstd::prelude::*;

verus! {

/// `x` lies inside the closed interval `r`.
pub open spec fn in_range(r: (u64, u64), x: int) -> bool {
    r.0 <= x <= r.1
}

/// `x` lies inside one of the intervals of `s`.
pub open spec fn covered(s: Seq<(u64, u64)>, x: int) -> bool {
    exists|k: int| 0 <= k < s.len() && in_range(#[trigger] s[k], x)
}

/// The canonical interval form: every interval is non-empty, and the
/// intervals are sorted with at least one index of gap between neighbours
/// (touching intervals are always merged).
pub open spec fn ranges_wf(s: Seq<(u64, u64)>) -> bool {
    &&& forall|k: int| 0 <= k < s.len() ==> (#[trigger] s[k]).0 <= s[k].1
    &&& forall|j: int, k: int| 0 <= j < k < s.len() ==> (#[trigger] s[j]).1 + 1 < (#[trigger] s[k]).0
}

/// Covering by a sequence with one more interval.
pub proof fn lemma_covered_push(s: Seq<(u64, u64)>, r: (u64, u64), x: int)
    ensures
        covered(s.push(r), x) == (covered(s, x) || in_range(r, x)),
{
    if covered(s.push(r), x) {
        let k = choose|k: int| 0 <= k < s.push(r).len() && in_range(#[trigger] s.push(r)[k], x);
        if k < s.len() {
            assert(in_range(s[k], x));
        }
    }
    if covered(s, x) {
        let k = choose|k: int| 0 <= k < s.len() && in_range(#[trigger] s[k], x);
        assert(s.push(r)[k] == s[k]);
    }
    if in_range(r, x) {
        assert(s.push(r)[s.len() as int] == r);
    }
}

/// The coverage bookkeeping of one merge step: a prefix of the old
/// intervals plus the added one is covered by `out` plus the open interval.
pub open spec fn step_covers(out: Seq<(u64, u64)>, m: (u64, u64), prefix: Seq<(u64, u64)>, lo: u64, hi: u64) -> bool {
    forall|x: int|
        #![trigger covered(prefix, x)]
        (covered(out, x) || in_range(m, x)) == (covered(prefix, x) || lo <= x <= hi)
}

/// Step lemma: the next old interval lies before the open one and is emitted.
proof fn lemma_step_emit_old(out: Seq<(u64, u64)>, m: (u64, u64), prefix: Seq<(u64, u64)>, r: (u64, u64), lo: u64, hi: u64)
    requires
        step_covers(out, m, prefix, lo, hi),
    ensures
        step_covers(out.push(r), m, prefix.push(r), lo, hi),
{
    assert forall|x: int|
        #![trigger covered(prefix.push(r), x)]
        (covered(out.push(r), x) || in_range(m, x)) == (covered(prefix.push(r), x) || lo <= x <= hi) by {
        lemma_covered_push(out, r, x);
        lemma_covered_push(prefix, r, x);
    }
}

/// Step lemma: the open interval ends before the next old one; it is
/// emitted and the old one becomes open.
proof fn lemma_step_emit_open(out: Seq<(u64, u64)>, m: (u64, u64), prefix: Seq<(u64, u64)>, r: (u64, u64), lo: u64, hi: u64)
    requires
        step_covers(out, m, prefix, lo, hi),
    ensures
        step_covers(out.push(m), r, prefix.push(r), lo, hi),
{
    assert forall|x: int|
        #![trigger covered(prefix.push(r), x)]
        (covered(out.push(m), x) || in_range(r, x)) == (covered(prefix.push(r), x) || lo <= x <= hi) by {
        lemma_covered_push(out, m, x);
        lemma_covered_push(prefix, r, x);
    }
}

/// Step lemma: the next old interval touches the open one and is absorbed.
proof fn lemma_step_absorb(out: Seq<(u64, u64)>, m: (u64, u64), prefix: Seq<(u64, u64)>, r: (u64, u64), lo: u64, hi: u64)
    requires
        step_covers(out, m, prefix, lo, hi),
        r.0 <= r.1,
        m.0 <= m.1,
        r.0 <= m.1 + 1,
        m.0 <= r.1 + 1,
    ensures
        step_covers(
            out,
            (if m.0 <= r.0 { m.0 } else { r.0 }, if m.1 >= r.1 { m.1 } else { r.1 }),
            prefix.push(r),
            lo,
            hi,
        ),
{
    let m2 = (if m.0 <= r.0 { m.0 } else { r.0 }, if m.1 >= r.1 { m.1 } else { r.1 });
    assert forall|x: int|
        #![trigger covered(prefix.push(r), x)]
        (covered(out, x) || in_range(m2, x)) == (covered(prefix.push(r), x) || lo <= x <= hi) by {
        lemma_covered_push(prefix, r, x);
        assert(in_range(m2, x) == (in_range(m, x) || in_range(r, x)));
    }
}

/// Add `[min(first, last), max(first, last)]` to a canonical interval set,
/// keeping it canonical.
pub fn add_interval(ranges: &mut Vec<(u64, u64)>, first: u64, last: u64)
    requires
        ranges_wf(old(ranges)@),
    ensures
        ranges_wf(final(ranges)@),
        forall|x: int|
            covered(final(ranges)@, x) == (covered(old(ranges)@, x) || (if first <= last {
                first <= x <= last
            } else {
                last <= x <= first
            })),
{
    let ghost old_s = ranges@;
    let lo = if first <= last { first } else { last };
    let hi = if first <= last { last } else { first };
    let mut merged: (u64, u64) = (lo, hi);
    let mut out: Vec<(u64, u64)> = Vec::new();
    let ghost mut pushed_new = false;
    let n = ranges.len();
    let mut i: usize = 0;
    proof {
        assert(old_s.take(0) =~= Seq::<(u64, u64)>::empty());
        assert forall|x: int|
            #![trigger covered(old_s.take(0), x)]
            (covered(out@, x) || in_range(merged, x)) == (covered(old_s.take(0), x) || lo <= x
                <= hi) by {
            if covered(out@, x) {
                let k = choose|k: int| 0 <= k < out@.len() && in_range(#[trigger] out@[k], x);
            }
            if covered(old_s.take(0), x) {
                let k = choose|k: int| 0 <= k < old_s.take(0).len() && in_range(#[trigger] old_s.take(0)[k], x);
            }
        }
    }
    while i < n
        invariant
            n == old_s.len(),
            ranges@ == old_s,
            ranges_wf(old_s),
            0 <= i <= n,
            lo <= hi,
            merged.0 <= merged.1,
            ranges_wf(out@),
            forall|k: int| 0 <= k < out@.len() ==> (#[trigger] out@[k]).1 + 1 < merged.0,
            forall|k: int, j: int|
                0 <= k < out@.len() && i <= j < n ==> (#[trigger] out@[k]).1 + 1 < (#[trigger] old_s[j]).0,
            pushed_new ==> i >= 1 && merged == old_s[i - 1],
            !pushed_new ==> merged.0 <= lo && hi <= merged.1,
            step_covers(out@, merged, old_s.take(i as int), lo, hi),
        decreases n - i,
    {
        let (start, end) = ranges[i];
        let ghost out_before = out@;
        let ghost merged_before = merged;
        proof {
            assert(old_s.take(i + 1) == old_s.take(i as int).push(old_s[i as int]));
            assert(old_s[i as int] == (start, end));
        }
        if end.saturating_add(1) < merged.0 {
            out.push((start, end));
            proof {
                lemma_step_emit_old(out_before, merged, old_s.take(i as int), (start, end), lo, hi);
            }
        } else if merged.1.saturating_add(1) < start {
            out.push(merged);
            merged = (start, end);
            proof {
                pushed_new = true;
                lemma_step_emit_open(out_before, merged_before, old_s.take(i as int), (start, end), lo, hi);
            }
        } else {
            let m0 = if merged.0 <= start { merged.0 } else { start };
            let m1 = if merged.1 >= end { merged.1 } else { end };
            merged = (m0, m1);
            proof {
                lemma_step_absorb(out_before, merged_before, old_s.take(i as int), (start, end), lo, hi);
            }
        }
        i = i + 1;
    }
    let ghost out_before = out@;
    out.push(merged);
    proof {
        assert(old_s.take(n as int) == old_s);
        assert forall|x: int|
            #![trigger covered(out@, x)]
            covered(out@, x) == (covered(old_s, x) || lo <= x <= hi) by {
            lemma_covered_push(out_before, merged, x);
            assert(covered(old_s.take(n as int), x) == covered(old_s, x));
        }
    }
    *ranges = out;
}


/// The bookkeeping of one removal step: `out` covers the prefix of the old
/// intervals minus the removed one.
pub open spec fn cut_covers(out: Seq<(u64, u64)>, prefix: Seq<(u64, u64)>, lo: u64, hi: u64) -> bool {
    forall|x: int|
        #![trigger covered(prefix, x)]
        covered(out, x) == (covered(prefix, x) && !(lo <= x <= hi))
}

/// Remove `[min(first, last), max(first, last)]` from a canonical interval
/// set, keeping it canonical.
pub fn remove_interval(ranges: &mut Vec<(u64, u64)>, first: u64, last: u64)
    requires
        ranges_wf(old(ranges)@),
    ensures
        ranges_wf(final(ranges)@),
        forall|x: int|
            covered(final(ranges)@, x) == (covered(old(ranges)@, x) && !(if first <= last {
                first <= x <= last
            } else {
                last <= x <= first
            })),
{
    let ghost old_s = ranges@;
    let lo = if first <= last { first } else { last };
    let hi = if first <= last { last } else { first };
    let mut out: Vec<(u64, u64)> = Vec::new();
    let n = ranges.len();
    let mut i: usize = 0;
    proof {
        assert(old_s.take(0) =~= Seq::<(u64, u64)>::empty());
        assert forall|x: int|
            #![trigger covered(old_s.take(0), x)]
            covered(out@, x) == (covered(old_s.take(0), x) && !(lo <= x <= hi)) by {
            if covered(out@, x) {
                let k = choose|k: int| 0 <= k < out@.len() && in_range(#[trigger] out@[k], x);
            }
            if covered(old_s.take(0), x) {
                let k = choose|k: int| 0 <= k < old_s.take(0).len() && in_range(#[trigger] old_s.take(0)[k], x);
            }
        }
    }
    while i < n
        invariant
            n == old_s.len(),
            ranges@ == old_s,
            ranges_wf(old_s),
            0 <= i <= n,
            lo <= hi,
            ranges_wf(out@),
            forall|k: int, j: int|
                0 <= k < out@.len() && i <= j < n ==> (#[trigger] out@[k]).1 + 1 < (#[trigger] old_s[j]).0,
            cut_covers(out@, old_s.take(i as int), lo, hi),
        decreases n - i,
    {
        let (start, end) = ranges[i];
        let ghost out_before = out@;
        proof {
            assert(old_s.take(i + 1) == old_s.take(i as int).push(old_s[i as int]));
            assert(old_s[i as int] == (start, end));
        }
        if end < lo || start > hi {
            out.push((start, end));
        } else {
            if start < lo {
                out.push((start, lo - 1));
            }
            if end > hi {
                out.push((hi + 1, end));
            }
        }
        proof {
            let prefix = old_s.take(i as int);
            let r = (start, end);
            assert forall|x: int|
                #![trigger covered(prefix.push(r), x)]
                covered(out@, x) == (covered(prefix.push(r), x) && !(lo <= x <= hi)) by {
                lemma_covered_push(prefix, r, x);
                if end < lo || start > hi {
                    lemma_covered_push(out_before, r, x);
                } else if start < lo && end > hi {
                    lemma_covered_push(out_before, (start, (lo - 1) as u64), x);
                    lemma_covered_push(out_before.push((start, (lo - 1) as u64)), ((hi + 1) as u64, end), x);
                } else if start < lo {
                    lemma_covered_push(out_before, (start, (lo - 1) as u64), x);
                } else if end > hi {
                    lemma_covered_push(out_before, ((hi + 1) as u64, end), x);
                }
            }
            assert(prefix.push(r) == old_s.take(i + 1));
            assert(cut_covers(out@, old_s.take(i + 1), lo, hi));
            assert forall|k: int, j: int|
                0 <= k < out@.len() && i + 1 <= j < n implies (#[trigger] out@[k]).1 + 1 < (
                #[trigger] old_s[j]).0 by {
                if k >= out_before.len() {
                    assert(old_s[i as int].1 + 1 < old_s[j].0);
                } else {
                    assert(out@[k] == out_before[k]);
                }
            }
        }
        i = i + 1;
    }
    proof {
        assert(old_s.take(n as int) == old_s);
        assert forall|x: int|
            #![trigger covered(out@, x)]
            covered(out@, x) == (covered(old_s, x) && !(lo <= x <= hi)) by {
            assert(covered(old_s.take(n as int), x) == covered(old_s, x));
        }
    }
    *ranges = out;
}


/// The saturated length of one interval, as the selection count takes it.
pub open spec fn sat_len(r: (u64, u64)) -> int {
    let d: int = if r.1 >= r.0 { r.1 - r.0 } else { 0 };
    if d + 1 > u64::MAX { u64::MAX as int } else { d + 1 }
}

/// The sum of the saturated interval lengths.
pub open spec fn sum_len(s: Seq<(u64, u64)>) -> int
    decreases s.len(),
{
    if s.len() == 0 {
        0
    } else {
        sum_len(s.drop_last()) + sat_len(s.last())
    }
}

/// A canonical interval set holds no more indices than its span, minus
/// the gaps between its intervals.
proof fn lemma_sum_len_bound(s: Seq<(u64, u64)>)
    requires
        ranges_wf(s),
        s.len() >= 1,
    ensures
        sum_len(s) <= s.last().1 - s[0].0 + 2 - s.len(),
        sum_len(s) <= u64::MAX,
    decreases s.len(),
{
    if s.len() > 1 {
        let t = s.drop_last();
        assert(ranges_wf(t)) by {
            assert forall|k: int| 0 <= k < t.len() implies (#[trigger] t[k]).0 <= t[k].1 by {
                assert(t[k] == s[k]);
            }
            assert forall|j: int, k: int| 0 <= j < k < t.len() implies (#[trigger] t[j]).1 + 1 < (
            #[trigger] t[k]).0 by {
                assert(t[j] == s[j] && t[k] == s[k]);
            }
        }
        lemma_sum_len_bound(t);
        assert(t.last() == s[s.len() - 2]);
        assert(t[0] == s[0]);
        assert(s[s.len() - 2].1 + 1 < s.last().0);
        assert(s[0].0 <= s[0].1);
    } else {
        assert(s.drop_last().len() == 0);
        assert(sum_len(s.drop_last()) == 0);
        assert(s.last() == s[0]);
    }
}

/// A prefix of a canonical interval set is canonical.
proof fn lemma_take_wf(s: Seq<(u64, u64)>, n: int)
    requires
        ranges_wf(s),
        0 <= n <= s.len(),
    ensures
        ranges_wf(s.take(n)),
{
    let t = s.take(n);
    assert forall|k: int| 0 <= k < t.len() implies (#[trigger] t[k]).0 <= t[k].1 by {
        assert(t[k] == s[k]);
    }
    assert forall|j: int, k: int| 0 <= j < k < t.len() implies (#[trigger] t[j]).1 + 1 < (
    #[trigger] t[k]).0 by {
        assert(t[j] == s[j] && t[k] == s[k]);
    }
}

/// A selection over the rows of a query: either an explicit set of row
/// intervals, or "everything" minus a set of excluded intervals, plus the
/// anchor of the last plain click (for shift-click ranges).
#[derive(Debug, PartialEq, Eq)]
pub struct QuerySelection {
    pub all: bool,
    pub ranges: Vec<(u64, u64)>,
    pub anchor: Option<u64>,
}

impl QuerySelection {
    /// The interval list is canonical.
    pub open spec fn wf(&self) -> bool {
        ranges_wf(self.ranges@)
    }

    /// Row `x` is selected.
    pub open spec fn selected(&self, x: int) -> bool {
        if self.all { !covered(self.ranges@, x) } else { covered(self.ranges@, x) }
    }

    /// The number of selected rows as `count` reports it over `total` rows.
    pub open spec fn spec_count(&self, total: u64) -> int {
        let sum = sum_len(self.ranges@);
        if self.all {
            if total >= sum { total - sum } else { 0 }
        } else {
            if sum <= total { sum } else { total as int }
        }
    }

    /// Is row `index` selected?
    pub fn contains(&self, index: u64) -> (b: bool)
        ensures
            b == self.selected(index as int),
    {
        let mut inside = false;
        let mut i: usize = 0;
        while i < self.ranges.len()
            invariant
                0 <= i <= self.ranges@.len(),
                inside == (exists|k: int| 0 <= k < i && in_range(#[trigger] self.ranges@[k], index as int)),
            decreases self.ranges@.len() - i,
        {
            let (first, last) = self.ranges[i];
            if first <= index && index <= last {
                inside = true;
            }
            i = i + 1;
        }
        if self.all {
            !inside
        } else {
            inside
        }
    }

    /// How many of `total` rows are selected.
    pub fn count(&self, total: u64) -> (c: u64)
        requires
            self.wf(),
        ensures
            c == self.spec_count(total),
    {
        let mut sum: u64 = 0;
        let mut i: usize = 0;
        while i < self.ranges.len()
            invariant
                0 <= i <= self.ranges@.len(),
                ranges_wf(self.ranges@),
                sum == sum_len(self.ranges@.take(i as int)),
            decreases self.ranges@.len() - i,
        {
            let (first, last) = self.ranges[i];
            let ghost t = self.ranges@.take(i + 1);
            proof {
                assert(t.drop_last() == self.ranges@.take(i as int));
                assert(t.last() == (first, last));
                lemma_take_wf(self.ranges@, i + 1);
                lemma_sum_len_bound(t);
            }
            sum = sum + last.saturating_sub(first).saturating_add(1);
            i = i + 1;
        }
        proof {
            assert(self.ranges@.take(self.ranges@.len() as int) == self.ranges@);
        }
        if self.all {
            total.saturating_sub(sum)
        } else {
            if sum <= total { sum } else { total }
        }
    }

    /// A click on row `index`. A shift-click with an anchor selects the
    /// whole range between them and keeps the anchor; any other click flips
    /// the row and makes it the anchor.
    pub fn toggle(&mut self, index: u64, shift: bool)
        requires
            old(self).wf(),
        ensures
            final(self).wf(),
            final(self).all == old(self).all,
            shift && old(self).anchor is Some ==> {
                let a = old(self).anchor->0;
                &&& final(self).anchor == old(self).anchor
                &&& forall|x: int|
                    #[trigger] final(self).selected(x) == (if (a <= x <= index) || (index <= x <= a) {
                        true
                    } else {
                        old(self).selected(x)
                    })
            },
            !(shift && old(self).anchor is Some) ==> {
                &&& final(self).anchor == Some(index)
                &&& forall|x: int|
                    #[trigger] final(self).selected(x) == (if x == index {
                        !old(self).selected(x)
                    } else {
                        old(self).selected(x)
                    })
            },
    {
        if shift {
            if let Some(anchor) = self.anchor {
                let (first, last) = if anchor <= index { (anchor, index) } else { (index, anchor) };
                if self.all {
                    remove_interval(&mut self.ranges, first, last);
                } else {
                    add_interval(&mut self.ranges, first, last);
                }
                return;
            }
        }
        if self.contains(index) {
            if self.all {
                add_interval(&mut self.ranges, index, index);
            } else {
                remove_interval(&mut self.ranges, index, index);
            }
        } else if self.all {
            remove_interval(&mut self.ranges, index, index);
        } else {
            add_interval(&mut self.ranges, index, index);
        }
        self.anchor = Some(index);
    }

    /// Select every row: no exclusions and no anchor.
    pub fn select_all(&mut self)
        ensures
            final(self).wf(),
            final(self).all,
            final(self).ranges@.len() == 0,
            final(self).anchor is None,
            forall|x: int| #[trigger] final(self).selected(x),
    {
        self.all = true;
        self.ranges.clear();
        self.anchor = None;
    }
}

impl Default for QuerySelection {
    fn default() -> (s: Self)
        ensures
            !s.all,
            s.ranges@.len() == 0,
            s.anchor is None,
            s.wf(),
            forall|x: int| !(#[trigger] s.selected(x)),
    {
        QuerySelection { all: false, ranges: Vec::new(), anchor: None }
    }
}

} // verus!
