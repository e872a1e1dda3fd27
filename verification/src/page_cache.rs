use vstd::prelude::*;
use std::collections::HashMap;
use std::collections::VecDeque;

verus! {

/// Resident rows a page cache may hold before it evicts (albums, artists or
/// an artist's albums — all three caches use the same bound).
pub const MAX_RESIDENT_ROWS: usize = 2000;

/// One cached page of a native list model: its wire payload and the number
/// of rows it carries.
pub struct CachedPage<W> {
    pub wire: W,
    pub rows: usize,
}

/// The pages other than `page`.
pub open spec fn other_than(page: usize) -> spec_fn(usize) -> bool {
    |p: usize| p != page
}

/// The recency list with `page` moved to the most recent end.
pub open spec fn touched(order: Seq<usize>, page: usize) -> Seq<usize> {
    order.filter(other_than(page)).push(page)
}

/// Filtering one page out of a duplicate-free list keeps it duplicate-free,
/// keeps every other page, and shortens it by one exactly when the page was
/// there.
pub proof fn lemma_filter_other_than(s: Seq<usize>, page: usize)
    requires
        s.no_duplicates(),
    ensures
        s.filter(other_than(page)).no_duplicates(),
        forall|x: usize| #[trigger] s.filter(other_than(page)).contains(x) <==> (s.contains(x) && x != page),
        s.filter(other_than(page)).len() == if s.contains(page) { s.len() - 1 } else { s.len() as int },
    decreases s.len(),
{
    let f = other_than(page);
    if s.len() == 0 {
        assert(s.filter(f) =~= Seq::<usize>::empty()) by {
            reveal(Seq::filter);
        }
    } else {
        let t = s.drop_last();
        let e = s.last();
        assert(t.push(e) == s);
        assert(t.no_duplicates()) by {
            assert forall|i: int, j: int| 0 <= i < t.len() && 0 <= j < t.len() && i != j implies t[i] != t[j] by {
                assert(t[i] == s[i] && t[j] == s[j]);
            }
        }
        lemma_filter_other_than(t, page);
        t.lemma_filter_push(e, f);
        assert(!t.contains(e)) by {
            if t.contains(e) {
                let k = choose|k: int| 0 <= k < t.len() && t[k] == e;
                assert(s[k] == s[s.len() - 1]);
            }
        }
        assert forall|x: usize| s.contains(x) <==> (t.contains(x) || x == e) by {
            if s.contains(x) {
                let k = choose|k: int| 0 <= k < s.len() && s[k] == x;
                if k < t.len() {
                    assert(t[k] == x);
                }
            }
            if t.contains(x) {
                let k = choose|k: int| 0 <= k < t.len() && t[k] == x;
                assert(s[k] == x);
            }
            if x == e {
                assert(s[s.len() - 1] == x);
            }
        }
        if e != page {
            let ft = t.filter(f);
            assert(!ft.contains(e));
            assert(ft.push(e).no_duplicates()) by {
                assert forall|i: int, j: int| 0 <= i < ft.push(e).len() && 0 <= j < ft.push(e).len() && i != j implies ft.push(e)[i] != ft.push(e)[j] by {
                    if i < ft.len() && j < ft.len() {
                        assert(ft.push(e)[i] == ft[i] && ft.push(e)[j] == ft[j]);
                    } else if i < ft.len() {
                        assert(ft.push(e)[i] == ft[i]);
                        assert(ft.contains(ft[i]));
                    } else if j < ft.len() {
                        assert(ft.push(e)[j] == ft[j]);
                        assert(ft.contains(ft[j]));
                    }
                }
            }
            assert forall|x: usize| #[trigger] ft.push(e).contains(x) <==> (ft.contains(x) || x == e) by {
                if ft.push(e).contains(x) {
                    let k = choose|k: int| 0 <= k < ft.push(e).len() && ft.push(e)[k] == x;
                    if k < ft.len() {
                        assert(ft[k] == x);
                    }
                }
                if ft.contains(x) {
                    let k = choose|k: int| 0 <= k < ft.len() && ft[k] == x;
                    assert(ft.push(e)[k] == x);
                }
                if x == e {
                    assert(ft.push(e)[ft.len() as int] == x);
                }
            }
        }
    }
}

/// Moving a page to the recent end keeps the recency list duplicate-free,
/// makes the page its last element and adds it to the listed pages.
pub proof fn lemma_touched(order: Seq<usize>, page: usize)
    requires
        order.no_duplicates(),
    ensures
        touched(order, page).no_duplicates(),
        touched(order, page).last() == page,
        touched(order, page).to_set() == order.to_set().insert(page),
        touched(order, page).len() == if order.contains(page) {
            order.len() as int
        } else {
            order.len() + 1int
        },
{
    lemma_filter_other_than(order, page);
    let ft = order.filter(other_than(page));
    let t = ft.push(page);
    assert(!ft.contains(page));
    assert(t.no_duplicates()) by {
        assert forall|i: int, j: int| 0 <= i < t.len() && 0 <= j < t.len() && i != j implies t[i] != t[j] by {
            if i < ft.len() && j < ft.len() {
                assert(t[i] == ft[i] && t[j] == ft[j]);
            } else if i < ft.len() {
                assert(t[i] == ft[i]);
                assert(ft.contains(ft[i]));
            } else if j < ft.len() {
                assert(t[j] == ft[j]);
                assert(ft.contains(ft[j]));
            }
        }
    }
    assert(t.to_set() =~= order.to_set().insert(page)) by {
        assert forall|x: usize| t.contains(x) <==> (order.contains(x) || x == page) by {
            if t.contains(x) {
                let k = choose|k: int| 0 <= k < t.len() && t[k] == x;
                if k < ft.len() {
                    assert(ft[k] == x);
                    assert(ft.contains(x));
                }
            }
            if order.contains(x) && x != page {
                assert(ft.contains(x));
                let k = choose|k: int| 0 <= k < ft.len() && ft[k] == x;
                assert(t[k] == x);
            }
            if x == page {
                assert(t[ft.len() as int] == x);
            }
        }
    }
}


/// Sum of the rows of the pages listed in `order`, as `m` stores them.
pub open spec fn total_by<W>(order: Seq<usize>, m: Map<usize, CachedPage<W>>) -> int
    decreases order.len(),
{
    if order.len() == 0 {
        0
    } else {
        total_by(order.drop_last(), m) + m[order.last()].rows
    }
}

proof fn lemma_total_by_nonneg<W>(order: Seq<usize>, m: Map<usize, CachedPage<W>>)
    ensures
        total_by(order, m) >= 0,
    decreases order.len(),
{
    if order.len() > 0 {
        lemma_total_by_nonneg(order.drop_last(), m);
    }
}

/// The total only reads the listed pages.
proof fn lemma_total_by_agree<W>(order: Seq<usize>, m1: Map<usize, CachedPage<W>>, m2: Map<usize, CachedPage<W>>)
    requires
        forall|k: int| 0 <= k < order.len() ==> m1[#[trigger] order[k]] == m2[order[k]],
    ensures
        total_by(order, m1) == total_by(order, m2),
    decreases order.len(),
{
    if order.len() > 0 {
        let t = order.drop_last();
        assert forall|k: int| 0 <= k < t.len() implies m1[#[trigger] t[k]] == m2[t[k]] by {
            assert(t[k] == order[k]);
        }
        lemma_total_by_agree(t, m1, m2);
        assert(m1[order[order.len() - 1]] == m2[order[order.len() - 1]]);
    }
}

proof fn lemma_total_by_concat<W>(a: Seq<usize>, b: Seq<usize>, m: Map<usize, CachedPage<W>>)
    ensures
        total_by(a + b, m) == total_by(a, m) + total_by(b, m),
    decreases b.len(),
{
    if b.len() == 0 {
        assert(a + b =~= a);
    } else {
        lemma_total_by_concat(a, b.drop_last(), m);
        assert((a + b).drop_last() =~= a + b.drop_last());
        assert((a + b).last() == b.last());
    }
}

/// Filtering a page out of a duplicate-free list takes its rows off the
/// total.
proof fn lemma_total_by_filter<W>(order: Seq<usize>, page: usize, m: Map<usize, CachedPage<W>>)
    requires
        order.no_duplicates(),
    ensures
        total_by(order.filter(other_than(page)), m) == total_by(order, m) - if order.contains(page) {
            m[page].rows as int
        } else {
            0int
        },
    decreases order.len(),
{
    let f = other_than(page);
    if order.len() == 0 {
        assert(order.filter(f) =~= Seq::<usize>::empty()) by {
            reveal(Seq::filter);
        }
    } else {
        let t = order.drop_last();
        let e = order.last();
        assert(t.push(e) == order);
        assert(t.no_duplicates()) by {
            assert forall|i: int, j: int| 0 <= i < t.len() && 0 <= j < t.len() && i != j implies t[i] != t[j] by {
                assert(t[i] == order[i] && t[j] == order[j]);
            }
        }
        lemma_total_by_filter(t, page, m);
        t.lemma_filter_push(e, f);
        assert(order.contains(page) <==> (t.contains(page) || e == page)) by {
            if order.contains(page) {
                let k = choose|k: int| 0 <= k < order.len() && order[k] == page;
                if k < t.len() {
                    assert(t[k] == page);
                }
            }
            if t.contains(page) {
                let k = choose|k: int| 0 <= k < t.len() && t[k] == page;
                assert(order[k] == page);
            }
        }
        if e == page {
            assert(!t.contains(page)) by {
                if t.contains(page) {
                    let k = choose|k: int| 0 <= k < t.len() && t[k] == page;
                    assert(order[k] == order[order.len() - 1]);
                }
            }
        } else {
            let ft = t.filter(f);
            assert(ft.push(e).drop_last() =~= ft);
        }
    }
}

/// A bounded least-recently-used cache of list pages: the pages by number,
/// and the recency list from the least to the most recently used page.
pub struct PageLru<W> {
    pub entries: HashMap<usize, CachedPage<W>>,
    pub order: VecDeque<usize>,
    pub resident: usize,
    pub evictions: u64,
}

impl<W> PageLru<W> {
    /// The recency list names exactly the stored pages, once each, and
    /// `resident` is their row total.
    pub open spec fn wf(&self) -> bool {
        &&& self.order@.no_duplicates()
        &&& self.order@.to_set() == self.entries@.dom()
        &&& self.resident == total_by(self.order@, self.entries@)
    }

    /// The cached page for `page`, if any.
    pub open spec fn lookup(&self, page: usize) -> Option<CachedPage<W>> {
        if self.entries@.contains_key(page) {
            Some(self.entries@[page])
        } else {
            None
        }
    }

    pub fn new() -> (c: Self)
        ensures
            c.wf(),
            c.entries@.len() == 0,
            c.order@ == Seq::<usize>::empty(),
            c.resident == 0,
            c.evictions == 0,
    {
        let c = PageLru { entries: HashMap::new(), order: VecDeque::new(), resident: 0, evictions: 0 };
        proof {
            assert(c.order@.to_set() =~= Set::<usize>::empty());
            assert(c.entries@.dom() =~= Set::<usize>::empty());
        }
        c
    }

    /// Move `page` to the most recent end of the recency list.
    pub fn touch(&mut self, page: usize)
        ensures
            final(self).order@ == touched(old(self).order@, page),
            final(self).entries@ == old(self).entries@,
            final(self).resident == old(self).resident,
            final(self).evictions == old(self).evictions,
    {
        let mut kept: VecDeque<usize> = VecDeque::new();
        let mut i: usize = 0;
        while i < self.order.len()
            invariant
                0 <= i <= self.order@.len(),
                kept@ == self.order@.take(i as int).filter(other_than(page)),
            decreases self.order@.len() - i,
        {
            let p = self.order[i];
            proof {
                let f = other_than(page);
                assert(self.order@.take(i + 1).drop_last() == self.order@.take(i as int));
                self.order@.take(i as int).lemma_filter_push(p, f);
                assert(self.order@.take(i as int).push(p) == self.order@.take(i + 1));
            }
            if p != page {
                kept.push_back(p);
            }
            i = i + 1;
        }
        proof {
            assert(self.order@.take(i as int) == self.order@);
        }
        kept.push_back(page);
        self.order = kept;
    }

    /// A cached page, marked most recently used when present.
    pub fn get(&mut self, page: usize) -> (r: Option<&CachedPage<W>>)
        requires
            old(self).wf(),
        ensures
            final(self).wf(),
            final(self).entries@ == old(self).entries@,
            final(self).resident == old(self).resident,
            final(self).evictions == old(self).evictions,
            r is Some <==> old(self).lookup(page) is Some,
            r matches Some(c) ==> old(self).lookup(page) == Some(*c),
            final(self).order@ == if old(self).lookup(page) is Some {
                touched(old(self).order@, page)
            } else {
                old(self).order@
            },
    {
        broadcast use vstd::std_specs::hash::group_hash_axioms;

        if !self.entries.contains_key(&page) {
            return None;
        }
        proof {
            lemma_touched(self.order@, page);
            assert(self.order@.to_set().contains(page));
            assert(self.order@.contains(page));
            assert(self.order@.to_set().insert(page) =~= self.order@.to_set());
            lemma_total_by_filter(self.order@, page, self.entries@);
            let ft = self.order@.filter(other_than(page));
            assert(ft.push(page).drop_last() =~= ft);
        }
        self.touch(page);
        self.entries.get(&page)
    }

    /// Cache a page (replacing an older copy), mark it most recently used,
    /// then evict least recently used pages while the resident rows exceed
    /// the bound and more than one page is cached.
    pub fn insert(&mut self, page: usize, value: CachedPage<W>)
        requires
            old(self).wf(),
            old(self).resident - (if old(self).lookup(page) is Some {
                old(self).lookup(page)->0.rows as int
            } else {
                0
            }) + value.rows <= usize::MAX,
            old(self).evictions + old(self).entries@.len() <= u64::MAX,
        ensures
            final(self).wf(),
            final(self).lookup(page) == Some(value),
            final(self).resident <= MAX_RESIDENT_ROWS || final(self).entries@.len() == 1,
            forall|p: usize|
                p != page && (#[trigger] final(self).lookup(p)) is Some ==> final(self).lookup(p)
                    == old(self).lookup(p),
            exists|k: int|
                0 <= k <= touched(old(self).order@, page).len() && final(self).order@ == touched(
                    old(self).order@,
                    page,
                ).skip(k) && final(self).evictions == old(self).evictions + k,
    {
        broadcast use vstd::std_specs::hash::group_hash_axioms;

        let ghost m0 = self.entries@;
        let ghost o0 = self.order@;
        let ghost ev0 = self.evictions;
        let ghost f = other_than(page);
        proof {
            lemma_total_by_filter(o0, page, m0);
            lemma_total_by_nonneg(o0.filter(f), m0);
            lemma_touched(o0, page);
            assert(o0.contains(page) <==> m0.contains_key(page)) by {
                if o0.contains(page) {
                    assert(o0.to_set().contains(page));
                }
                if m0.contains_key(page) {
                    assert(o0.to_set().contains(page));
                }
            }
            o0.unique_seq_to_set();
        }
        let rows = value.rows;
        let previous = self.entries.insert(page, value);
        match previous {
            Some(p) => {
                self.resident = self.resident - p.rows;
            },
            None => {},
        }
        self.resident = self.resident + rows;
        self.touch(page);
        let ghost t = touched(o0, page);
        proof {
            let m1 = self.entries@;
            let ft = o0.filter(f);
            lemma_filter_other_than(o0, page);
            assert forall|k: int| 0 <= k < ft.len() implies m1[#[trigger] ft[k]] == m0[ft[k]] by {
                assert(ft.contains(ft[k]));
            }
            lemma_total_by_agree(ft, m1, m0);
            assert(t.drop_last() =~= ft);
            assert(self.order@.to_set() =~= m1.dom());
            assert(self.resident == total_by(self.order@, self.entries@));
            assert(t.skip(0) == t);
            assert forall|p: usize| p != page && #[trigger] self.entries@.contains_key(p) implies m0.contains_key(p)
                && self.entries@[p] == m0[p] by {}
            assert(t.len() <= m0.len() + 1) by {
                assert(o0.len() == m0.dom().len());
            }
        }
        let ghost mut k: int = 0;
        while self.resident > MAX_RESIDENT_ROWS && self.entries.len() > 1
            invariant
                self.wf(),
                self.lookup(page) == Some(value),
                self.order@.len() >= 1,
                self.order@.last() == page,
                forall|p: usize|
                    p != page && #[trigger] self.entries@.contains_key(p) ==> m0.contains_key(p)
                        && self.entries@[p] == m0[p],
                0 <= k <= t.len(),
                self.order@ == t.skip(k),
                self.evictions == ev0 + k,
                t.len() <= m0.len() + 1,
                ev0 + m0.len() <= u64::MAX,
            decreases self.order@.len(),
        {
            let ghost o1 = self.order@;
            let ghost m1 = self.entries@;
            proof {
                o1.unique_seq_to_set();
                assert(o1.len() >= 2);
                assert(o1[0] != page) by {
                    assert(o1[o1.len() - 1] == page);
                }
                assert(o1.to_set().contains(o1[0]));
            }
            let popped = self.order.pop_front();
            let oldest = match popped {
                Some(x) => x,
                None => {
                    proof {
                        assert(false);
                    }
                    0
                },
            };
            proof {
                assert(oldest == o1[0]);
                assert(m1.contains_key(oldest));
            }
            match self.entries.remove(&oldest) {
                Some(removed) => {
                    proof {
                        assert(removed == m1[oldest]);
                        assert(self.entries@ == m1.remove(oldest));
                        assert(self.order@ == o1.subrange(1, o1.len() as int));
                        assert(o1.take(1).drop_last() =~= Seq::<usize>::empty());
                        assert(o1.take(1).last() == oldest);
                        assert(total_by(Seq::<usize>::empty(), m1) == 0);
                        assert(total_by(o1.take(1), m1) == total_by(o1.take(1).drop_last(), m1) + m1[oldest].rows);
                        assert(total_by(o1.take(1), m1) == m1[oldest].rows);
                        let rest = o1.subrange(1, o1.len() as int);
                        assert(o1 =~= o1.take(1) + rest);
                        lemma_total_by_concat(o1.take(1), rest, m1);
                        assert(o1.take(1).drop_last() =~= Seq::<usize>::empty());
                        assert(!rest.contains(oldest)) by {
                            if rest.contains(oldest) {
                                let j = choose|j: int| 0 <= j < rest.len() && rest[j] == oldest;
                                assert(o1[j + 1] == o1[0]);
                            }
                        }
                        assert forall|j: int| 0 <= j < rest.len() implies m1.remove(oldest)[#[trigger] rest[j]]
                            == m1[rest[j]] by {
                            assert(rest.contains(rest[j]));
                        }
                        lemma_total_by_agree(rest, m1.remove(oldest), m1);
                        lemma_total_by_nonneg(rest, m1);
                        assert(rest.no_duplicates()) by {
                            assert forall|a: int, b: int| 0 <= a < rest.len() && 0 <= b < rest.len() && a != b implies rest[a] != rest[b] by {
                                assert(rest[a] == o1[a + 1] && rest[b] == o1[b + 1]);
                            }
                        }
                        assert(rest.to_set() =~= m1.remove(oldest).dom()) by {
                            assert forall|x: usize| rest.contains(x) <==> (o1.contains(x) && x != oldest) by {
                                if rest.contains(x) {
                                    let j = choose|j: int| 0 <= j < rest.len() && rest[j] == x;
                                    assert(o1[j + 1] == x);
                                }
                                if o1.contains(x) && x != oldest {
                                    let j = choose|j: int| 0 <= j < o1.len() && o1[j] == x;
                                    assert(j != 0);
                                    assert(rest[j - 1] == x);
                                }
                            }
                            assert forall|x: usize| o1.contains(x) <==> m1.contains_key(x) by {
                                assert(o1.to_set().contains(x) <==> o1.contains(x));
                            }
                        }
                        assert(rest == t.skip(k + 1));
                        assert(rest.last() == page) by {
                            assert(rest[rest.len() - 1] == o1[o1.len() - 1]);
                        }
                    }
                    self.resident = self.resident - removed.rows;
                    self.evictions = self.evictions + 1;
                    proof {
                        k = k + 1;
                    }
                },
                None => {
                    proof {
                        assert(false);
                    }
                },
            }
        }
        proof {
            lemma_total_by_nonneg(self.order@, self.entries@);
            if self.entries@.len() <= 1 {
                assert(self.entries@.dom().contains(page));
                assert(self.entries@.dom().finite());
                vstd::set_lib::lemma_set_empty_equivalency_len(self.entries@.dom());
                assert(self.entries@.len() == 1);
            }
        }
    }
}

} // verus!
