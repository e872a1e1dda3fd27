//! The native paged lists over the catalog — the albums grid, the artists
//! list and an artist's albums. A list's stream is read page by page and cut
//! into entries: a header per group and a line per row of the grid. Where a
//! catalog page ends, the scan's state is kept as an anchor that a later
//! page load resumes from.
//!
//! The artists list is the same scan grouped by name one artist per line,
//! its groups keyed by the artist's initial; an artist's albums are the same
//! scan ungrouped.
use vstd::prelude::*;
use crate::page_cache::{CachedPage, PageLru};
use crate::local_names::{artist_initial, spec_artist_initial};
use crate::text::str_equals;

verus! {

/// How the albums grid is grouped.
#[derive(Clone, Copy, Debug, PartialEq, Eq, Structural)]
pub enum TrackGroup {
    Off,
    Name,
    Album,
    Artist,
}

/// An album of the query with its place in the query's order.
pub struct PendingRow<R> {
    pub index: usize,
    pub record: R,
}

/// One album row of a catalog page, as the scan reads it: the key of the
/// group it falls in, the label of that group, and the row itself.
pub struct StreamRow<R> {
    pub group_key: String,
    pub label: String,
    pub record: R,
}

/// One entry of the grid: a group header (with its label and the place of
/// the group's first album), or a line of albums (with the first one's
/// place).
pub struct WireEntry<R> {
    pub header: bool,
    pub label: String,
    pub base: usize,
    pub items: Vec<PendingRow<R>>,
}

/// A letter of the jump bar and the entry its group starts at.
pub struct Jump {
    pub letter: String,
    pub index: usize,
}

/// Where a scan of the album stream stands: the next entry's number, the
/// next album's place, the catalog cursor to read on from, the group being
/// filled, the albums of the line being filled, and whether the stream has
/// ended.
pub struct StreamAnchor<R, C> {
    pub entry_index: usize,
    pub flat_index: usize,
    pub cursor: Option<C>,
    pub previous_group: Option<String>,
    pub pending: Vec<PendingRow<R>>,
    pub done: bool,
}

/// The entries a scan hands out: those numbered `start..stop`, when it
/// collects at all.
#[derive(Clone, Copy, Debug, PartialEq, Eq, Structural)]
pub struct ScanWindow {
    pub start: usize,
    pub stop: usize,
    pub collect: bool,
}

/// What a scan produced: the entries in its window, the anchors it passed
/// and the jump bar letters it met.
pub struct ScanOutput<R, C> {
    pub wire: Vec<WireEntry<R>>,
    pub anchors: Vec<StreamAnchor<R, C>>,
    pub jumps: Vec<Jump>,
}

/// An artist of the artists list as the scan reads it: its
/// group is the initial of its catalog key, which is also its label.
pub fn artist_stream_row<R>(artist_key: &str, record: R) -> (r: StreamRow<R>)
    ensures
        r.group_key@ == spec_artist_initial(artist_key@),
        r.label@ == spec_artist_initial(artist_key@),
        r.record == record,
{
    let initial = artist_initial(artist_key);
    let label = initial.clone();
    StreamRow { group_key: initial, label, record }
}

// ---------------------------------------------------------------------------
// The model
// ---------------------------------------------------------------------------

/// An anchor as a value: entry number, album place, cursor, group, the line
/// being filled, and whether the stream ended.
pub type AnchorView<R, C> = (usize, usize, Option<C>, Option<Seq<char>>, Seq<PendingRow<R>>, bool);

/// An entry as a value: header or not, label, base place, albums.
pub type EntryView<R> = (bool, Seq<char>, usize, Seq<PendingRow<R>>);

/// A jump as a value: letter and entry number.
pub type JumpView = (Seq<char>, usize);

/// A stream row as a value: group key, label, row.
pub type RowView<R> = (Seq<char>, Seq<char>, R);

pub open spec fn group_view(o: Option<String>) -> Option<Seq<char>> {
    match o {
        Some(s) => Some(s@),
        None => None,
    }
}

pub open spec fn anchor_view<R, C>(a: StreamAnchor<R, C>) -> AnchorView<R, C> {
    (a.entry_index, a.flat_index, a.cursor, group_view(a.previous_group), a.pending@, a.done)
}

pub open spec fn entry_view<R>(e: WireEntry<R>) -> EntryView<R> {
    (e.header, e.label@, e.base, e.items@)
}

pub open spec fn wire_view<R>(s: Seq<WireEntry<R>>) -> Seq<EntryView<R>> {
    s.map_values(|e: WireEntry<R>| entry_view(e))
}

pub open spec fn jumps_view(s: Seq<Jump>) -> Seq<JumpView> {
    s.map_values(|j: Jump| (j.letter@, j.index))
}

pub open spec fn row_view<R>(r: StreamRow<R>) -> RowView<R> {
    (r.group_key@, r.label@, r.record)
}

pub open spec fn rows_view<R>(s: Seq<StreamRow<R>>) -> Seq<RowView<R>> {
    s.map_values(|r: StreamRow<R>| row_view(r))
}

/// A counter that stops at the largest `usize`.
pub open spec fn sat_inc(x: usize) -> usize {
    if x == usize::MAX {
        x
    } else {
        (x + 1) as usize
    }
}

pub open spec fn in_window(w: ScanWindow, entry: usize) -> bool {
    w.collect && w.start <= entry && entry < w.stop
}

/// A fresh scan, at the start of the stream.
pub open spec fn fresh_anchor<R, C>() -> AnchorView<R, C> {
    (0, 0, None, None, Seq::empty(), false)
}

/// Close the line of albums being filled, if it holds any: it becomes an
/// entry.
pub open spec fn flush_spec<R, C>(s: AnchorView<R, C>, w: ScanWindow) -> (AnchorView<R, C>, Seq<EntryView<R>>) {
    if s.4.len() == 0 {
        (s, Seq::empty())
    } else {
        let e = if in_window(w, s.0) {
            seq![(false, Seq::<char>::empty(), s.4[0].index, s.4)]
        } else {
            Seq::empty()
        };
        ((sat_inc(s.0), s.1, s.2, s.3, Seq::empty(), s.5), e)
    }
}

/// A group header entry.
pub open spec fn header_spec<R, C>(s: AnchorView<R, C>, label: Seq<char>, w: ScanWindow) -> (AnchorView<R, C>, Seq<EntryView<R>>) {
    let e = if in_window(w, s.0) {
        seq![(true, label, s.1, Seq::<PendingRow<R>>::empty())]
    } else {
        Seq::empty()
    };
    ((sat_inc(s.0), s.1, s.2, s.3, s.4, s.5), e)
}

/// A row whose group key differs from the group being filled opens a new
/// group, when the grid is grouped.
pub open spec fn starts_group<R, C>(s: AnchorView<R, C>, key: Seq<char>, group: TrackGroup) -> bool {
    group != TrackGroup::Off && s.3 != Some(key)
}

/// One album row: a new group closes the line being filled and gets a
/// header (and, grouped by name, a jump bar letter); then the album joins
/// the line, which closes once it holds `columns` albums.
pub open spec fn row_spec<R, C>(
    s: AnchorView<R, C>,
    r: RowView<R>,
    group: TrackGroup,
    columns: usize,
    w: ScanWindow,
) -> (AnchorView<R, C>, Seq<EntryView<R>>, Seq<JumpView>) {
    let (s1, e1, j1) = if starts_group(s, r.0, group) {
        let (a, ea) = flush_spec(s, w);
        let a2 = (a.0, a.1, a.2, Some(r.0), a.4, a.5);
        let j = if group == TrackGroup::Name {
            seq![(r.1, a2.0)]
        } else {
            Seq::empty()
        };
        let (b, eb) = header_spec(a2, r.1, w);
        (b, ea + eb, j)
    } else {
        (s, Seq::empty(), Seq::empty())
    };
    let s2 = (
        s1.0,
        sat_inc(s1.1),
        s1.2,
        s1.3,
        s1.4.push(PendingRow { index: s1.1, record: r.2 }),
        s1.5,
    );
    if s2.4.len() == columns {
        let (s3, e3) = flush_spec(s2, w);
        (s3, e1 + e3, j1)
    } else {
        (s2, e1, j1)
    }
}

/// A run of album rows, one after the other.
pub open spec fn rows_spec<R, C>(
    s: AnchorView<R, C>,
    rows: Seq<RowView<R>>,
    group: TrackGroup,
    columns: usize,
    w: ScanWindow,
) -> (AnchorView<R, C>, Seq<EntryView<R>>, Seq<JumpView>)
    decreases rows.len(),
{
    if rows.len() == 0 {
        (s, Seq::empty(), Seq::empty())
    } else {
        let (a, ea, ja) = rows_spec(s, rows.drop_last(), group, columns, w);
        let (b, eb, jb) = row_spec(a, rows.last(), group, columns, w);
        (b, ea + eb, ja + jb)
    }
}

/// The end of a catalog page: with a next cursor the scan keeps it (and is
/// kept as an anchor); at the end of the stream the last line closes and
/// the scan is done.
pub open spec fn page_end_spec<R, C>(s: AnchorView<R, C>, next: Option<C>, w: ScanWindow) -> (AnchorView<R, C>, Seq<EntryView<R>>) {
    match next {
        Some(c) => ((s.0, s.1, Some(c), s.3, s.4, s.5), Seq::empty()),
        None => {
            let (a, ea) = flush_spec(s, w);
            ((a.0, a.1, None, a.3, a.4, true), ea)
        },
    }
}

/// `a` is a copy of `s`: the same numbers, group and flags, and a clone of
/// its cursor and of each album of its line.
pub open spec fn snapshot_of<R: Clone, C: Clone>(a: AnchorView<R, C>, s: AnchorView<R, C>) -> bool {
    &&& a.0 == s.0
    &&& a.1 == s.1
    &&& a.3 == s.3
    &&& a.5 == s.5
    &&& match (a.2, s.2) {
        (Some(x), Some(y)) => cloned(y, x),
        (None, None) => true,
        _ => false,
    }
    &&& a.4.len() == s.4.len()
    &&& forall|i: int|
        0 <= i < s.4.len() ==> (#[trigger] a.4[i]).index == s.4[i].index && cloned(
            s.4[i].record,
            a.4[i].record,
        )
}

// ---------------------------------------------------------------------------
// The scan
// ---------------------------------------------------------------------------

impl<R: Clone, C: Clone> StreamAnchor<R, C> {
    /// A scan from the start of the stream.
    pub fn start() -> (a: Self)
        ensures
            anchor_view(a) == fresh_anchor::<R, C>(),
    {
        let a = StreamAnchor {
            entry_index: 0,
            flat_index: 0,
            cursor: None,
            previous_group: None,
            pending: Vec::new(),
            done: false,
        };
        assert(anchor_view(a).4 =~= Seq::<PendingRow<R>>::empty());
        a
    }

    /// Another catalog page is to be read: the stream has not ended and the
    /// entries before `stop` are not all known yet.
    pub fn wants_page(&self, stop: usize) -> (r: bool)
        ensures
            r == (self.entry_index < stop && !self.done),
    {
        self.entry_index < stop && !self.done
    }

    /// A copy of the scan, kept as an anchor.
    pub fn snapshot(&self) -> (a: Self)
        ensures
            snapshot_of(anchor_view(a), anchor_view(*self)),
    {
        let cursor = match &self.cursor {
            Some(c) => Some(c.clone()),
            None => None,
        };
        let previous_group = match &self.previous_group {
            Some(g) => Some(g.clone()),
            None => None,
        };
        let mut pending: Vec<PendingRow<R>> = Vec::new();
        let mut i: usize = 0;
        while i < self.pending.len()
            invariant
                0 <= i <= self.pending@.len(),
                pending@.len() == i,
                forall|k: int|
                    0 <= k < i ==> (#[trigger] pending@[k]).index == self.pending@[k].index
                        && cloned(self.pending@[k].record, pending@[k].record),
            decreases self.pending@.len() - i,
        {
            let r = self.pending[i].record.clone();
            pending.push(PendingRow { index: self.pending[i].index, record: r });
            i = i + 1;
        }
        StreamAnchor {
            entry_index: self.entry_index,
            flat_index: self.flat_index,
            cursor,
            previous_group,
            pending,
            done: self.done,
        }
    }

    fn flush(&mut self, w: &ScanWindow, wire: &mut Vec<WireEntry<R>>)
        ensures
            ({
                let (s, e) = flush_spec(anchor_view(*old(self)), *w);
                anchor_view(*final(self)) == s && wire_view(final(wire)@) == wire_view(old(wire)@)
                    + e
            }),
    {
        if self.pending.len() == 0 {
            assert(wire_view(wire@) =~= wire_view(wire@) + Seq::<EntryView<R>>::empty());
            return;
        }
        let mut items: Vec<PendingRow<R>> = Vec::new();
        std::mem::swap(&mut items, &mut self.pending);
        let e = self.entry_index;
        if w.collect && w.start <= e && e < w.stop {
            let base = items[0].index;
            wire.push(WireEntry { header: false, label: String::new(), base, items });
        }
        self.entry_index = self.entry_index.saturating_add(1);
        proof {
            assert(anchor_view(*self).4 =~= Seq::<PendingRow<R>>::empty());
            let (s, ex) = flush_spec(anchor_view(*old(self)), *w);
            assert(wire_view(wire@) =~= wire_view(old(wire)@) + ex);
        }
    }

    fn header(&mut self, label: String, w: &ScanWindow, wire: &mut Vec<WireEntry<R>>)
        ensures
            ({
                let (s, e) = header_spec(anchor_view(*old(self)), label@, *w);
                anchor_view(*final(self)) == s && wire_view(final(wire)@) == wire_view(old(wire)@)
                    + e
            }),
    {
        let e = self.entry_index;
        if w.collect && w.start <= e && e < w.stop {
            let entry = WireEntry { header: true, label, base: self.flat_index, items: Vec::new() };
            assert(entry_view(entry).3 =~= Seq::<PendingRow<R>>::empty());
            wire.push(entry);
        }
        self.entry_index = self.entry_index.saturating_add(1);
        proof {
            let (s, ex) = header_spec(anchor_view(*old(self)), label@, *w);
            assert(wire_view(wire@) =~= wire_view(old(wire)@) + ex);
        }
    }

    /// One album row of the stream.
    pub fn push_row(
        &mut self,
        row: StreamRow<R>,
        group: TrackGroup,
        columns: usize,
        w: &ScanWindow,
        out: &mut ScanOutput<R, C>,
    )
        ensures
            ({
                let (s, e, j) = row_spec(anchor_view(*old(self)), row_view(row), group, columns, *w);
                &&& anchor_view(*final(self)) == s
                &&& wire_view(final(out).wire@) == wire_view(old(out).wire@) + e
                &&& jumps_view(final(out).jumps@) == jumps_view(old(out).jumps@) + j
                &&& final(out).anchors@ == old(out).anchors@
            }),
    {
        let ghost s0 = anchor_view(*self);
        let ghost rv = row_view(row);
        let ghost wire0 = wire_view(out.wire@);
        let ghost jumps0 = jumps_view(out.jumps@);
        let StreamRow { group_key, label, record } = row;
        let starts = match group {
            TrackGroup::Off => false,
            _ => match &self.previous_group {
                Some(p) => !str_equals(p.as_str(), group_key.as_str()),
                None => true,
            },
        };
        assert(starts == starts_group(s0, rv.0, group));
        if starts {
            self.flush(w, &mut out.wire);
            self.previous_group = Some(group_key);
            let ghost a2 = anchor_view(*self);
            let ghost fl = flush_spec(s0, *w).0;
            assert(a2.0 == fl.0);
            if group == TrackGroup::Name {
                let letter = label.clone();
                out.jumps.push(Jump { letter, index: self.entry_index });
                assert(jumps_view(out.jumps@) =~= jumps0 + seq![(rv.1, a2.0)]);
            } else {
                assert(jumps_view(out.jumps@) =~= jumps0 + Seq::<JumpView>::empty());
            }
            self.header(label, w, &mut out.wire);
        } else {
            assert(jumps_view(out.jumps@) =~= jumps0 + Seq::<JumpView>::empty());
            assert(wire_view(out.wire@) =~= wire0 + Seq::<EntryView<R>>::empty());
        }
        let ghost s1 = anchor_view(*self);
        let ghost w1 = wire_view(out.wire@);
        let index = self.flat_index;
        self.flat_index = self.flat_index.saturating_add(1);
        self.pending.push(PendingRow { index, record });
        let ghost s2 = anchor_view(*self);
        assert(s2.4 == s1.4.push(PendingRow { index: s1.1, record: rv.2 }));
        if self.pending.len() == columns {
            self.flush(w, &mut out.wire);
        } else {
            assert(wire_view(out.wire@) =~= w1);
        }
        proof {
            let (t, e, j) = row_spec(s0, rv, group, columns, *w);
            assert(wire_view(out.wire@) =~= wire0 + e);
        }
    }
}

impl<R: Clone, C: Clone> StreamAnchor<R, C> {
    /// One catalog page: its rows in order, then its end. With a next cursor
    /// the scan keeps the cursor and a copy of the scan is kept as an
    /// anchor; at the end of the stream the last line closes and the scan is
    /// done.
    pub fn feed_page(
        &mut self,
        rows: Vec<StreamRow<R>>,
        next: Option<C>,
        group: TrackGroup,
        columns: usize,
        w: &ScanWindow,
        out: &mut ScanOutput<R, C>,
    )
        ensures
            ({
                let (a, ea, ja) = rows_spec(
                    anchor_view(*old(self)),
                    rows_view(rows@),
                    group,
                    columns,
                    *w,
                );
                let (b, eb) = page_end_spec(a, next, *w);
                &&& anchor_view(*final(self)) == b
                &&& wire_view(final(out).wire@) == wire_view(old(out).wire@) + ea + eb
                &&& jumps_view(final(out).jumps@) == jumps_view(old(out).jumps@) + ja
                &&& next is Some ==> final(out).anchors@.len() == old(out).anchors@.len() + 1
                    && final(out).anchors@.drop_last() == old(out).anchors@ && snapshot_of(
                    anchor_view(final(out).anchors@.last()),
                    b,
                )
                &&& next is None ==> final(out).anchors@ == old(out).anchors@
            }),
    {
        let ghost s0 = anchor_view(*self);
        let ghost all = rows_view(rows@);
        let ghost wire0 = wire_view(out.wire@);
        let ghost jumps0 = jumps_view(out.jumps@);
        let ghost anchors0 = out.anchors@;
        let mut rest = rows;
        let ghost mut done: int = 0;
        proof {
            assert(all.take(0) =~= Seq::<RowView<R>>::empty());
            assert(wire_view(out.wire@) =~= wire0 + Seq::<EntryView<R>>::empty());
            assert(jumps_view(out.jumps@) =~= jumps0 + Seq::<JumpView>::empty());
        }
        while rest.len() > 0
            invariant
                0 <= done <= all.len(),
                rows_view(rest@) == all.skip(done),
                ({
                    let (a, ea, ja) = rows_spec(s0, all.take(done), group, columns, *w);
                    &&& anchor_view(*self) == a
                    &&& wire_view(out.wire@) == wire0 + ea
                    &&& jumps_view(out.jumps@) == jumps0 + ja
                }),
                out.anchors@ == anchors0,
            decreases rest@.len(),
        {
            let ghost before = rest@;
            let row = rest.remove(0);
            proof {
                assert(before.len() > 0);
                assert(row == before[0]);
                assert(rest@ == before.remove(0));
                assert(rows_view(before)[0] == row_view(before[0]));
                assert(rows_view(before)[0] == all.skip(done)[0]);
                assert(rows_view(before).len() == before.len());
                assert(all.skip(done).len() == before.len());
                assert(done < all.len());
                assert(all.skip(done)[0] == all[done]);
                assert(row_view(row) == all[done]);
                assert(rows_view(rest@) =~= all.skip(done + 1)) by {
                    assert forall|k: int| 0 <= k < rest@.len() implies rows_view(rest@)[k] == all.skip(
                        done + 1,
                    )[k] by {
                        assert(rest@[k] == before[k + 1]);
                        assert(rows_view(before)[k + 1] == row_view(before[k + 1]));
                        assert(rows_view(rest@)[k] == row_view(rest@[k]));
                        assert(rows_view(before)[k + 1] == all.skip(done)[k + 1]);
                        assert(all.skip(done)[k + 1] == all[done + k + 1]);
                        assert(all.skip(done + 1)[k] == all[done + 1 + k]);
                    }
                }
                assert(all.take(done + 1).drop_last() =~= all.take(done));
                assert(all.take(done + 1).last() == all[done]);
            }
            self.push_row(row, group, columns, w, out);
            proof {
                let (a, ea, ja) = rows_spec(s0, all.take(done), group, columns, *w);
                let (b, eb, jb) = row_spec(a, all[done], group, columns, *w);
                assert(wire_view(out.wire@) =~= wire0 + (ea + eb));
                assert(jumps_view(out.jumps@) =~= jumps0 + (ja + jb));
                done = done + 1;
            }
        }
        proof {
            assert(rest@.len() == 0);
            assert(all.skip(done).len() == 0);
            assert(all.take(done) =~= all);
        }
        let ghost (a, ea, ja) = rows_spec(s0, all, group, columns, *w);
        match next {
            Some(c) => {
                self.cursor = Some(c);
                let snap = self.snapshot();
                out.anchors.push(snap);
                proof {
                    assert(out.anchors@.drop_last() =~= anchors0);
                    assert(wire_view(out.wire@) =~= wire0 + ea + Seq::<EntryView<R>>::empty());
                }
            },
            None => {
                self.flush(w, &mut out.wire);
                self.cursor = None;
                self.done = true;
                proof {
                    let (b, eb) = flush_spec(a, *w);
                    assert(wire_view(out.wire@) =~= wire0 + ea + eb);
                }
            },
        }
    }
}

// ---------------------------------------------------------------------------
// The anchors of a query, by entry number
// ---------------------------------------------------------------------------

/// Anchors are kept in strictly ascending entry order, one per entry.
pub open spec fn anchors_wf<R, C>(s: Seq<StreamAnchor<R, C>>) -> bool {
    forall|i: int, j: int| 0 <= i < j < s.len() ==> (#[trigger] s[i]).entry_index < (#[trigger] s[j]).entry_index
}

/// The anchor kept for entry `k`, if any.
pub open spec fn anchor_at<R, C>(s: Seq<StreamAnchor<R, C>>, k: usize) -> Option<StreamAnchor<R, C>>
    decreases s.len(),
{
    if s.len() == 0 {
        None
    } else if s.last().entry_index == k {
        Some(s.last())
    } else {
        anchor_at(s.drop_last(), k)
    }
}

proof fn lemma_anchor_at<R, C>(s: Seq<StreamAnchor<R, C>>, k: usize)
    requires
        anchors_wf(s),
    ensures
        anchor_at(s, k) is None <==> forall|i: int| 0 <= i < s.len() ==> (#[trigger] s[i]).entry_index != k,
        forall|i: int| 0 <= i < s.len() && (#[trigger] s[i]).entry_index == k ==> anchor_at(s, k) == Some(s[i]),
    decreases s.len(),
{
    if s.len() > 0 {
        let t = s.drop_last();
        assert forall|a: int, b: int| 0 <= a < b < t.len() implies (#[trigger] t[a]).entry_index < (
        #[trigger] t[b]).entry_index by {
            assert(t[a] == s[a] && t[b] == s[b]);
        }
        lemma_anchor_at(t, k);
        assert forall|i: int| 0 <= i < t.len() implies t[i] == s[i] by {}
        if s.last().entry_index == k {
            assert forall|i: int| 0 <= i < s.len() && (#[trigger] s[i]).entry_index == k implies anchor_at(
                s,
                k,
            ) == Some(s[i]) by {
                if i < s.len() - 1 {
                    assert(s[i].entry_index < s[s.len() - 1].entry_index);
                }
            }
        }
    }
}

proof fn lemma_anchors_insert_at<R, C>(s: Seq<StreamAnchor<R, C>>, a: StreamAnchor<R, C>, j: int)
    requires
        anchors_wf(s),
        0 <= j <= s.len(),
        forall|i: int| 0 <= i < j ==> (#[trigger] s[i]).entry_index < a.entry_index,
        forall|i: int| j <= i < s.len() ==> a.entry_index < (#[trigger] s[i]).entry_index,
    ensures
        anchors_wf(s.insert(j, a)),
        forall|k: usize| #[trigger] anchor_at(s.insert(j, a), k) == if k == a.entry_index {
            Some(a)
        } else {
            anchor_at(s, k)
        },
{
    let t = s.insert(j, a);
    assert forall|x: int, y: int| 0 <= x < y < t.len() implies (#[trigger] t[x]).entry_index < (
    #[trigger] t[y]).entry_index by {
        if y < j {
            assert(t[x] == s[x] && t[y] == s[y]);
        } else if y == j {
            assert(t[x] == s[x]);
        } else if x < j {
            assert(t[x] == s[x] && t[y] == s[y - 1]);
        } else if x == j {
            assert(t[y] == s[y - 1]);
        } else {
            assert(t[x] == s[x - 1] && t[y] == s[y - 1]);
        }
    }
    assert forall|k: usize| #[trigger] anchor_at(t, k) == if k == a.entry_index {
        Some(a)
    } else {
        anchor_at(s, k)
    } by {
        lemma_anchor_at(t, k);
        lemma_anchor_at(s, k);
        assert(t[j] == a);
        if k != a.entry_index {
            if anchor_at(s, k) is Some {
                let i = choose|i: int| 0 <= i < s.len() && (#[trigger] s[i]).entry_index == k;
                if i < j {
                    assert(t[i] == s[i]);
                } else {
                    assert(t[i + 1] == s[i]);
                }
            } else {
                assert forall|i: int| 0 <= i < t.len() implies (#[trigger] t[i]).entry_index != k by {
                    if i < j {
                        assert(t[i] == s[i]);
                    } else if i > j {
                        assert(t[i] == s[i - 1]);
                    }
                }
            }
        }
    }
}

/// Keep anchor `a` for its entry, replacing one kept there before.
pub fn insert_anchor<R, C>(anchors: &mut Vec<StreamAnchor<R, C>>, a: StreamAnchor<R, C>)
    requires
        anchors_wf(old(anchors)@),
    ensures
        anchors_wf(final(anchors)@),
        forall|k: usize| #[trigger] anchor_at(final(anchors)@, k) == if k == a.entry_index {
            Some(a)
        } else {
            anchor_at(old(anchors)@, k)
        },
{
    let ghost s = anchors@;
    let mut j: usize = 0;
    while j < anchors.len() && anchors[j].entry_index < a.entry_index
        invariant
            0 <= j <= anchors@.len(),
            anchors@ == s,
            forall|i: int| 0 <= i < j ==> (#[trigger] s[i]).entry_index < a.entry_index,
        decreases anchors@.len() - j,
    {
        j = j + 1;
    }
    if j < anchors.len() && anchors[j].entry_index == a.entry_index {
        let _ = anchors.remove(j);
        let ghost r = anchors@;
        proof {
            assert forall|x: int, y: int| 0 <= x < y < r.len() implies (#[trigger] r[x]).entry_index < (
            #[trigger] r[y]).entry_index by {
                if y < j {
                    assert(r[x] == s[x] && r[y] == s[y]);
                } else if x < j {
                    assert(r[x] == s[x] && r[y] == s[y + 1]);
                } else {
                    assert(r[x] == s[x + 1] && r[y] == s[y + 1]);
                }
            }
            assert forall|i: int| 0 <= i < j implies (#[trigger] r[i]).entry_index < a.entry_index by {
                assert(r[i] == s[i]);
            }
            assert forall|i: int| j <= i < r.len() implies a.entry_index < (#[trigger] r[i]).entry_index by {
                assert(r[i] == s[i + 1]);
                assert(s[j as int].entry_index < s[i + 1].entry_index);
            }
            lemma_anchors_insert_at(r, a, j as int);
            assert forall|k: usize| k != a.entry_index implies #[trigger] anchor_at(r, k) == anchor_at(s, k) by {
                lemma_anchor_at(r, k);
                lemma_anchor_at(s, k);
                if anchor_at(s, k) is Some {
                    let i = choose|i: int| 0 <= i < s.len() && (#[trigger] s[i]).entry_index == k;
                    if i < j {
                        assert(r[i] == s[i]);
                    } else {
                        assert(i != j);
                        assert(r[i - 1] == s[i]);
                    }
                } else {
                    assert forall|i: int| 0 <= i < r.len() implies (#[trigger] r[i]).entry_index != k by {
                        if i < j {
                            assert(r[i] == s[i]);
                        } else {
                            assert(r[i] == s[i + 1]);
                        }
                    }
                }
            }
        }
        anchors.insert(j, a);
    } else {
        proof {
            assert forall|i: int| j <= i < s.len() implies a.entry_index < (#[trigger] s[i]).entry_index by {
                if i > j {
                    assert(s[j as int].entry_index < s[i].entry_index);
                }
            }
            lemma_anchors_insert_at(s, a, j as int);
        }
        anchors.insert(j, a);
    }
}

/// The last of the anchors not past entry `target`.
pub open spec fn nearest_in<R, C>(s: Seq<StreamAnchor<R, C>>, target: usize) -> Option<StreamAnchor<R, C>>
    decreases s.len(),
{
    if s.len() == 0 {
        None
    } else if s.last().entry_index <= target {
        Some(s.last())
    } else {
        nearest_in(s.drop_last(), target)
    }
}

/// The kept anchor nearest before entry `target`: the one
/// with the largest entry number not past it.
pub fn nearest_anchor<R, C>(anchors: &Vec<StreamAnchor<R, C>>, target: usize) -> (r: Option<&StreamAnchor<R, C>>)
    requires
        anchors_wf(anchors@),
    ensures
        r is None <==> forall|i: int| 0 <= i < anchors@.len() ==> (#[trigger] anchors@[i]).entry_index > target,
        r matches Some(a) ==> a.entry_index <= target && anchor_at(anchors@, a.entry_index) == Some(*a)
            && forall|k: usize|
            k <= target && (#[trigger] anchor_at(anchors@, k)) is Some ==> k <= a.entry_index,
        match r {
            Some(a) => nearest_in(anchors@, target) == Some(*a),
            None => nearest_in(anchors@, target) is None,
        },
{
    let mut j: usize = anchors.len();
    proof {
        assert(anchors@.take(j as int) =~= anchors@);
    }
    while j > 0 && anchors[j - 1].entry_index > target
        invariant
            0 <= j <= anchors@.len(),
            forall|i: int| j <= i < anchors@.len() ==> (#[trigger] anchors@[i]).entry_index > target,
            nearest_in(anchors@, target) == nearest_in(anchors@.take(j as int), target),
        decreases j,
    {
        proof {
            assert(anchors@.take(j as int).drop_last() =~= anchors@.take(j - 1));
            assert(anchors@.take(j as int).last() == anchors@[j - 1]);
        }
        j = j - 1;
    }
    proof {
        if j > 0 {
            assert(anchors@.take(j as int).last() == anchors@[j - 1]);
        }
    }
    if j == 0 {
        return None;
    }
    let r = &anchors[j - 1];
    proof {
        let s = anchors@;
        lemma_anchor_at(s, r.entry_index);
        assert forall|k: usize| k <= target && (#[trigger] anchor_at(s, k)) is Some implies k <= r.entry_index by {
            lemma_anchor_at(s, k);
            let i = choose|i: int| 0 <= i < s.len() && (#[trigger] s[i]).entry_index == k;
            if i > j - 1 {
                assert(s[i].entry_index > target);
            } else if i < j - 1 {
                assert(s[i].entry_index < s[j - 1].entry_index);
            }
        }
    }
    Some(r)
}

/// Keep each of `loaded` in turn, a later one replacing an earlier one of
/// the same entry.
pub fn insert_anchors<R, C>(anchors: &mut Vec<StreamAnchor<R, C>>, loaded: Vec<StreamAnchor<R, C>>)
    requires
        anchors_wf(old(anchors)@),
    ensures
        anchors_wf(final(anchors)@),
        forall|k: usize| #[trigger] anchor_at(final(anchors)@, k) == match anchor_at(loaded@, k) {
            Some(a) => Some(a),
            None => anchor_at(old(anchors)@, k),
        },
{
    let ghost s = anchors@;
    let ghost all = loaded@;
    let mut rest = loaded;
    let ghost mut done: int = 0;
    while rest.len() > 0
        invariant
            0 <= done <= all.len(),
            rest@ == all.skip(done),
            anchors_wf(anchors@),
            forall|k: usize| #[trigger] anchor_at(anchors@, k) == match anchor_at(all.take(done), k) {
                Some(a) => Some(a),
                None => anchor_at(s, k),
            },
        decreases rest@.len(),
    {
        let ghost before = rest@;
        let a = rest.remove(0);
        proof {
            assert(a == all[done]);
            assert(rest@ =~= all.skip(done + 1));
            assert(all.take(done + 1).drop_last() =~= all.take(done));
            assert(all.take(done + 1).last() == all[done]);
        }
        insert_anchor(anchors, a);
        proof {
            done = done + 1;
        }
    }
    proof {
        assert(all.take(done) =~= all);
    }
}

// ---------------------------------------------------------------------------
// The pages of an open albums query
// ---------------------------------------------------------------------------

/// Entries per page of the native grid.
pub const PAGE_ENTRIES: usize = 100;

/// How many entries past its nearest anchor a page may start before the
/// anchors of the whole query are built first.
pub const MAX_UNANCHORED_ENTRIES: usize = 500;

/// The widest grid a query is cut for: a page of entries then holds no more
/// albums than a page cache keeps resident.
pub const MAX_COLUMNS: usize = 20;

/// The grid width a query is cut for: the view's column
/// count, at least one and at most `MAX_COLUMNS`.
pub fn grid_columns(columns: i32) -> (r: usize)
    ensures
        columns < 1 ==> r == 1,
        1 <= columns <= MAX_COLUMNS ==> r == columns as usize,
        columns > MAX_COLUMNS ==> r == MAX_COLUMNS,
{
    if columns < 1 {
        1
    } else if columns > 20 {
        MAX_COLUMNS
    } else {
        columns as usize
    }
}

/// A search of one or two characters finds nothing without asking the
/// catalog; an empty search lists everything.
pub fn search_too_short(search: &str) -> (r: bool)
    ensures
        r == (search@.len() > 0 && search@.len() < 3),
{
    let v = crate::text::chars_of(search);
    v.len() > 0 && v.len() < 3
}

/// The first entry of page `page`.
pub open spec fn page_target(page: usize) -> usize {
    if page > usize::MAX / 100 {
        usize::MAX
    } else {
        (page * 100) as usize
    }
}

/// What a page request of the grid comes to.
pub enum PageRequest<R, C, W> {
    /// Nothing to do: a bad or stale request, or the page is loading.
    Ignore,
    /// The page is cached: publish it again.
    Cached(W),
    /// The page starts too far from every anchor: it waits for the anchors,
    /// whose building is to start when the flag says so.
    Wait(bool),
    /// Load the page, scanning from this anchor.
    Load(StreamAnchor<R, C>),
}

/// The paging state of an open native list query (albums, artists, or an
/// artist's albums): its generation, grid width and entry count, the anchors
/// kept so far, whether they are all known or being built, the pages
/// loading and those waiting for anchors, and the page cache.
pub struct NativePages<R, C, W> {
    pub generation: u64,
    pub columns: usize,
    pub entry_total: u64,
    pub anchors: Vec<StreamAnchor<R, C>>,
    pub anchors_ready: bool,
    pub anchor_building: bool,
    pub pending_pages: Vec<usize>,
    pub waiting_pages: Vec<usize>,
    pub cache: PageLru<W>,
}

fn remove_page(pages: &mut Vec<usize>, page: usize)
    requires
        old(pages)@.no_duplicates(),
    ensures
        final(pages)@.no_duplicates(),
        final(pages)@.to_set() == old(pages)@.to_set().remove(page),
{
    let ghost s = pages@;
    let mut i: usize = 0;
    while i < pages.len() && pages[i] != page
        invariant
            0 <= i <= pages@.len(),
            pages@ == s,
            forall|k: int| 0 <= k < i ==> s[k] != page,
        decreases pages@.len() - i,
    {
        i = i + 1;
    }
    if i < pages.len() {
        pages.remove(i);
        proof {
            let r = pages@;
            assert forall|x: int, y: int| 0 <= x < y < r.len() implies r[x] != r[y] by {
                let xs = if x < i { x } else { x + 1 };
                let ys = if y < i { y } else { y + 1 };
                assert(r[x] == s[xs] && r[y] == s[ys]);
            }
            assert forall|v: usize| #[trigger] r.to_set().contains(v) == s.to_set().remove(page).contains(v) by {
                if r.to_set().contains(v) {
                    let k = r.index_of(v);
                    let ks = if k < i { k } else { k + 1 };
                    assert(r[k] == s[ks]);
                    assert(s.contains(v));
                    assert(v != page) by {
                        if v == page {
                            assert(s[ks] == s[i as int]);
                            assert(ks != i);
                        }
                    }
                }
                if s.to_set().remove(page).contains(v) {
                    let k = s.index_of(v);
                    assert(k != i);
                    if k < i {
                        assert(r[k] == s[k]);
                    } else {
                        assert(r[k - 1] == s[k]);
                    }
                    assert(r.contains(v));
                }
            }
            assert(r.to_set() =~= s.to_set().remove(page));
        }
    } else {
        proof {
            assert forall|v: usize| #[trigger] s.to_set().contains(v) == s.to_set().remove(page).contains(v) by {
                if v == page && s.contains(v) {
                    let k = s.index_of(v);
                    assert(s[k] != page);
                }
            }
            assert(s.to_set() =~= s.to_set().remove(page));
        }
    }
}

fn add_page(pages: &mut Vec<usize>, page: usize) -> (added: bool)
    requires
        old(pages)@.no_duplicates(),
    ensures
        final(pages)@.no_duplicates(),
        final(pages)@.to_set() == old(pages)@.to_set().insert(page),
        added == !old(pages)@.contains(page),
        added ==> final(pages)@ == old(pages)@.push(page),
        !added ==> final(pages)@ == old(pages)@,
{
    let ghost s = pages@;
    let mut i: usize = 0;
    while i < pages.len()
        invariant
            0 <= i <= pages@.len(),
            pages@ == s,
            s.no_duplicates(),
            forall|k: int| 0 <= k < i ==> s[k] != page,
        decreases pages@.len() - i,
    {
        if pages[i] == page {
            proof {
                assert(s.contains(page));
                assert(s.to_set().insert(page) =~= s.to_set());
            }
            return false;
        }
        i = i + 1;
    }
    pages.push(page);
    proof {
        assert(!s.contains(page));
        let r = pages@;
        assert forall|x: int, y: int| 0 <= x < y < r.len() implies r[x] != r[y] by {
            if y == r.len() - 1 {
                assert(r[x] == s[x]);
            } else {
                assert(r[x] == s[x] && r[y] == s[y]);
            }
        }
        assert(r.to_set() =~= s.to_set().insert(page)) by {
            assert forall|v: usize| #[trigger] r.to_set().contains(v) == s.to_set().insert(page).contains(v) by {
                if r.contains(v) {
                    let k = r.index_of(v);
                    if k < s.len() {
                        assert(r[k] == s[k]);
                    }
                }
                if s.contains(v) {
                    let k = s.index_of(v);
                    assert(r[k] == s[k]);
                }
                if v == page {
                    assert(r[r.len() - 1] == page);
                }
            }
        }
    }
    true
}

impl<R: Clone, C: Clone, W: Clone> NativePages<R, C, W> {
    /// Anchors in entry order, each page listed once as loading and once as
    /// waiting, the cache well kept.
    pub open spec fn wf(&self) -> bool {
        &&& anchors_wf(self.anchors@)
        &&& self.pending_pages@.no_duplicates()
        &&& self.waiting_pages@.no_duplicates()
        &&& self.cache.wf()
    }

    /// A query opened: the first page, already scanned,
    /// is cached; the anchors are the start of the stream and those the
    /// first scan passed; they are all known when the query has few
    /// entries. The flag says whether to build the anchors now: for a long
    /// query, or one grouped by name, whose jump bar needs them.
    pub fn activate(
        generation: u64,
        columns: usize,
        entry_total: u64,
        group: TrackGroup,
        first_wire: W,
        first_rows: usize,
        loaded: Vec<StreamAnchor<R, C>>,
    ) -> (r: (Self, bool))
        ensures
            r.0.wf(),
            r.0.generation == generation,
            r.0.columns == columns,
            r.0.entry_total == entry_total,
            forall|k: usize| k != 0 ==> #[trigger] anchor_at(r.0.anchors@, k) == anchor_at(loaded@, k),
            anchor_at(loaded@, 0) is Some ==> anchor_at(r.0.anchors@, 0) == anchor_at(loaded@, 0),
            anchor_at(loaded@, 0) is None ==> (anchor_at(r.0.anchors@, 0) matches Some(a)
                && anchor_view(a) == fresh_anchor::<R, C>()),
            r.0.anchors_ready == (entry_total <= MAX_UNANCHORED_ENTRIES),
            !r.0.anchor_building,
            r.0.pending_pages@.len() == 0,
            r.0.waiting_pages@.len() == 0,
            r.0.cache.entries@.len() == 1,
            r.0.cache.lookup(0) == Some(CachedPage { wire: first_wire, rows: first_rows }),
            r.1 == (entry_total > MAX_UNANCHORED_ENTRIES || group == TrackGroup::Name),
    {
        let mut cache: PageLru<W> = PageLru::new();
        cache.insert(0, CachedPage { wire: first_wire, rows: first_rows });
        proof {
            let e = Seq::<usize>::empty();
            crate::page_cache::lemma_touched(e, 0usize);
            assert(crate::page_cache::touched(e, 0usize).len() == 1);
            let k = choose|k: int|
                0 <= k <= crate::page_cache::touched(e, 0usize).len() && cache.order@
                    == crate::page_cache::touched(e, 0usize).skip(k) && cache.evictions == 0 + k;
            assert(cache.entries@.contains_key(0usize));
            cache.order@.unique_seq_to_set();
            assert(cache.order@.len() == cache.entries@.len());
        }
        let mut anchors: Vec<StreamAnchor<R, C>> = Vec::new();
        let start: StreamAnchor<R, C> = StreamAnchor::start();
        let ghost start_v = start;
        insert_anchor(&mut anchors, start);
        insert_anchors(&mut anchors, loaded);
        let build = entry_total > 500 || group == TrackGroup::Name;
        let pages = NativePages {
            generation,
            columns,
            entry_total,
            anchors,
            anchors_ready: entry_total <= 500,
            anchor_building: false,
            pending_pages: Vec::new(),
            waiting_pages: Vec::new(),
            cache,
        };
        proof {
            if anchor_at(loaded@, 0) is None {
                assert(anchor_at(pages.anchors@, 0) == Some(start_v));
            }
        }
        (pages, build)
    }
}

impl<R: Clone, C: Clone, W: Clone> NativePages<R, C, W> {
    /// A request for page `page` of query `generation`. A
    /// negative page, a non-positive or stale generation, or a page already
    /// loading is ignored; a cached page is published again; a page that
    /// starts more than `MAX_UNANCHORED_ENTRIES` entries past its nearest
    /// anchor, while the anchors are not all known, waits for them (and
    /// asks for them to be built unless they are being built); any other
    /// page is loaded from its nearest anchor, or from the start.
    pub fn request_page(&mut self, page: i32, generation: i32) -> (r: PageRequest<R, C, W>)
        requires
            old(self).wf(),
        ensures
            final(self).wf(),
            final(self).generation == old(self).generation,
            final(self).columns == old(self).columns,
            final(self).entry_total == old(self).entry_total,
            final(self).anchors@ == old(self).anchors@,
            final(self).anchors_ready == old(self).anchors_ready,
            final(self).anchor_building == old(self).anchor_building,
            final(self).cache.entries@ == old(self).cache.entries@,
            final(self).cache.resident == old(self).cache.resident,
            final(self).cache.evictions == old(self).cache.evictions,
            page < 0 || generation <= 0 || generation as u64 != old(self).generation ==> r is Ignore
                && *final(self) == *old(self),
            !(page < 0 || generation <= 0 || generation as u64 != old(self).generation) ==> {
                let p = page as usize;
                let t = page_target(p);
                let near = nearest_in(old(self).anchors@, t);
                let from = match near {
                    Some(a) => a.entry_index,
                    None => 0,
                };
                let far = t - from > MAX_UNANCHORED_ENTRIES && !old(self).anchors_ready;
                &&& old(self).cache.lookup(p) is Some ==> (r matches PageRequest::Cached(w) && cloned(
                    old(self).cache.lookup(p)->0.wire,
                    w,
                )) && final(self).cache.order@ == crate::page_cache::touched(old(self).cache.order@, p)
                    && final(self).pending_pages@ == old(self).pending_pages@
                    && final(self).waiting_pages@ == old(self).waiting_pages@
                &&& old(self).cache.lookup(p) is None ==> final(self).cache.order@ == old(self).cache.order@
                &&& old(self).cache.lookup(p) is None && old(self).pending_pages@.contains(p) ==> r is Ignore
                    && final(self).pending_pages@ == old(self).pending_pages@
                    && final(self).waiting_pages@ == old(self).waiting_pages@
                &&& old(self).cache.lookup(p) is None && !old(self).pending_pages@.contains(p) && far ==> r
                    == PageRequest::<R, C, W>::Wait(!old(self).anchor_building)
                    && final(self).pending_pages@.to_set() == old(self).pending_pages@.to_set()
                    && final(self).waiting_pages@.to_set() == old(self).waiting_pages@.to_set().insert(p)
                &&& old(self).cache.lookup(p) is None && !old(self).pending_pages@.contains(p) && !far ==> (
                r matches PageRequest::Load(a) && match near {
                    Some(n) => snapshot_of(anchor_view(a), anchor_view(n)),
                    None => anchor_view(a) == fresh_anchor::<R, C>(),
                }) && final(self).pending_pages@.to_set() == old(self).pending_pages@.to_set().insert(p)
                    && final(self).waiting_pages@ == old(self).waiting_pages@
            },
    {
        if page < 0 || generation <= 0 || generation as u64 != self.generation {
            return PageRequest::Ignore;
        }
        let p = page as usize;
        match self.cache.get(p) {
            Some(c) => {
                let w = c.wire.clone();
                return PageRequest::Cached(w);
            },
            None => {},
        }
        let ghost pending0 = self.pending_pages@;
        if !add_page(&mut self.pending_pages, p) {
            return PageRequest::Ignore;
        }
        let target: usize = if p > usize::MAX / 100 {
            usize::MAX
        } else {
            p * 100
        };
        let near = nearest_anchor(&self.anchors, target);
        let from: usize = match near {
            Some(a) => a.entry_index,
            None => 0,
        };
        if target - from > MAX_UNANCHORED_ENTRIES && !self.anchors_ready {
            remove_page(&mut self.pending_pages, p);
            add_page(&mut self.waiting_pages, p);
            proof {
                assert(!pending0.contains(p));
                assert(pending0.to_set().insert(p).remove(p) =~= pending0.to_set());
            }
            return PageRequest::Wait(!self.anchor_building);
        }
        let a = match near {
            Some(n) => n.snapshot(),
            None => StreamAnchor::start(),
        };
        PageRequest::Load(a)
    }
}

impl<R: Clone, C: Clone, W: Clone> NativePages<R, C, W> {
    /// A loaded page arrived: for the open query it stops
    /// loading, the anchors its scan passed are kept and it is cached; a
    /// page of an older query changes nothing. The result says whether it
    /// is to be published.
    pub fn commit_page(
        &mut self,
        generation: u64,
        page: usize,
        wire: W,
        rows: usize,
        loaded: Vec<StreamAnchor<R, C>>,
    ) -> (accepted: bool)
        requires
            old(self).wf(),
            old(self).cache.resident + rows <= usize::MAX,
            old(self).cache.evictions + old(self).cache.entries@.len() <= u64::MAX,
        ensures
            final(self).wf(),
            accepted == (generation == old(self).generation),
            !accepted ==> *final(self) == *old(self),
            accepted ==> {
                &&& final(self).generation == old(self).generation
                &&& final(self).columns == old(self).columns
                &&& final(self).entry_total == old(self).entry_total
                &&& final(self).anchors_ready == old(self).anchors_ready
                &&& final(self).anchor_building == old(self).anchor_building
                &&& final(self).pending_pages@.to_set() == old(self).pending_pages@.to_set().remove(page)
                &&& final(self).waiting_pages@ == old(self).waiting_pages@
                &&& forall|k: usize| #[trigger] anchor_at(final(self).anchors@, k) == match anchor_at(
                    loaded@,
                    k,
                ) {
                    Some(a) => Some(a),
                    None => anchor_at(old(self).anchors@, k),
                }
                &&& final(self).cache.lookup(page) == Some(CachedPage { wire, rows })
                &&& final(self).cache.resident <= crate::page_cache::MAX_RESIDENT_ROWS
                    || final(self).cache.entries@.len() == 1
                &&& forall|q: usize|
                    q != page && (#[trigger] final(self).cache.lookup(q)) is Some
                        ==> final(self).cache.lookup(q) == old(self).cache.lookup(q)
            },
    {
        if generation != self.generation {
            return false;
        }
        remove_page(&mut self.pending_pages, page);
        insert_anchors(&mut self.anchors, loaded);
        self.cache.insert(page, CachedPage { wire, rows });
        true
    }

    /// The anchor builder of query `generation` starts:
    /// for the open query it is marked as building; for an older one
    /// nothing happens and nothing is to be built.
    pub fn begin_anchor_build(&mut self, generation: u64) -> (started: bool)
        ensures
            started == (generation == old(self).generation),
            started ==> final(self).anchor_building,
            started ==> *final(self) == (NativePages { anchor_building: true, ..*old(self) }),
            !started ==> *final(self) == *old(self),
    {
        if generation != self.generation {
            return false;
        }
        self.anchor_building = true;
        true
    }

    /// The anchor builder finished: for the open query
    /// every anchor it passed and its final state are kept, the anchors are
    /// all known, and the pages that waited for them are handed back to be
    /// requested again; for an older query nothing changes.
    pub fn finish_anchors(
        &mut self,
        generation: u64,
        loaded: Vec<StreamAnchor<R, C>>,
        last: StreamAnchor<R, C>,
    ) -> (r: Option<Vec<usize>>)
        requires
            old(self).wf(),
        ensures
            final(self).wf(),
            r is None <==> generation != old(self).generation,
            r is None ==> *final(self) == *old(self),
            r matches Some(pages) ==> {
                &&& pages@ == old(self).waiting_pages@
                &&& final(self).waiting_pages@.len() == 0
                &&& final(self).anchors_ready
                &&& !final(self).anchor_building
                &&& forall|k: usize| #[trigger] anchor_at(final(self).anchors@, k) == if k
                    == last.entry_index {
                    Some(last)
                } else {
                    match anchor_at(loaded@, k) {
                        Some(a) => Some(a),
                        None => anchor_at(old(self).anchors@, k),
                    }
                }
                &&& final(self).generation == old(self).generation
                &&& final(self).columns == old(self).columns
                &&& final(self).entry_total == old(self).entry_total
                &&& final(self).pending_pages@ == old(self).pending_pages@
                &&& final(self).cache == old(self).cache
            },
    {
        if generation != self.generation {
            return None;
        }
        insert_anchors(&mut self.anchors, loaded);
        insert_anchor(&mut self.anchors, last);
        self.anchors_ready = true;
        self.anchor_building = false;
        let mut waiting: Vec<usize> = Vec::new();
        std::mem::swap(&mut waiting, &mut self.waiting_pages);
        proof {
            assert(self.waiting_pages@.no_duplicates());
        }
        Some(waiting)
    }
}

/// The albums of a run of entries.
pub open spec fn items_total<R>(s: Seq<EntryView<R>>) -> int
    decreases s.len(),
{
    if s.len() == 0 {
        0
    } else {
        items_total(s.drop_last()) + s.last().3.len()
    }
}

proof fn lemma_items_total_prefix<R>(s: Seq<EntryView<R>>, i: int)
    requires
        0 <= i <= s.len(),
    ensures
        0 <= items_total(s.take(i)) <= items_total(s),
    decreases s.len() - i,
{
    if i < s.len() {
        lemma_items_total_prefix(s, i + 1);
        assert(s.take(i + 1).drop_last() =~= s.take(i));
        lemma_items_total_nonneg(s.take(i));
        assert(items_total(s.take(i + 1)) == items_total(s.take(i)) + s.take(i + 1).last().3.len());
    } else {
        assert(s.take(i) =~= s);
        lemma_items_total_nonneg(s);
    }
}

proof fn lemma_items_total_nonneg<R>(s: Seq<EntryView<R>>)
    ensures
        items_total(s) >= 0,
    decreases s.len(),
{
    if s.len() > 0 {
        lemma_items_total_nonneg(s.drop_last());
    }
}

/// The albums a page of entries holds.
pub fn album_count<R>(wire: &Vec<WireEntry<R>>) -> (n: usize)
    requires
        items_total(wire_view(wire@)) <= usize::MAX,
    ensures
        n == items_total(wire_view(wire@)),
{
    let ghost all = wire_view(wire@);
    let mut n: usize = 0;
    let mut i: usize = 0;
    while i < wire.len()
        invariant
            0 <= i <= wire@.len(),
            all == wire_view(wire@),
            items_total(all) <= usize::MAX,
            n == items_total(all.take(i as int)),
        decreases wire@.len() - i,
    {
        proof {
            assert(all.take(i + 1).drop_last() =~= all.take(i as int));
            assert(all.take(i + 1).last() == entry_view(wire@[i as int]));
            lemma_items_total_prefix(all, i + 1);
        }
        n = n + wire[i].items.len();
        i = i + 1;
    }
    proof {
        assert(all.take(i as int) =~= all);
    }
    n
}

// ---------------------------------------------------------------------------
// Laws of the scan
// ---------------------------------------------------------------------------

/// Resuming a scan: scanning rows `a` and then `b` gives, entry for entry and
/// letter for letter, what the scan of `a` gives followed by a scan of `b`
/// started from where the first one stopped. A page loaded from an anchor
/// kept after `a` sees exactly what a scan from the start sees past it.
pub proof fn lemma_resume_from_anchor<R, C>(
    s: AnchorView<R, C>,
    a: Seq<RowView<R>>,
    b: Seq<RowView<R>>,
    group: TrackGroup,
    columns: usize,
    w: ScanWindow,
)
    ensures
        ({
            let (x, ex, jx) = rows_spec(s, a, group, columns, w);
            let (y, ey, jy) = rows_spec(x, b, group, columns, w);
            rows_spec(s, a + b, group, columns, w) == (y, ex + ey, jx + jy)
        }),
    decreases b.len(),
{
    let (x, ex, jx) = rows_spec(s, a, group, columns, w);
    if b.len() == 0 {
        assert(a + b =~= a);
        assert(ex + Seq::<EntryView<R>>::empty() =~= ex);
        assert(jx + Seq::<JumpView>::empty() =~= jx);
    } else {
        lemma_resume_from_anchor(s, a, b.drop_last(), group, columns, w);
        assert((a + b).drop_last() =~= a + b.drop_last());
        assert((a + b).last() == b.last());
        let (y1, ey1, jy1) = rows_spec(x, b.drop_last(), group, columns, w);
        let (z, ez, jz) = row_spec(y1, b.last(), group, columns, w);
        assert(ex + ey1 + ez =~= ex + (ey1 + ez));
        assert(jx + jy1 + jz =~= jx + (jy1 + jz));
    }
}

/// A scan that does not collect, as the anchor builder's, hands out no
/// entry; it still meets every jump bar letter.
pub proof fn lemma_no_collect_no_entries<R, C>(
    s: AnchorView<R, C>,
    rows: Seq<RowView<R>>,
    group: TrackGroup,
    columns: usize,
    w: ScanWindow,
)
    requires
        !w.collect,
    ensures
        rows_spec(s, rows, group, columns, w).1.len() == 0,
        forall|n: Option<C>| (#[trigger] page_end_spec(rows_spec(s, rows, group, columns, w).0, n, w)).1.len() == 0,
    decreases rows.len(),
{
    if rows.len() > 0 {
        lemma_no_collect_no_entries(s, rows.drop_last(), group, columns, w);
    }
}

/// Every line of albums a scan hands out holds at least one album and no
/// more than the grid has columns, and the line being filled stays shorter
/// than a full one.
pub proof fn lemma_lines_fit_columns<R, C>(
    s: AnchorView<R, C>,
    rows: Seq<RowView<R>>,
    group: TrackGroup,
    columns: usize,
    w: ScanWindow,
)
    requires
        columns >= 1,
        s.4.len() < columns,
    ensures
        rows_spec(s, rows, group, columns, w).0.4.len() < columns,
        forall|i: int|
            0 <= i < rows_spec(s, rows, group, columns, w).1.len() ==> {
                let e = #[trigger] rows_spec(s, rows, group, columns, w).1[i];
                !e.0 ==> 1 <= e.3.len() <= columns
            },
    decreases rows.len(),
{
    if rows.len() > 0 {
        lemma_lines_fit_columns(s, rows.drop_last(), group, columns, w);
        let (a, ea, ja) = rows_spec(s, rows.drop_last(), group, columns, w);
        let r = rows.last();
        let (s1, e1, j1) = if starts_group(a, r.0, group) {
            let (f, ef) = flush_spec(a, w);
            let a2 = (f.0, f.1, f.2, Some(r.0), f.4, f.5);
            let (h, eh) = header_spec(a2, r.1, w);
            assert forall|i: int| 0 <= i < (ef + eh).len() implies {
                let e = #[trigger] (ef + eh)[i];
                !e.0 ==> 1 <= e.3.len() <= columns
            } by {
                if i < ef.len() {
                    assert((ef + eh)[i] == ef[i]);
                } else {
                    assert((ef + eh)[i] == eh[i - ef.len()]);
                }
            }
            (h, ef + eh, Seq::<JumpView>::empty())
        } else {
            (a, Seq::<EntryView<R>>::empty(), Seq::<JumpView>::empty())
        };
        assert(s1.4.len() < columns);
        let s2 = (
            s1.0,
            sat_inc(s1.1),
            s1.2,
            s1.3,
            s1.4.push(PendingRow { index: s1.1, record: r.2 }),
            s1.5,
        );
        let (b, eb, jb) = row_spec(a, r, group, columns, w);
        assert(s2.4.len() <= columns);
        if s2.4.len() == columns {
            let (s3, e3) = flush_spec(s2, w);
            assert(eb == e1 + e3);
            assert forall|i: int| 0 <= i < eb.len() implies {
                let e = #[trigger] eb[i];
                !e.0 ==> 1 <= e.3.len() <= columns
            } by {
                if i < e1.len() {
                    assert(eb[i] == e1[i]);
                } else {
                    assert(eb[i] == e3[i - e1.len()]);
                }
            }
        } else {
            assert(eb == e1);
        }
        assert forall|i: int| 0 <= i < (ea + eb).len() implies {
            let e = #[trigger] (ea + eb)[i];
            !e.0 ==> 1 <= e.3.len() <= columns
        } by {
            if i < ea.len() {
                assert((ea + eb)[i] == ea[i]);
            } else {
                assert((ea + eb)[i] == eb[i - ea.len()]);
            }
        }
    }
}

} // verus!
