//! The depth ring of the Line Bed scene: a fixed number of lines of a fixed
//! number of bands, newest line first; each new line pushes the others one
//! line deeper and the deepest falls off.
use vstd::prelude::*;

verus! {

/// Depth lines of the Line Bed.
pub const LINEBED_LINES: usize = 200;

/// Frequency bands of a Line Bed line.
pub const LINEBED_BANDS: usize = 256;

/// Puts `row` at the front of `ring`: every value
/// moves `row.len()` places deeper, the deepest line falls off, and the
/// ring keeps its size.
pub fn push_newest<T: Copy>(ring: &mut Vec<T>, row: &Vec<T>)
    requires
        row@.len() <= old(ring)@.len(),
    ensures
        final(ring)@.len() == old(ring)@.len(),
        forall|i: int| 0 <= i < row@.len() ==> #[trigger] final(ring)@[i] == row@[i],
        forall|i: int| row@.len() <= i < old(ring)@.len() ==> #[trigger] final(ring)@[i] == old(ring)@[i - row@.len()],
{
    let bands = row.len();
    let n = ring.len();
    let ghost before = ring@;
    let mut i: usize = n;
    while i > bands
        invariant
            bands <= i <= n,
            n == before.len(),
            bands == row@.len(),
            ring@.len() == n,
            forall|k: int| 0 <= k < i ==> #[trigger] ring@[k] == before[k],
            forall|k: int| i <= k < n ==> #[trigger] ring@[k] == before[k - bands],
        decreases i,
    {
        let v = ring[i - 1 - bands];
        ring.set(i - 1, v);
        i = i - 1;
    }
    let mut j: usize = 0;
    while j < bands
        invariant
            0 <= j <= bands,
            n == before.len(),
            bands == row@.len(),
            bands <= n,
            ring@.len() == n,
            forall|k: int| 0 <= k < j ==> #[trigger] ring@[k] == row@[k],
            forall|k: int| bands <= k < n ==> #[trigger] ring@[k] == before[k - bands],
        decreases bands - j,
    {
        ring.set(j, row[j]);
        j = j + 1;
    }
}

/// The newest line of a ring of `bands`-wide lines.
pub open spec fn newest_line<T>(ring: Seq<T>, bands: int) -> Seq<T> {
    ring.subrange(0, bands)
}

/// The second newest line of a ring of `bands`-wide lines.
pub open spec fn second_line<T>(ring: Seq<T>, bands: int) -> Seq<T> {
    ring.subrange(bands, 2 * bands)
}

/// Pushing a line makes the line that was newest the second newest.
pub proof fn lemma_push_moves_newest_one_deeper<T>(before: Seq<T>, after: Seq<T>, row: Seq<T>)
    requires
        row.len() > 0,
        2 * row.len() <= before.len(),
        after.len() == before.len(),
        forall|i: int| 0 <= i < row.len() ==> #[trigger] after[i] == row[i],
        forall|i: int| row.len() <= i < before.len() ==> #[trigger] after[i] == before[i - row.len()],
    ensures
        newest_line(after, row.len() as int) == row,
        second_line(after, row.len() as int) == newest_line(before, row.len() as int),
{
    let b = row.len() as int;
    assert(newest_line(after, b) =~= row);
    assert forall|k: int| 0 <= k < b implies #[trigger] second_line(after, b)[k] == newest_line(before, b)[k] by {
        assert(second_line(after, b)[k] == after[b + k]);
    }
    assert(second_line(after, b) =~= newest_line(before, b));
}

} // verus!
