use vstd::prelude::*;
use crate::generation::{wrap_next, wrapping_next};
use crate::text::{
    lemma_lex_irreflexive, lemma_lex_total, lemma_lex_transitive,
    chars_lt, chars_of, str_is_empty, contains_chars, contains_seq, lex_lt, lowercase, str_equals, to_lowercase,
    trim, trimmed_chars, parse_u64, spec_parse_u64, string_from_chars,
};

use crate::label_json::{extract_label_image, opt_json, spec_extract_label_image, Json};

verus! {

// ---------------------------------------------------------------------------
// Release cards and their orders
// ---------------------------------------------------------------------------

/// One album card of a label's catalog, as far as the releases toolbar reads
/// it. `id` lets the embedding application find the full card again.
#[derive(Clone, Debug, PartialEq, Eq)]
pub struct ReleaseCard {
    pub id: String,
    pub title: String,
    pub artist: String,
    /// The plain four-digit release year, so text order is time order.
    pub year: String,
    pub quality_tier: String,
}

impl ReleaseCard {
    /// A field-by-field copy.
    pub fn duplicate(&self) -> (r: ReleaseCard)
        ensures
            r == *self,
    {
        ReleaseCard {
            id: self.id.clone(),
            title: self.title.clone(),
            artist: self.artist.clone(),
            year: self.year.clone(),
            quality_tier: self.quality_tier.clone(),
        }
    }
}

/// The orders of the releases toolbar.
#[derive(Clone, Copy, Debug, PartialEq, Eq, Structural)]
pub enum ReleaseSort {
    YearAsc,
    YearDesc,
    TitleAsc,
    TitleDesc,
    ArtistAsc,
    ArtistDesc,
    /// Any other value leaves the catalog order as it is.
    Unsorted,
}

/// The order a toolbar value names.
pub open spec fn spec_release_sort(s: Seq<char>) -> ReleaseSort {
    if s == "oldest"@ || s == "year-asc"@ {
        ReleaseSort::YearAsc
    } else if s == "newest"@ || s == "year-desc"@ {
        ReleaseSort::YearDesc
    } else if s == "title-asc"@ {
        ReleaseSort::TitleAsc
    } else if s == "title-desc"@ {
        ReleaseSort::TitleDesc
    } else if s == "artist-asc"@ {
        ReleaseSort::ArtistAsc
    } else if s == "artist-desc"@ {
        ReleaseSort::ArtistDesc
    } else {
        ReleaseSort::Unsorted
    }
}

impl ReleaseSort {
    pub fn from_str_value(s: &str) -> (r: ReleaseSort)
        ensures
            r == spec_release_sort(s@),
    {
        if str_equals(s, "oldest") || str_equals(s, "year-asc") {
            ReleaseSort::YearAsc
        } else if str_equals(s, "newest") || str_equals(s, "year-desc") {
            ReleaseSort::YearDesc
        } else if str_equals(s, "title-asc") {
            ReleaseSort::TitleAsc
        } else if str_equals(s, "title-desc") {
            ReleaseSort::TitleDesc
        } else if str_equals(s, "artist-asc") {
            ReleaseSort::ArtistAsc
        } else if str_equals(s, "artist-desc") {
            ReleaseSort::ArtistDesc
        } else {
            ReleaseSort::Unsorted
        }
    }
}

/// The text a card is ordered by: the plain year, or the lower-cased title
/// or artist.
pub open spec fn sort_key(c: ReleaseCard, by: ReleaseSort) -> Seq<char> {
    match by {
        ReleaseSort::YearAsc | ReleaseSort::YearDesc => c.year@,
        ReleaseSort::TitleAsc | ReleaseSort::TitleDesc => lowercase(c.title@),
        ReleaseSort::ArtistAsc | ReleaseSort::ArtistDesc => lowercase(c.artist@),
        ReleaseSort::Unsorted => Seq::empty(),
    }
}

pub open spec fn is_ascending(by: ReleaseSort) -> bool {
    by == ReleaseSort::YearAsc || by == ReleaseSort::TitleAsc || by == ReleaseSort::ArtistAsc
}

/// `x` must be placed before `y`: its key is strictly smaller (ascending) or
/// strictly larger (descending). Equal keys never reorder.
pub open spec fn goes_before(x: ReleaseCard, y: ReleaseCard, by: ReleaseSort) -> bool {
    if by == ReleaseSort::Unsorted {
        false
    } else if is_ascending(by) {
        lex_lt(sort_key(x, by), sort_key(y, by))
    } else {
        lex_lt(sort_key(y, by), sort_key(x, by))
    }
}

fn key_chars(c: &ReleaseCard, by: ReleaseSort) -> (k: Vec<char>)
    ensures
        k@ == sort_key(*c, by),
{
    match by {
        ReleaseSort::YearAsc | ReleaseSort::YearDesc => chars_of(c.year.as_str()),
        ReleaseSort::TitleAsc | ReleaseSort::TitleDesc => {
            let l = to_lowercase(c.title.as_str());
            chars_of(l.as_str())
        },
        ReleaseSort::ArtistAsc | ReleaseSort::ArtistDesc => {
            let l = to_lowercase(c.artist.as_str());
            chars_of(l.as_str())
        },
        ReleaseSort::Unsorted => Vec::new(),
    }
}

pub fn card_goes_before(x: &ReleaseCard, y: &ReleaseCard, by: ReleaseSort) -> (r: bool)
    ensures
        r == goes_before(*x, *y, by),
{
    if by == ReleaseSort::Unsorted {
        return false;
    }
    let kx = key_chars(x, by);
    let ky = key_chars(y, by);
    match by {
        ReleaseSort::YearAsc | ReleaseSort::TitleAsc | ReleaseSort::ArtistAsc => chars_lt(&kx, &ky),
        _ => chars_lt(&ky, &kx),
    }
}

/// `x` inserted into `s` from the back: it passes every card it goes before
/// and stops behind the first one it does not.
pub open spec fn insert_stable(s: Seq<ReleaseCard>, x: ReleaseCard, by: ReleaseSort) -> Seq<
    ReleaseCard,
>
    decreases s.len(),
{
    if s.len() == 0 {
        seq![x]
    } else if goes_before(x, s.last(), by) {
        insert_stable(s.drop_last(), x, by).push(s.last())
    } else {
        s.push(x)
    }
}

/// The stable sort of a card sequence: each card in turn inserted into the
/// sorted cards before it.
pub open spec fn sorted_cards(s: Seq<ReleaseCard>, by: ReleaseSort) -> Seq<ReleaseCard>
    decreases s.len(),
{
    if s.len() == 0 {
        s
    } else {
        insert_stable(sorted_cards(s.drop_last(), by), s.last(), by)
    }
}

proof fn lemma_insert_at(s: Seq<ReleaseCard>, x: ReleaseCard, by: ReleaseSort, j: int)
    requires
        0 <= j <= s.len(),
        forall|k: int| j <= k < s.len() ==> goes_before(x, #[trigger] s[k], by),
        j == 0 || !goes_before(x, s[j - 1], by),
    ensures
        insert_stable(s, x, by) == s.take(j).push(x) + s.skip(j),
    decreases s.len(),
{
    if s.len() == 0 {
        assert(s.take(j).push(x) + s.skip(j) =~= seq![x]);
    } else if j == s.len() {
        assert(s.take(j) =~= s);
        assert(s.take(j).push(x) + s.skip(j) =~= s.push(x));
    } else {
        let t = s.drop_last();
        assert(goes_before(x, s[s.len() - 1], by));
        assert forall|k: int| j <= k < t.len() implies goes_before(x, #[trigger] t[k], by) by {
            assert(t[k] == s[k]);
        }
        if j > 0 {
            assert(t[j - 1] == s[j - 1]);
        }
        lemma_insert_at(t, x, by, j);
        assert((t.take(j).push(x) + t.skip(j)).push(s.last()) =~= s.take(j).push(x) + s.skip(j));
    }
}

/// Sort the cards in place: stable, by the order `by` names.
pub fn sort_cards(items: &mut Vec<ReleaseCard>, by: ReleaseSort)
    ensures
        final(items)@ == sorted_cards(old(items)@, by),
{
    let n = items.len();
    let mut out: Vec<ReleaseCard> = Vec::new();
    let mut i: usize = 0;
    while i < n
        invariant
            n == items@.len(),
            items@ == old(items)@,
            0 <= i <= n,
            out@ == sorted_cards(items@.take(i as int), by),
        decreases n - i,
    {
        let x = items[i].duplicate();
        let mut j: usize = out.len();
        while j > 0 && card_goes_before(&x, &out[j - 1], by)
            invariant
                0 <= j <= out@.len(),
                forall|k: int| j <= k < out@.len() ==> goes_before(x, #[trigger] out@[k], by),
            decreases j,
        {
            j = j - 1;
        }
        proof {
            lemma_insert_at(out@, x, by, j as int);
            assert(items@.take(i + 1).drop_last() =~= items@.take(i as int));
            assert(items@.take(i + 1).last() == items@[i as int]);
        }
        out.insert(j, x);
        proof {
            assert(out@ =~= sorted_cards(items@.take(i + 1), by));
        }
        i = i + 1;
    }
    proof {
        assert(items@.take(n as int) =~= items@);
    }
    *items = out;
}

/// No card goes before itself, and "goes before" never holds both ways.
proof fn lemma_before_asymmetric(x: ReleaseCard, y: ReleaseCard, by: ReleaseSort)
    ensures
        !goes_before(x, x, by),
        goes_before(x, y, by) ==> !goes_before(y, x, by),
{
    lemma_lex_irreflexive(sort_key(x, by), 0);
    if goes_before(x, y, by) && goes_before(y, x, by) {
        if is_ascending(by) {
            lemma_lex_transitive(sort_key(x, by), sort_key(y, by), sort_key(x, by), 0);
        } else {
            lemma_lex_transitive(sort_key(y, by), sort_key(x, by), sort_key(y, by), 0);
            lemma_lex_irreflexive(sort_key(y, by), 0);
        }
    }
}

/// If `x` goes before `z`, any `y` goes after `x` or before `z`.
proof fn lemma_before_split(x: ReleaseCard, y: ReleaseCard, z: ReleaseCard, by: ReleaseSort)
    requires
        goes_before(x, z, by),
    ensures
        goes_before(x, y, by) || goes_before(y, z, by),
{
    let kx = sort_key(x, by);
    let ky = sort_key(y, by);
    let kz = sort_key(z, by);
    if is_ascending(by) {
        if !lex_lt(kx, ky) && !lex_lt(ky, kx) {
            lemma_lex_total(kx, ky, 0);
        } else if lex_lt(ky, kx) {
            lemma_lex_transitive(ky, kx, kz, 0);
        }
    } else {
        if !lex_lt(ky, kx) && !lex_lt(kx, ky) {
            lemma_lex_total(kx, ky, 0);
        } else if lex_lt(kx, ky) {
            lemma_lex_transitive(kz, kx, ky, 0);
        }
    }
}

/// No later card of `s` goes before an earlier one.
pub open spec fn cards_ordered(s: Seq<ReleaseCard>, by: ReleaseSort) -> bool {
    forall|i: int, j: int| 0 <= i < j < s.len() ==> !goes_before(#[trigger] s[j], #[trigger] s[i], by)
}

proof fn lemma_insert_ordered(s: Seq<ReleaseCard>, x: ReleaseCard, by: ReleaseSort)
    requires
        cards_ordered(s, by),
    ensures
        cards_ordered(insert_stable(s, x, by), by),
        insert_stable(s, x, by).to_multiset() == s.to_multiset().insert(x),
    decreases s.len(),
{
    s.to_multiset_ensures();
    if s.len() == 0 {
        assert(seq![x] =~= s.push(x));
    } else if goes_before(x, s.last(), by) {
        let t = s.drop_last();
        let last = s.last();
        assert(t.push(last) =~= s);
        lemma_insert_ordered(t, x, by);
        let u = insert_stable(t, x, by);
        u.to_multiset_ensures();
        t.to_multiset_ensures();
        lemma_before_asymmetric(x, last, by);
        assert forall|i: int| 0 <= i < u.len() implies !goes_before(last, #[trigger] u[i], by) by {
            assert(u.contains(u[i]));
            assert(u.to_multiset().count(u[i]) > 0);
            if u[i] != x {
                assert(t.to_multiset().count(u[i]) > 0);
                assert(t.contains(u[i]));
                let k = choose|k: int| 0 <= k < t.len() && t[k] == u[i];
                assert(s[k] == t[k]);
                assert(!goes_before(s[s.len() - 1], s[k], by));
            }
        }
        assert forall|i: int, j: int| 0 <= i < j < u.push(last).len() implies !goes_before(
            #[trigger] u.push(last)[j],
            #[trigger] u.push(last)[i],
            by,
        ) by {
            if j == u.len() {
                assert(u.push(last)[j] == last);
                assert(u.push(last)[i] == u[i]);
            } else {
                assert(u.push(last)[j] == u[j]);
                assert(u.push(last)[i] == u[i]);
            }
        }
    } else {
        let last = s.last();
        assert forall|i: int, j: int| 0 <= i < j < s.push(x).len() implies !goes_before(
            #[trigger] s.push(x)[j],
            #[trigger] s.push(x)[i],
            by,
        ) by {
            if j == s.len() {
                assert(s.push(x)[i] == s[i]);
                if i < s.len() - 1 {
                    assert(!goes_before(s[s.len() - 1], s[i], by));
                    if goes_before(x, s[i], by) {
                        lemma_before_split(x, last, s[i], by);
                    }
                }
            } else {
                assert(s.push(x)[j] == s[j]);
                assert(s.push(x)[i] == s[i]);
            }
        }
    }
}

/// The stable sort puts the cards in order: no card goes before a card
/// placed ahead of it.
pub proof fn lemma_sorted_cards_ordered(s: Seq<ReleaseCard>, by: ReleaseSort)
    ensures
        cards_ordered(sorted_cards(s, by), by),
    decreases s.len(),
{
    if s.len() > 0 {
        lemma_sorted_cards_ordered(s.drop_last(), by);
        lemma_insert_ordered(sorted_cards(s.drop_last(), by), s.last(), by);
    }
}

/// Sorting neither drops nor duplicates a card.
pub proof fn lemma_sorted_cards_permutes(s: Seq<ReleaseCard>, by: ReleaseSort)
    ensures
        sorted_cards(s, by).to_multiset() == s.to_multiset(),
    decreases s.len(),
{
    s.to_multiset_ensures();
    if s.len() > 0 {
        let t = s.drop_last();
        assert(t.push(s.last()) =~= s);
        t.to_multiset_ensures();
        lemma_sorted_cards_permutes(t, by);
        lemma_sorted_cards_ordered(t, by);
        lemma_insert_ordered(sorted_cards(t, by), s.last(), by);
    }
}

// ---------------------------------------------------------------------------
// The releases sub-view: filter, order and grouping
// ---------------------------------------------------------------------------

/// The filter of the toolbar: Hi-Res only, and the search needle in the
/// lower-cased title or artist.
pub open spec fn card_matches(c: ReleaseCard, filter_hires: bool, needle: Seq<char>) -> bool {
    &&& (!filter_hires || c.quality_tier@ == "hires"@)
    &&& (needle.len() == 0 || contains_seq(lowercase(c.title@), needle) || contains_seq(
        lowercase(c.artist@),
        needle,
    ))
}

/// The cards that pass the filter, in catalog order.
pub open spec fn matching_cards(s: Seq<ReleaseCard>, filter_hires: bool, needle: Seq<char>) -> Seq<
    ReleaseCard,
>
    decreases s.len(),
{
    if s.len() == 0 {
        s
    } else {
        let r = matching_cards(s.drop_last(), filter_hires, needle);
        if card_matches(s.last(), filter_hires, needle) {
            r.push(s.last())
        } else {
            r
        }
    }
}

/// How many cards are Hi-Res.
pub open spec fn hires_total(s: Seq<ReleaseCard>) -> nat
    decreases s.len(),
{
    if s.len() == 0 {
        0
    } else {
        hires_total(s.drop_last()) + if s.last().quality_tier@ == "hires"@ {
            1nat
        } else {
            0nat
        }
    }
}

/// The index of the first group whose artist is `key`, or -1.
pub open spec fn group_index(g: Seq<(Seq<char>, Seq<ReleaseCard>)>, key: Seq<char>) -> int
    decreases g.len(),
{
    if g.len() == 0 {
        -1
    } else {
        let k = group_index(g.drop_last(), key);
        if k >= 0 {
            k
        } else if g.last().0 == key {
            g.len() - 1
        } else {
            -1
        }
    }
}

/// One group per artist, in first-appearance order; each group keeps its
/// cards in order.
pub open spec fn group_by_artist(s: Seq<ReleaseCard>) -> Seq<(Seq<char>, Seq<ReleaseCard>)>
    decreases s.len(),
{
    if s.len() == 0 {
        Seq::empty()
    } else {
        let g = group_by_artist(s.drop_last());
        let x = s.last();
        let k = group_index(g, x.artist@);
        if k < 0 {
            g.push((x.artist@, seq![x]))
        } else {
            g.update(k, (g[k].0, g[k].1.push(x)))
        }
    }
}

pub proof fn lemma_group_index(g: Seq<(Seq<char>, Seq<ReleaseCard>)>, key: Seq<char>)
    ensures
        -1 <= group_index(g, key) < g.len(),
        group_index(g, key) == -1 ==> forall|i: int| 0 <= i < g.len() ==> (#[trigger] g[i]).0 != key,
        group_index(g, key) >= 0 ==> g[group_index(g, key)].0 == key && forall|i: int|
            0 <= i < group_index(g, key) ==> (#[trigger] g[i]).0 != key,
    decreases g.len(),
{
    if g.len() > 0 {
        lemma_group_index(g.drop_last(), key);
        let t = g.drop_last();
        assert forall|i: int| 0 <= i < t.len() implies t[i] == g[i] by {}
    }
}

/// How many cards the groups hold together.
pub open spec fn groups_size(g: Seq<(Seq<char>, Seq<ReleaseCard>)>) -> nat
    decreases g.len(),
{
    if g.len() == 0 {
        0
    } else {
        groups_size(g.drop_last()) + g.last().1.len()
    }
}

proof fn lemma_groups_size_grow(
    g: Seq<(Seq<char>, Seq<ReleaseCard>)>,
    k: int,
    x: ReleaseCard,
)
    requires
        0 <= k < g.len(),
    ensures
        groups_size(g.update(k, (g[k].0, g[k].1.push(x)))) == groups_size(g) + 1,
    decreases g.len(),
{
    let u = g.update(k, (g[k].0, g[k].1.push(x)));
    if k == g.len() - 1 {
        assert(u.drop_last() =~= g.drop_last());
    } else {
        let t = g.drop_last();
        assert(u.drop_last() =~= t.update(k, (t[k].0, t[k].1.push(x))));
        lemma_groups_size_grow(t, k, x);
    }
}

/// Grouping partitions the cards: one group per artist, none empty, each
/// holding only its artist's cards, all cards accounted for.
pub proof fn lemma_group_by_artist_partitions(s: Seq<ReleaseCard>)
    ensures
        forall|i: int, j: int|
            0 <= i < j < group_by_artist(s).len() ==> (#[trigger] group_by_artist(s)[i]).0
                != (#[trigger] group_by_artist(s)[j]).0,
        forall|i: int|
            0 <= i < group_by_artist(s).len() ==> (#[trigger] group_by_artist(s)[i]).1.len() > 0,
        forall|i: int, k: int|
            0 <= i < group_by_artist(s).len() && 0 <= k < group_by_artist(s)[i].1.len() ==> (
            #[trigger] group_by_artist(s)[i].1[k]).artist@ == group_by_artist(s)[i].0,
        groups_size(group_by_artist(s)) == s.len(),
    decreases s.len(),
{
    if s.len() > 0 {
        let t = s.drop_last();
        let x = s.last();
        lemma_group_by_artist_partitions(t);
        let g = group_by_artist(t);
        lemma_group_index(g, x.artist@);
        let k = group_index(g, x.artist@);
        if k >= 0 {
            lemma_groups_size_grow(g, k, x);
            let u = group_by_artist(s);
            assert forall|i: int, m: int|
                0 <= i < u.len() && 0 <= m < u[i].1.len() implies (#[trigger] u[i].1[m]).artist@
                == u[i].0 by {
                if i == k && m == g[k].1.len() {
                    assert(u[i].1[m] == x);
                } else if i == k {
                    assert(u[i].1[m] == g[k].1[m]);
                }
            }
        } else {
            let u = group_by_artist(s);
            assert(u.drop_last() =~= g);
        }
    }
}

/// A section of the grouped view.
#[derive(Clone, Debug, PartialEq, Eq)]
pub struct ReleaseSection {
    /// The artist the section groups by.
    pub artist: String,
    /// What the section header shows: the artist, or the "Unknown" text for
    /// cards without one.
    pub title: String,
    pub albums: Vec<ReleaseCard>,
}

pub open spec fn section_model(s: ReleaseSection) -> (Seq<char>, Seq<ReleaseCard>) {
    (s.artist@, s.albums@)
}

pub open spec fn sections_model(s: Seq<ReleaseSection>) -> Seq<(Seq<char>, Seq<ReleaseCard>)> {
    s.map_values(|x: ReleaseSection| section_model(x))
}

pub open spec fn section_title(artist: Seq<char>, unknown: Seq<char>) -> Seq<char> {
    if artist.len() == 0 {
        unknown
    } else {
        artist
    }
}

/// Group the cards by artist, sections in first-appearance order.
pub fn group_cards(cards: &Vec<ReleaseCard>, unknown_title: &str) -> (r: Vec<ReleaseSection>)
    ensures
        sections_model(r@) == group_by_artist(cards@),
        forall|k: int| 0 <= k < r@.len() ==> (#[trigger] r@[k]).title@ == section_title(
            r@[k].artist@,
            unknown_title@,
        ),
{
    let mut sections: Vec<ReleaseSection> = Vec::new();
    let mut i: usize = 0;
    while i < cards.len()
        invariant
            0 <= i <= cards@.len(),
            sections_model(sections@) == group_by_artist(cards@.take(i as int)),
            forall|k: int| 0 <= k < sections@.len() ==> (#[trigger] sections@[k]).title@
                == section_title(sections@[k].artist@, unknown_title@),
        decreases cards@.len() - i,
    {
        let x = cards[i].duplicate();
        let ghost g = sections_model(sections@);
        proof {
            lemma_group_index(g, x.artist@);
            assert(cards@.take(i + 1).drop_last() =~= cards@.take(i as int));
            assert(cards@.take(i + 1).last() == cards@[i as int]);
        }
        let mut k: usize = 0;
        while k < sections.len() && sections[k].artist != x.artist
            invariant
                0 <= k <= sections@.len(),
                g == sections_model(sections@),
                forall|m: int| 0 <= m < k ==> (#[trigger] g[m]).0 != x.artist@,
            decreases sections@.len() - k,
        {
            k = k + 1;
        }
        if k == sections.len() {
            assert(group_index(g, x.artist@) == -1);
            let title = if str_is_empty(x.artist.as_str()) {
                String::from_str(unknown_title)
            } else {
                x.artist.clone()
            };
            let artist = x.artist.clone();
            let mut albums: Vec<ReleaseCard> = Vec::new();
            albums.push(x);
            sections.push(ReleaseSection { artist, title, albums });
            proof {
                assert(sections_model(sections@) =~= g.push((x.artist@, seq![x])));
            }
        } else {
            assert(g[k as int].0 == x.artist@);
            let ghost r = group_index(g, x.artist@);
            assert(r >= 0);
            proof {
                if r < k {
                    assert(g[r].0 != x.artist@);
                }
            }
            assert(r == k);
            let mut sec = sections.remove(k);
            sec.albums.push(x);
            sections.insert(k, sec);
            proof {
                assert(sections_model(sections@) =~= g.update(k as int, (g[k as int].0, g[k as int].1.push(x))));
            }
        }
        i = i + 1;
    }
    proof {
        assert(cards@.take(i as int) =~= cards@);
    }
    sections
}

/// What the releases sub-view shows.
pub struct ReleasesView {
    /// The flat list (empty when grouped).
    pub visible: Vec<ReleaseCard>,
    /// The artist sections (empty when flat).
    pub grouped: Vec<ReleaseSection>,
    /// How many cards passed the filter.
    pub shown: u32,
    /// Hi-Res cards of the whole loaded catalog, before any filter.
    pub hires_count: u32,
}

/// The order the toolbar value selects; an empty value means "newest".
pub open spec fn effective_sort(sort_by: Seq<char>) -> ReleaseSort {
    if sort_by.len() == 0 {
        ReleaseSort::YearDesc
    } else {
        spec_release_sort(sort_by)
    }
}

/// Default order, no filter, no search, flat: the catalog is shown as loaded.
pub open spec fn is_fast_path(
    filter_hires: bool,
    needle: Seq<char>,
    sort_by: Seq<char>,
    group_by: bool,
) -> bool {
    !filter_hires && needle.len() == 0 && (sort_by.len() == 0 || sort_by == "newest"@) && !group_by
}

/// The search needle: the query trimmed and lower-cased.
pub open spec fn search_needle(query: Seq<char>) -> Seq<char> {
    lowercase(trim(query))
}

fn copy_cards(v: &Vec<ReleaseCard>) -> (r: Vec<ReleaseCard>)
    ensures
        r@ == v@,
{
    let mut r: Vec<ReleaseCard> = Vec::new();
    let mut i: usize = 0;
    while i < v.len()
        invariant
            0 <= i <= v@.len(),
            r@ == v@.take(i as int),
        decreases v@.len() - i,
    {
        r.push(v[i].duplicate());
        proof {
            assert(v@.take(i + 1) =~= v@.take(i as int).push(v@[i as int]));
        }
        i = i + 1;
    }
    proof {
        assert(v@.take(i as int) =~= v@);
    }
    r
}

fn card_matches_exec(c: &ReleaseCard, filter_hires: bool, needle: &Vec<char>) -> (r: bool)
    ensures
        r == card_matches(*c, filter_hires, needle@),
{
    if filter_hires && !str_equals(c.quality_tier.as_str(), "hires") {
        return false;
    }
    if needle.len() == 0 {
        return true;
    }
    let t = to_lowercase(c.title.as_str());
    let tc = chars_of(t.as_str());
    if contains_chars(&tc, needle) {
        return true;
    }
    let a = to_lowercase(c.artist.as_str());
    let ac = chars_of(a.as_str());
    contains_chars(&ac, needle)
}

/// `derive_releases`: the visible or grouped cards, how many passed the
/// filter, and the catalog's Hi-Res total.
pub fn derive_releases(
    albums: &Vec<ReleaseCard>,
    query: &str,
    sort_by: &str,
    filter_hires: bool,
    group_by: bool,
    unknown_title: &str,
) -> (v: ReleasesView)
    ensures
        v.hires_count == hires_total(albums@) as u32,
        is_fast_path(filter_hires, search_needle(query@), sort_by@, group_by) ==> {
            &&& v.visible@ == albums@
            &&& v.grouped@.len() == 0
            &&& v.shown == albums@.len() as u32
        },
        !is_fast_path(filter_hires, search_needle(query@), sort_by@, group_by) ==> {
            let sorted = sorted_cards(
                matching_cards(albums@, filter_hires, search_needle(query@)),
                effective_sort(sort_by@),
            );
            &&& v.shown == sorted.len() as u32
            &&& !group_by ==> v.visible@ == sorted && v.grouped@.len() == 0
            &&& group_by ==> v.visible@.len() == 0 && sections_model(v.grouped@) == group_by_artist(
                sorted,
            ) && forall|k: int|
                0 <= k < v.grouped@.len() ==> (#[trigger] v.grouped@[k]).title@ == section_title(
                    v.grouped@[k].artist@,
                    unknown_title@,
                )
        },
{
    let mut hires: usize = 0;
    let mut i: usize = 0;
    while i < albums.len()
        invariant
            0 <= i <= albums@.len(),
            hires <= i,
            hires == hires_total(albums@.take(i as int)),
        decreases albums@.len() - i,
    {
        proof {
            assert(albums@.take(i + 1).drop_last() =~= albums@.take(i as int));
        }
        if str_equals(albums[i].quality_tier.as_str(), "hires") {
            hires = hires + 1;
        }
        i = i + 1;
    }
    proof {
        assert(albums@.take(i as int) =~= albums@);
    }
    let hires_count = hires as u32;

    let trimmed = trimmed_chars(query);
    let trimmed_s = crate::text::string_from_chars(&trimmed);
    let lowered = to_lowercase(trimmed_s.as_str());
    let needle = chars_of(lowered.as_str());
    let newest = str_is_empty(sort_by) || str_equals(sort_by, "newest");
    if !filter_hires && needle.len() == 0 && newest && !group_by {
        let visible = copy_cards(albums);
        let shown = albums.len() as u32;
        return ReleasesView { visible, grouped: Vec::new(), shown, hires_count };
    }
    let by = if str_is_empty(sort_by) {
        ReleaseSort::YearDesc
    } else {
        ReleaseSort::from_str_value(sort_by)
    };
    let mut filtered: Vec<ReleaseCard> = Vec::new();
    let mut i: usize = 0;
    while i < albums.len()
        invariant
            0 <= i <= albums@.len(),
            filtered@ == matching_cards(albums@.take(i as int), filter_hires, needle@),
        decreases albums@.len() - i,
    {
        proof {
            assert(albums@.take(i + 1).drop_last() =~= albums@.take(i as int));
            assert(albums@.take(i + 1).last() == albums@[i as int]);
        }
        if card_matches_exec(&albums[i], filter_hires, &needle) {
            filtered.push(albums[i].duplicate());
        }
        i = i + 1;
    }
    proof {
        assert(albums@.take(i as int) =~= albums@);
    }
    sort_cards(&mut filtered, by);
    let shown = filtered.len() as u32;
    if !group_by {
        return ReleasesView { visible: filtered, grouped: Vec::new(), shown, hires_count };
    }
    let grouped = group_cards(&filtered, unknown_title);
    ReleasesView { visible: Vec::new(), grouped, shown, hires_count }
}

// ---------------------------------------------------------------------------
// The landing page document and the JUMP TO tabs
// ---------------------------------------------------------------------------

/// A JUMP TO tab: the section anchor and its label (a message id the
/// application translates).
#[derive(Clone, Debug, PartialEq, Eq, Default)]
pub struct JumpTab {
    pub id: String,
    pub label: String,
}

/// How many entries each landing-page section holds.
#[derive(Clone, Copy, Debug, PartialEq, Eq, Default)]
pub struct LabelSections {
    pub top_tracks: usize,
    pub releases: usize,
    pub critics: usize,
    pub playlists: usize,
    pub artists: usize,
    pub more_labels: usize,
}

/// The landing page document, as far as the page logic reads it.
#[derive(Clone, Debug, PartialEq, Eq, Default)]
pub struct LabelDoc {
    pub id: Option<u64>,
    pub name: String,
    pub image_url: String,
    pub art_path: String,
    pub description: String,
    pub description_short: String,
    pub description_truncated: bool,
    pub is_following: bool,
    pub jump_tabs: Vec<JumpTab>,
    pub sections: LabelSections,
}

pub open spec fn tab_view(t: JumpTab) -> (Seq<char>, Seq<char>) {
    (t.id@, t.label@)
}

/// The tabs of `build_jump_tabs`: "About" always, then each section that has
/// content, in page order.
pub open spec fn spec_jump_tabs(s: LabelSections) -> Seq<(Seq<char>, Seq<char>)> {
    let t0 = seq![("about"@, "About"@)];
    let t1 = if s.top_tracks > 0 { t0.push(("popular"@, "Popular Tracks"@)) } else { t0 };
    let t2 = if s.releases > 0 { t1.push(("releases"@, "Releases"@)) } else { t1 };
    let t3 = if s.critics > 0 { t2.push(("critics"@, "Critics' Picks"@)) } else { t2 };
    let t4 = if s.playlists > 0 { t3.push(("playlists"@, "Playlists"@)) } else { t3 };
    let t5 = if s.artists > 0 { t4.push(("artists"@, "Artists"@)) } else { t4 };
    if s.more_labels > 0 { t5.push(("labels"@, "More Labels"@)) } else { t5 }
}

fn tab(id: &str, label: &str) -> (t: JumpTab)
    ensures
        t.id@ == id@,
        t.label@ == label@,
{
    JumpTab { id: String::from_str(id), label: String::from_str(label) }
}

pub fn build_jump_tabs(s: &LabelSections) -> (r: Vec<JumpTab>)
    ensures
        r@.map_values(|t: JumpTab| tab_view(t)) == spec_jump_tabs(*s),
{
    let mut tabs: Vec<JumpTab> = Vec::new();
    tabs.push(tab("about", "About"));
    if s.top_tracks > 0 {
        tabs.push(tab("popular", "Popular Tracks"));
    }
    if s.releases > 0 {
        tabs.push(tab("releases", "Releases"));
    }
    if s.critics > 0 {
        tabs.push(tab("critics", "Critics' Picks"));
    }
    if s.playlists > 0 {
        tabs.push(tab("playlists", "Playlists"));
    }
    if s.artists > 0 {
        tabs.push(tab("artists", "Artists"));
    }
    if s.more_labels > 0 {
        tabs.push(tab("labels", "More Labels"));
    }
    proof {
        assert(tabs@.map_values(|t: JumpTab| tab_view(t)) =~= spec_jump_tabs(*s));
    }
    tabs
}

/// The Critics' Picks container is the one whose id mentions an award, a
/// critic or the press.
pub open spec fn is_critics_id(id: Option<Seq<char>>) -> bool {
    match id {
        Some(i) => contains_seq(lowercase(i), "award"@) || contains_seq(lowercase(i), "critic"@)
            || contains_seq(lowercase(i), "press"@),
        None => false,
    }
}

pub fn is_critics_container(id: Option<&str>) -> (r: bool)
    ensures
        r == is_critics_id(match id {
            Some(i) => Some(i@),
            None => None,
        }),
{
    match id {
        Some(i) => {
            let l = to_lowercase(i);
            let lc = chars_of(l.as_str());
            let award = chars_of("award");
            let critic = chars_of("critic");
            let press = chars_of("press");
            contains_chars(&lc, &award) || contains_chars(&lc, &critic) || contains_chars(&lc, &press)
        },
        None => false,
    }
}

pub open spec fn opt_text(o: Option<String>) -> Option<Seq<char>> {
    match o {
        Some(t) => Some(t@),
        None => None,
    }
}

/// The item count of the first release container from `i` on whose id names
/// the critics' picks, or 0 when none does.
pub open spec fn critics_from(containers: Seq<(Option<String>, usize)>, i: int) -> nat
    decreases containers.len() - i,
{
    if i < 0 || i >= containers.len() {
        0
    } else if is_critics_id(opt_text(containers[i].0)) {
        containers[i].1 as nat
    } else {
        critics_from(containers, i + 1)
    }
}

/// How many Critics' Picks the page has: the items of the first release
/// container, by id and item count, whose id names the critics' picks.
pub fn critics_count(containers: &Vec<(Option<String>, usize)>) -> (r: usize)
    ensures
        r == critics_from(containers@, 0),
{
    let mut i: usize = 0;
    while i < containers.len()
        invariant
            0 <= i <= containers@.len(),
            critics_from(containers@, 0) == critics_from(containers@, i as int),
        decreases containers@.len() - i,
    {
        let hit = match &containers[i].0 {
            Some(id) => is_critics_container(Some(id.as_str())),
            None => is_critics_container(None),
        };
        if hit {
            return containers[i].1;
        }
        i = i + 1;
    }
    0
}

/// The landing document of label `id`: its name, the logo found in its
/// image, its description and the description's short form (truncated when
/// they differ), whether the label is among the followed ones, the sections'
/// sizes and the jump tabs they call for. The cover path is filled in later.
pub fn assemble_label_doc(
    id: u64,
    name: String,
    image: Option<&Json>,
    description: String,
    description_short: String,
    follow_ids: &Vec<u64>,
    sections: LabelSections,
) -> (d: LabelDoc)
    ensures
        d.id == Some(id),
        d.name == name,
        d.image_url@ == spec_extract_label_image(opt_json(image)),
        d.art_path@.len() == 0,
        d.description == description,
        d.description_short == description_short,
        d.description_truncated == (description_short@ != description@),
        d.is_following == follow_ids@.contains(id),
        d.jump_tabs@.map_values(|t: JumpTab| tab_view(t)) == spec_jump_tabs(sections),
        d.sections == sections,
{
    let image_url = extract_label_image(image);
    let truncated = !str_equals(description_short.as_str(), description.as_str());
    let mut following = false;
    let mut i: usize = 0;
    while i < follow_ids.len()
        invariant
            0 <= i <= follow_ids@.len(),
            following == (exists|k: int| 0 <= k < i && follow_ids@[k] == id),
        decreases follow_ids@.len() - i,
    {
        if follow_ids[i] == id {
            following = true;
        }
        i = i + 1;
    }
    proof {
        if following {
            let k = choose|k: int| 0 <= k < i && follow_ids@[k] == id;
            assert(follow_ids@.contains(id));
        }
    }
    let jump_tabs = build_jump_tabs(&sections);
    LabelDoc {
        id: Some(id),
        name,
        image_url,
        art_path: String::new(),
        description,
        description_short,
        description_truncated: truncated,
        is_following: following,
        jump_tabs,
        sections,
    }
}

// ---------------------------------------------------------------------------
// The page state
// ---------------------------------------------------------------------------

/// `/label/getAlbums` page size of the releases sub-view.
pub const RELEASES_PAGE_SIZE: u32 = 500;

/// The label landing page and its releases sub-view.
pub struct LabelState {
    pub label_id: Option<u64>,
    pub doc: LabelDoc,
    pub loading: bool,
    pub generation: u64,
    /// The full loaded catalog; the visible cards derive from it.
    pub albums: Vec<ReleaseCard>,
    pub releases_offset: u32,
    pub releases_has_more: bool,
    pub releases_total: u32,
    pub releases_loading: bool,
    pub load_more_loading: bool,
    pub sort_by: String,
    pub filter_hires: bool,
    pub group_by: bool,
    pub query: String,
    pub releases_generation: u64,
    /// The popular tracks, as the queue their Play starts: their track ids.
    pub play_queue: Vec<u64>,
}

/// A document with nothing in it but the label id.
pub open spec fn is_blank_doc(d: LabelDoc, id: u64) -> bool {
    &&& d.id == Some(id)
    &&& d.name@.len() == 0
    &&& d.image_url@.len() == 0
    &&& d.art_path@.len() == 0
    &&& d.description@.len() == 0
    &&& d.description_short@.len() == 0
    &&& !d.description_truncated
    &&& !d.is_following
    &&& d.jump_tabs@.len() == 0
    &&& d.sections == LabelSections {
        top_tracks: 0,
        releases: 0,
        critics: 0,
        playlists: 0,
        artists: 0,
        more_labels: 0,
    }
}

/// The releases fields, which the landing-page operations leave alone.
pub open spec fn same_releases(a: &LabelState, b: &LabelState) -> bool {
    &&& a.albums@ == b.albums@
    &&& a.releases_offset == b.releases_offset
    &&& a.releases_has_more == b.releases_has_more
    &&& a.releases_total == b.releases_total
    &&& a.releases_loading == b.releases_loading
    &&& a.load_more_loading == b.load_more_loading
    &&& a.sort_by@ == b.sort_by@
    &&& a.filter_hires == b.filter_hires
    &&& a.group_by == b.group_by
    &&& a.query@ == b.query@
    &&& a.releases_generation == b.releases_generation
}

/// The landing-page fields, which the releases operations leave alone.
pub open spec fn same_landing(a: &LabelState, b: &LabelState) -> bool {
    &&& a.play_queue@ == b.play_queue@
    &&& a.label_id == b.label_id
    &&& a.doc == b.doc
    &&& a.loading == b.loading
    &&& a.generation == b.generation
}

/// How many releases the catalog has: the reported total, else what is loaded.
pub open spec fn page_total(offset: u32, count: nat, total: Option<u64>) -> int {
    match total {
        Some(t) => t as int,
        None => offset + count,
    }
}

/// Whether more pages follow: the reported flag, else "the page came back
/// full, or the total says so".
pub open spec fn page_has_more(offset: u32, count: nat, total: Option<u64>, has_more: Option<bool>) -> bool {
    match has_more {
        Some(h) => h,
        None => count >= RELEASES_PAGE_SIZE || page_total(offset, count, total) > offset + count,
    }
}

impl LabelState {
    pub fn new() -> (s: LabelState)
        ensures
            s.label_id is None,
            s.doc.id is None,
            !s.loading,
            s.generation == 0,
            s.albums@.len() == 0,
            s.releases_offset == 0,
            !s.releases_has_more,
            s.releases_total == 0,
            !s.releases_loading,
            !s.load_more_loading,
            s.sort_by@.len() == 0,
            !s.filter_hires,
            !s.group_by,
            s.query@.len() == 0,
            s.releases_generation == 0,
            s.play_queue@.len() == 0,
    {
        LabelState {
            label_id: None,
            doc: LabelDoc {
                id: None,
                name: String::new(),
                image_url: String::new(),
                art_path: String::new(),
                description: String::new(),
                description_short: String::new(),
                description_truncated: false,
                is_following: false,
                jump_tabs: Vec::new(),
                sections: LabelSections {
                    top_tracks: 0,
                    releases: 0,
                    critics: 0,
                    playlists: 0,
                    artists: 0,
                    more_labels: 0,
                },
            },
            loading: false,
            generation: 0,
            albums: Vec::new(),
            releases_offset: 0,
            releases_has_more: false,
            releases_total: 0,
            releases_loading: false,
            load_more_loading: false,
            sort_by: String::new(),
            filter_hires: false,
            group_by: false,
            query: String::new(),
            releases_generation: 0,
            play_queue: Vec::new(),
        }
    }

    /// Open a label's landing page. Nothing happens offline or
    /// when the trimmed id is not a `u64`; otherwise the document is cleared
    /// to the bare id, `loading` rises and a new generation is issued. The
    /// result is what the page fetch needs: that generation and the id.
    pub fn open_label(&mut self, label_id: &str, offline: bool) -> (r: Option<(u64, u64)>)
        ensures
            offline || spec_parse_u64(trim(label_id@)) is None ==> r is None && final(self).label_id
                == old(self).label_id && final(self).doc == old(self).doc && final(self).loading
                == old(self).loading && final(self).generation == old(self).generation
                && final(self).play_queue@ == old(self).play_queue@,
            !offline && spec_parse_u64(trim(label_id@)) is Some ==> {
                let id = spec_parse_u64(trim(label_id@))->0;
                &&& r == Some((wrap_next(old(self).generation), id))
                &&& final(self).generation == wrap_next(old(self).generation)
                &&& final(self).label_id == Some(id)
                &&& is_blank_doc(final(self).doc, id)
                &&& final(self).loading
                &&& final(self).play_queue@.len() == 0
            },
            same_releases(final(self), old(self)),
    {
        if offline {
            return None;
        }
        let trimmed = trimmed_chars(label_id);
        let text = string_from_chars(&trimmed);
        let id = match parse_u64(text.as_str()) {
            Some(id) => id,
            None => {
                return None;
            },
        };
        self.generation = wrapping_next(self.generation);
        self.label_id = Some(id);
        self.doc = LabelDoc {
            id: Some(id),
            name: String::new(),
            image_url: String::new(),
            art_path: String::new(),
            description: String::new(),
            description_short: String::new(),
            description_truncated: false,
            is_following: false,
            jump_tabs: Vec::new(),
            sections: LabelSections {
                top_tracks: 0,
                releases: 0,
                critics: 0,
                playlists: 0,
                artists: 0,
                more_labels: 0,
            },
        };
        self.loading = true;
        self.play_queue = Vec::new();
        Some((self.generation, id))
    }

    /// The landing page fetched for `generation` arrived, with the queue of
    /// its popular tracks. It replaces the document, with its JUMP TO tabs
    /// rebuilt, and the queue, only while that generation is current; a page
    /// of a superseded open changes nothing.
    pub fn apply_label_page(&mut self, generation: u64, doc: LabelDoc, queue: Vec<u64>) -> (applied: bool)
        ensures
            applied == (generation == old(self).generation),
            applied ==> {
                &&& final(self).doc.id == doc.id
                &&& final(self).doc.name@ == doc.name@
                &&& final(self).doc.image_url@ == doc.image_url@
                &&& final(self).doc.art_path@ == doc.art_path@
                &&& final(self).doc.description@ == doc.description@
                &&& final(self).doc.description_short@ == doc.description_short@
                &&& final(self).doc.description_truncated == doc.description_truncated
                &&& final(self).doc.is_following == doc.is_following
                &&& final(self).doc.sections == doc.sections
                &&& final(self).doc.jump_tabs@.map_values(|t: JumpTab| tab_view(t)) == spec_jump_tabs(
                    doc.sections,
                )
                &&& !final(self).loading
                &&& final(self).play_queue@ == queue@
            },
            !applied ==> final(self).doc == old(self).doc && final(self).loading == old(
                self,
            ).loading && final(self).play_queue@ == old(self).play_queue@,
            final(self).generation == old(self).generation,
            final(self).label_id == old(self).label_id,
            same_releases(final(self), old(self)),
    {
        if generation != self.generation {
            return false;
        }
        let mut doc = doc;
        doc.jump_tabs = build_jump_tabs(&doc.sections);
        self.doc = doc;
        self.loading = false;
        self.play_queue = queue;
        true
    }

    /// The landing-page fetch for `generation` failed: `loading` falls if that
    /// generation is still current.
    pub fn fail_label_page(&mut self, generation: u64) -> (applied: bool)
        ensures
            applied == (generation == old(self).generation),
            applied ==> !final(self).loading,
            !applied ==> final(self).loading == old(self).loading,
            final(self).doc == old(self).doc,
            final(self).play_queue@ == old(self).play_queue@,
            final(self).generation == old(self).generation,
            final(self).label_id == old(self).label_id,
            same_releases(final(self), old(self)),
    {
        if generation != self.generation {
            return false;
        }
        self.loading = false;
        true
    }

    /// The header's Follow button: on a page with a label,
    /// the follow flag flips at once, and the label id and the new flag are
    /// returned for the favourite write; without a label nothing happens.
    pub fn toggle_follow(&mut self) -> (r: Option<(u64, bool)>)
        ensures
            old(self).doc.id is None ==> r is None && final(self).doc == old(self).doc,
            old(self).doc.id matches Some(id) ==> {
                &&& r == Some((id, !old(self).doc.is_following))
                &&& final(self).doc == (LabelDoc { is_following: !old(self).doc.is_following, ..old(self).doc })
            },
            final(self).play_queue@ == old(self).play_queue@,
            final(self).generation == old(self).generation,
            final(self).label_id == old(self).label_id,
            final(self).loading == old(self).loading,
            same_releases(final(self), old(self)),
    {
        match self.doc.id {
            Some(id) => {
                let next = !self.doc.is_following;
                self.doc.is_following = next;
                Some((id, next))
            },
            None => None,
        }
    }

    /// The favourite write of a Follow toggle to `next` on label `id` failed:
    /// the flag goes back, if that label is still on the page.
    pub fn follow_failed(&mut self, id: u64, next: bool)
        ensures
            old(self).doc.id == Some(id) ==> final(self).doc == (LabelDoc { is_following: !next, ..old(self).doc }),
            old(self).doc.id != Some(id) ==> final(self).doc == old(self).doc,
            final(self).play_queue@ == old(self).play_queue@,
            final(self).generation == old(self).generation,
            final(self).label_id == old(self).label_id,
            final(self).loading == old(self).loading,
            same_releases(final(self), old(self)),
    {
        if self.doc.id == Some(id) {
            self.doc.is_following = !next;
        }
    }

    /// Rebuild the translated strings after a language change: the JUMP TO
    /// tabs are derived again from the sections.
    pub fn republish_for_language(&mut self)
        ensures
            final(self).doc.jump_tabs@.map_values(|t: JumpTab| tab_view(t)) == spec_jump_tabs(
                old(self).doc.sections,
            ),
            final(self).doc == (LabelDoc { jump_tabs: final(self).doc.jump_tabs, ..old(self).doc }),
            final(self).loading == old(self).loading,
            final(self).play_queue@ == old(self).play_queue@,
            final(self).generation == old(self).generation,
            final(self).label_id == old(self).label_id,
            same_releases(final(self), old(self)),
    {
        let tabs = build_jump_tabs(&self.doc.sections);
        self.doc.jump_tabs = tabs;
    }

    /// "View all": the toolbar returns to its defaults for a
    /// fresh catalog load. Nothing happens offline or before a label is open.
    pub fn open_releases(&mut self, offline: bool) -> (r: Option<(u64, u64)>)
        ensures
            offline || old(self).label_id is None ==> r is None && same_releases(
                final(self),
                old(self),
            ),
            !offline && old(self).label_id is Some ==> {
                &&& r == Some(
                    (wrap_next(old(self).releases_generation), old(self).label_id->0),
                )
                &&& final(self).releases_generation == wrap_next(old(self).releases_generation)
                &&& final(self).albums@.len() == 0
                &&& final(self).releases_offset == 0
                &&& !final(self).releases_has_more
                &&& final(self).releases_total == 0
                &&& final(self).releases_loading
                &&& !final(self).load_more_loading
                &&& final(self).sort_by@ == "newest"@
                &&& !final(self).filter_hires
                &&& !final(self).group_by
                &&& final(self).query@.len() == 0
            },
            same_landing(final(self), old(self)),
    {
        if offline {
            return None;
        }
        let id = match self.label_id {
            Some(id) => id,
            None => {
                return None;
            },
        };
        self.releases_generation = wrapping_next(self.releases_generation);
        self.albums = Vec::new();
        self.releases_offset = 0;
        self.releases_has_more = false;
        self.releases_total = 0;
        self.releases_loading = true;
        self.load_more_loading = false;
        self.sort_by = String::from_str("newest");
        self.filter_hires = false;
        self.group_by = false;
        self.query = String::new();
        Some((self.releases_generation, id))
    }

    /// "Load more": only when a next page exists and no load is under way.
    pub fn releases_load_more(&mut self) -> (r: Option<(u64, u64)>)
        ensures
            old(self).releases_loading || old(self).load_more_loading || !old(
                self,
            ).releases_has_more || old(self).label_id is None ==> r is None && same_releases(
                final(self),
                old(self),
            ),
            !(old(self).releases_loading || old(self).load_more_loading || !old(
                self,
            ).releases_has_more || old(self).label_id is None) ==> {
                &&& r == Some((old(self).releases_generation, old(self).label_id->0))
                &&& final(self).load_more_loading
                &&& final(self).albums@ == old(self).albums@
                &&& final(self).releases_offset == old(self).releases_offset
                &&& final(self).releases_has_more == old(self).releases_has_more
                &&& final(self).releases_total == old(self).releases_total
                &&& final(self).releases_loading == old(self).releases_loading
                &&& final(self).sort_by@ == old(self).sort_by@
                &&& final(self).filter_hires == old(self).filter_hires
                &&& final(self).group_by == old(self).group_by
                &&& final(self).query@ == old(self).query@
                &&& final(self).releases_generation == old(self).releases_generation
            },
            same_landing(final(self), old(self)),
    {
        if self.releases_loading || self.load_more_loading || !self.releases_has_more {
            return None;
        }
        let id = match self.label_id {
            Some(id) => id,
            None => {
                return None;
            },
        };
        self.load_more_loading = true;
        Some((self.releases_generation, id))
    }

    pub fn releases_set_sort(&mut self, sort: String)
        ensures
            final(self).sort_by@ == sort@,
            final(self).albums@ == old(self).albums@,
            final(self).filter_hires == old(self).filter_hires,
            final(self).group_by == old(self).group_by,
            final(self).query@ == old(self).query@,
            same_landing(final(self), old(self)),
    {
        self.sort_by = sort;
    }

    pub fn releases_set_hires(&mut self, on: bool)
        ensures
            final(self).filter_hires == on,
            final(self).albums@ == old(self).albums@,
            final(self).sort_by@ == old(self).sort_by@,
            final(self).group_by == old(self).group_by,
            final(self).query@ == old(self).query@,
            same_landing(final(self), old(self)),
    {
        self.filter_hires = on;
    }

    pub fn releases_set_group(&mut self, on: bool)
        ensures
            final(self).group_by == on,
            final(self).albums@ == old(self).albums@,
            final(self).sort_by@ == old(self).sort_by@,
            final(self).filter_hires == old(self).filter_hires,
            final(self).query@ == old(self).query@,
            same_landing(final(self), old(self)),
    {
        self.group_by = on;
    }

    pub fn releases_search(&mut self, query: String)
        ensures
            final(self).query@ == query@,
            final(self).albums@ == old(self).albums@,
            final(self).sort_by@ == old(self).sort_by@,
            final(self).filter_hires == old(self).filter_hires,
            final(self).group_by == old(self).group_by,
            same_landing(final(self), old(self)),
    {
        self.query = query;
    }

    /// A releases page fetched at `offset` for `generation` arrived. While that
    /// generation is current its cards are appended and the paging moves on;
    /// a page of a superseded load changes nothing.
    pub fn apply_releases_page(
        &mut self,
        generation: u64,
        offset: u32,
        cards: Vec<ReleaseCard>,
        total: Option<u64>,
        has_more: Option<bool>,
    ) -> (applied: bool)
        ensures
            applied == (generation == old(self).releases_generation),
            applied ==> {
                let count = cards@.len();
                &&& final(self).albums@ == old(self).albums@ + cards@
                &&& final(self).releases_offset == offset.saturating_add(count as u32)
                &&& final(self).releases_total == page_total(offset, count, total) as u32
                &&& final(self).releases_has_more == (page_has_more(offset, count, total, has_more)
                    && count > 0)
                &&& !final(self).releases_loading
                &&& !final(self).load_more_loading
            },
            !applied ==> same_releases(final(self), old(self)),
            final(self).sort_by@ == old(self).sort_by@,
            final(self).filter_hires == old(self).filter_hires,
            final(self).group_by == old(self).group_by,
            final(self).query@ == old(self).query@,
            final(self).releases_generation == old(self).releases_generation,
            same_landing(final(self), old(self)),
    {
        if generation != self.releases_generation {
            return false;
        }
        let count = cards.len();
        let loaded: u128 = offset as u128 + count as u128;
        let tot: u128 = match total {
            Some(t) => t as u128,
            None => loaded,
        };
        let more = match has_more {
            Some(h) => h,
            None => count >= 500 || tot > loaded,
        };
        let mut cards = cards;
        self.albums.append(&mut cards);
        self.releases_offset = offset.saturating_add(count as u32);
        self.releases_total = tot as u32;
        self.releases_has_more = more && count > 0;
        self.releases_loading = false;
        self.load_more_loading = false;
        true
    }

    /// The releases fetch for `generation` failed: loading stops and no more
    /// pages are offered, if that generation is still current.
    pub fn fail_releases_page(&mut self, generation: u64) -> (applied: bool)
        ensures
            applied == (generation == old(self).releases_generation),
            applied ==> !final(self).releases_loading && !final(self).load_more_loading
                && !final(self).releases_has_more,
            !applied ==> same_releases(final(self), old(self)),
            final(self).albums@ == old(self).albums@,
            final(self).releases_offset == old(self).releases_offset,
            final(self).releases_total == old(self).releases_total,
            final(self).releases_generation == old(self).releases_generation,
            same_landing(final(self), old(self)),
    {
        if generation != self.releases_generation {
            return false;
        }
        self.releases_loading = false;
        self.load_more_loading = false;
        self.releases_has_more = false;
        true
    }

    /// The releases sub-view of the current toolbar state.
    pub fn releases_view(&self, unknown_title: &str) -> (v: ReleasesView)
        ensures
            v.hires_count == hires_total(self.albums@) as u32,
            is_fast_path(self.filter_hires, search_needle(self.query@), self.sort_by@, self.group_by)
                ==> v.visible@ == self.albums@ && v.grouped@.len() == 0 && v.shown
                == self.albums@.len() as u32,
            !is_fast_path(self.filter_hires, search_needle(self.query@), self.sort_by@, self.group_by)
                ==> {
                let sorted = sorted_cards(
                    matching_cards(self.albums@, self.filter_hires, search_needle(self.query@)),
                    effective_sort(self.sort_by@),
                );
                &&& v.shown == sorted.len() as u32
                &&& !self.group_by ==> v.visible@ == sorted && v.grouped@.len() == 0
                &&& self.group_by ==> v.visible@.len() == 0 && sections_model(v.grouped@)
                    == group_by_artist(sorted)
            },
    {
        derive_releases(
            &self.albums,
            self.query.as_str(),
            self.sort_by.as_str(),
            self.filter_hires,
            self.group_by,
            unknown_title,
        )
    }
}


/// The first position of `id` in the popular tracks' ids, or none.
pub open spec fn queue_position(ids: Seq<u64>, id: u64) -> Option<int>
    decreases ids.len(),
{
    if ids.len() == 0 {
        None
    } else {
        match queue_position(ids.drop_last(), id) {
            Some(k) => Some(k),
            None => if ids.last() == id {
                Some(ids.len() - 1)
            } else {
                None
            },
        }
    }
}

/// The position of `id` in the queue, or the top when it is not there.
pub open spec fn play_start(ids: Seq<u64>, id: u64) -> int {
    match queue_position(ids, id) {
        Some(p) => p,
        None => 0,
    }
}

/// Where playing the popular track `track_id` starts in the queue of the
/// popular tracks `queue_ids`: at that track, or at the top
/// when it is not in the queue. Nothing plays for an id that is not a
/// number, or an empty queue.
pub fn label_play_start(queue_ids: &Vec<u64>, track_id: &str) -> (r: Option<usize>)
    ensures
        spec_parse_u64(track_id@) is None || queue_ids@.len() == 0 ==> r is None,
        spec_parse_u64(track_id@) is Some && queue_ids@.len() > 0 ==> r is Some && r->0 == play_start(
            queue_ids@,
            spec_parse_u64(track_id@)->0,
        ),
{
    let wanted = match parse_u64(track_id) {
        Some(w) => w,
        None => return None,
    };
    if queue_ids.len() == 0 {
        return None;
    }
    let mut k: usize = 0;
    while k < queue_ids.len()
        invariant
            0 <= k <= queue_ids@.len(),
            queue_ids@.len() > 0,
            spec_parse_u64(track_id@) == Some(wanted),
            queue_position(queue_ids@.take(k as int), wanted) is None,
        decreases queue_ids@.len() - k,
    {
        proof {
            assert(queue_ids@.take(k + 1).drop_last() =~= queue_ids@.take(k as int));
        }
        if queue_ids[k] == wanted {
            proof {
                lemma_queue_position_prefix(queue_ids@, wanted, k as int + 1);
            }
            return Some(k);
        }
        k = k + 1;
    }
    proof {
        assert(queue_ids@.take(k as int) =~= queue_ids@);
    }
    Some(0)
}

proof fn lemma_queue_position_prefix(ids: Seq<u64>, id: u64, n: int)
    requires
        0 <= n <= ids.len(),
        queue_position(ids.take(n), id) is Some,
    ensures
        queue_position(ids, id) == queue_position(ids.take(n), id),
    decreases ids.len() - n,
{
    if n < ids.len() {
        assert(ids.take(n + 1).drop_last() =~= ids.take(n));
        lemma_queue_position_prefix(ids, id, n + 1);
    } else {
        assert(ids.take(n) =~= ids);
    }
}

proof fn lemma_matching_keeps(s: Seq<ReleaseCard>, filter_hires: bool, needle: Seq<char>, k: int)
    requires
        0 <= k < s.len(),
        card_matches(s[k], filter_hires, needle),
    ensures
        matching_cards(s, filter_hires, needle).contains(s[k]),
    decreases s.len(),
{
    let r = matching_cards(s.drop_last(), filter_hires, needle);
    if k == s.len() - 1 {
        assert(matching_cards(s, filter_hires, needle)[r.len() as int] == s[k]);
    } else {
        assert(s.drop_last()[k] == s[k]);
        lemma_matching_keeps(s.drop_last(), filter_hires, needle, k);
        let j = choose|j: int| 0 <= j < r.len() && r[j] == s[k];
        if card_matches(s.last(), filter_hires, needle) {
            assert(r.push(s.last())[j] == s[k]);
        }
    }
}

proof fn lemma_matching_only(s: Seq<ReleaseCard>, filter_hires: bool, needle: Seq<char>, c: ReleaseCard)
    requires
        matching_cards(s, filter_hires, needle).contains(c),
    ensures
        card_matches(c, filter_hires, needle),
    decreases s.len(),
{
    let r = matching_cards(s.drop_last(), filter_hires, needle);
    if r.contains(c) {
        lemma_matching_only(s.drop_last(), filter_hires, needle, c);
    } else {
        let j = choose|j: int|
            0 <= j < matching_cards(s, filter_hires, needle).len() && matching_cards(s, filter_hires, needle)[j]
                == c;
        if card_matches(s.last(), filter_hires, needle) && j < r.len() {
            assert(r[j] == c);
        }
    }
}

proof fn lemma_sorted_contains(s: Seq<ReleaseCard>, by: ReleaseSort, c: ReleaseCard)
    ensures
        sorted_cards(s, by).contains(c) == s.contains(c),
{
    lemma_sorted_cards_permutes(s, by);
    s.to_multiset_ensures();
    sorted_cards(s, by).to_multiset_ensures();
    assert(s.to_multiset().count(c) == sorted_cards(s, by).to_multiset().count(c));
}

/// A search finds a card by its title or its artist: without the Hi-Res
/// filter, a card whose lower-cased title or artist contains the needle is
/// among the cards shown, in any order.
pub proof fn lemma_search_finds_title_or_artist(
    albums: Seq<ReleaseCard>,
    k: int,
    needle: Seq<char>,
    by: ReleaseSort,
)
    requires
        0 <= k < albums.len(),
        contains_seq(lowercase(albums[k].title@), needle) || contains_seq(lowercase(albums[k].artist@), needle),
    ensures
        sorted_cards(matching_cards(albums, false, needle), by).contains(albums[k]),
{
    lemma_matching_keeps(albums, false, needle, k);
    lemma_sorted_contains(matching_cards(albums, false, needle), by, albums[k]);
}

/// A search hides what it does not find: a card whose lower-cased title and
/// artist both lack a non-empty needle is not shown.
pub proof fn lemma_search_hides_the_rest(
    albums: Seq<ReleaseCard>,
    c: ReleaseCard,
    filter_hires: bool,
    needle: Seq<char>,
    by: ReleaseSort,
)
    requires
        needle.len() > 0,
        !contains_seq(lowercase(c.title@), needle),
        !contains_seq(lowercase(c.artist@), needle),
    ensures
        !sorted_cards(matching_cards(albums, filter_hires, needle), by).contains(c),
{
    lemma_sorted_contains(matching_cards(albums, filter_hires, needle), by, c);
    if matching_cards(albums, filter_hires, needle).contains(c) {
        lemma_matching_only(albums, filter_hires, needle, c);
    }
}

/// The Hi-Res filter shows Hi-Res cards only, and every Hi-Res card the
/// search finds.
pub proof fn lemma_hires_filter_shows_hires_only(
    albums: Seq<ReleaseCard>,
    k: int,
    c: ReleaseCard,
    needle: Seq<char>,
    by: ReleaseSort,
)
    requires
        0 <= k < albums.len(),
    ensures
        c.quality_tier@ != "hires"@ ==> !sorted_cards(matching_cards(albums, true, needle), by).contains(c),
        albums[k].quality_tier@ == "hires"@ && (needle.len() == 0 || contains_seq(
            lowercase(albums[k].title@),
            needle,
        ) || contains_seq(lowercase(albums[k].artist@), needle)) ==> sorted_cards(
            matching_cards(albums, true, needle),
            by,
        ).contains(albums[k]),
{
    lemma_sorted_contains(matching_cards(albums, true, needle), by, c);
    if matching_cards(albums, true, needle).contains(c) {
        lemma_matching_only(albums, true, needle, c);
    }
    lemma_sorted_contains(matching_cards(albums, true, needle), by, albums[k]);
    if card_matches(albums[k], true, needle) {
        lemma_matching_keeps(albums, true, needle, k);
    }
}

} // verus!
