use vstd::prelude::*;
use crate::text::{
    ascii_lower_seq, chars_lt, chars_of, chars_to_ascii_lower, lemma_lex_irreflexive, lemma_lex_total, lemma_lex_transitive,
    lex_lt,
    str_equals,
};

verus! {

// ---------------------------------------------------------------------------
// Rows, sources and orders
// ---------------------------------------------------------------------------

/// One candidate row of the Tracks tab, as the page merge reads it.
#[derive(Clone, Debug, PartialEq, Eq)]
pub struct PageTrack {
    pub id: i64,
    pub title: String,
    pub artist: String,
    pub album_artist: Option<String>,
    pub album: String,
    pub disc_number: Option<u32>,
    pub track_number: Option<u32>,
    pub year: Option<u32>,
    pub indexed_at: i64,
    pub file_path: String,
}

impl PageTrack {
    pub fn duplicate(&self) -> (r: PageTrack)
        ensures
            r == *self,
    {
        PageTrack {
            id: self.id,
            title: self.title.clone(),
            artist: self.artist.clone(),
            album_artist: match &self.album_artist {
                Some(a) => Some(a.clone()),
                None => None,
            },
            album: self.album.clone(),
            disc_number: self.disc_number,
            track_number: self.track_number,
            year: self.year,
            indexed_at: self.indexed_at,
            file_path: self.file_path.clone(),
        }
    }
}

/// The catalog a candidate page came from, in tie-break order.
#[derive(Debug, Clone, Copy, PartialEq, Eq, Structural)]
pub enum TrackSourcePage {
    Local,
    Plex,
    Jellyfin,
    Subsonic,
}

pub open spec fn source_rank(s: TrackSourcePage) -> int {
    match s {
        TrackSourcePage::Local => 0,
        TrackSourcePage::Plex => 1,
        TrackSourcePage::Jellyfin => 2,
        TrackSourcePage::Subsonic => 3,
    }
}

/// The orders of the Tracks tab.
#[derive(Debug, Clone, Copy, PartialEq, Eq, Structural)]
pub enum TrackSort {
    TitleAsc,
    TitleDesc,
    ArtistAsc,
    ArtistDesc,
    GroupArtist,
    YearDesc,
    YearAsc,
    AddedDesc,
    /// Album, then album artist, disc, track and title.
    Default,
}

pub open spec fn spec_track_sort(s: Seq<char>) -> TrackSort {
    if s == "title-asc"@ {
        TrackSort::TitleAsc
    } else if s == "title-desc"@ {
        TrackSort::TitleDesc
    } else if s == "artist-asc"@ {
        TrackSort::ArtistAsc
    } else if s == "artist-desc"@ {
        TrackSort::ArtistDesc
    } else if s == "group-artist"@ {
        TrackSort::GroupArtist
    } else if s == "year-desc"@ {
        TrackSort::YearDesc
    } else if s == "year-asc"@ {
        TrackSort::YearAsc
    } else if s == "added-desc"@ {
        TrackSort::AddedDesc
    } else {
        TrackSort::Default
    }
}

impl TrackSort {
    pub fn from_str_value(s: &str) -> (r: TrackSort)
        ensures
            r == spec_track_sort(s@),
    {
        if str_equals(s, "title-asc") {
            TrackSort::TitleAsc
        } else if str_equals(s, "title-desc") {
            TrackSort::TitleDesc
        } else if str_equals(s, "artist-asc") {
            TrackSort::ArtistAsc
        } else if str_equals(s, "artist-desc") {
            TrackSort::ArtistDesc
        } else if str_equals(s, "group-artist") {
            TrackSort::GroupArtist
        } else if str_equals(s, "year-desc") {
            TrackSort::YearDesc
        } else if str_equals(s, "year-asc") {
            TrackSort::YearAsc
        } else if str_equals(s, "added-desc") {
            TrackSort::AddedDesc
        } else {
            TrackSort::Default
        }
    }
}

/// The order a grouping imposes: album grouping
/// uses the default order, artist grouping the performing artist, name
/// grouping the title; without grouping the chosen order stands.
pub open spec fn spec_effective_sort(sort: Seq<char>, group: Seq<char>) -> Seq<char> {
    if group == "album"@ {
        "default"@
    } else if group == "artist"@ {
        "group-artist"@
    } else if group == "name"@ {
        "title-asc"@
    } else {
        sort
    }
}

pub fn effective_tracks_sort<'a>(sort: &'a str, group: &str) -> (r: &'a str)
    ensures
        r@ == spec_effective_sort(sort@, group@),
{
    if str_equals(group, "album") {
        "default"
    } else if str_equals(group, "artist") {
        "group-artist"
    } else if str_equals(group, "name") {
        "title-asc"
    } else {
        sort
    }
}

// ---------------------------------------------------------------------------
// The comparator: -1, 0 or 1
// ---------------------------------------------------------------------------

/// Three-way comparison of texts.
pub open spec fn ord_text(a: Seq<char>, b: Seq<char>) -> int {
    if lex_lt(a, b) {
        -1
    } else if lex_lt(b, a) {
        1
    } else {
        0
    }
}

/// ASCII-case-insensitive comparison, as SQLite's NOCASE folds.
pub open spec fn ord_nocase(a: Seq<char>, b: Seq<char>) -> int {
    ord_text(ascii_lower_seq(a), ascii_lower_seq(b))
}

pub open spec fn ord_int(a: int, b: int) -> int {
    if a < b {
        -1
    } else if a > b {
        1
    } else {
        0
    }
}

/// `Option` order: nothing before something.
pub open spec fn ord_opt(a: Option<u32>, b: Option<u32>) -> int {
    match (a, b) {
        (None, None) => 0,
        (None, Some(_)) => -1,
        (Some(_), None) => 1,
        (Some(x), Some(y)) => ord_int(x as int, y as int),
    }
}

pub open spec fn then(first: int, next: int) -> int {
    if first != 0 {
        first
    } else {
        next
    }
}

pub open spec fn artist_key(t: PageTrack) -> Seq<char> {
    match t.album_artist {
        Some(a) => a@,
        None => t.artist@,
    }
}

pub open spec fn album_tail(a: PageTrack, b: PageTrack) -> int {
    then(
        ord_nocase(a.album@, b.album@),
        then(ord_opt(a.disc_number, b.disc_number), ord_opt(a.track_number, b.track_number)),
    )
}

/// Years: known years first, in the asked direction.
pub open spec fn year_ord(a: PageTrack, b: PageTrack, desc: bool) -> int {
    match (a.year, b.year) {
        (None, None) => 0,
        (None, Some(_)) => 1,
        (Some(_), None) => -1,
        (Some(ya), Some(yb)) => if desc {
            ord_int(yb as int, ya as int)
        } else {
            ord_int(ya as int, yb as int)
        },
    }
}

/// `compare_tracks`: the order every source query's ORDER BY follows.
pub open spec fn spec_compare_tracks(a: PageTrack, b: PageTrack, sort: TrackSort) -> int {
    match sort {
        TrackSort::TitleAsc => then(ord_nocase(a.title@, b.title@), ord_nocase(a.artist@, b.artist@)),
        TrackSort::TitleDesc => then(ord_nocase(b.title@, a.title@), ord_nocase(a.artist@, b.artist@)),
        TrackSort::ArtistAsc => then(ord_nocase(artist_key(a), artist_key(b)), album_tail(a, b)),
        TrackSort::ArtistDesc => then(ord_nocase(artist_key(b), artist_key(a)), album_tail(a, b)),
        TrackSort::GroupArtist => then(
            ord_nocase(a.artist@, b.artist@),
            then(ord_nocase(a.album@, b.album@), ord_nocase(a.title@, b.title@)),
        ),
        TrackSort::YearDesc => then(year_ord(a, b, true), album_tail(a, b)),
        TrackSort::YearAsc => then(year_ord(a, b, false), album_tail(a, b)),
        TrackSort::AddedDesc => then(ord_int(b.indexed_at as int, a.indexed_at as int), album_tail(a, b)),
        TrackSort::Default => then(
            ord_nocase(a.album@, b.album@),
            then(
                ord_nocase(artist_key(a), artist_key(b)),
                then(
                    ord_opt(a.disc_number, b.disc_number),
                    then(ord_opt(a.track_number, b.track_number), ord_nocase(a.title@, b.title@)),
                ),
            ),
        ),
    }
}

fn text_ord(a: &Vec<char>, b: &Vec<char>) -> (r: i8)
    ensures
        r == ord_text(a@, b@),
{
    if chars_lt(a, b) {
        -1
    } else if chars_lt(b, a) {
        1
    } else {
        0
    }
}

fn nocase(a: &str, b: &str) -> (r: i8)
    ensures
        r == ord_nocase(a@, b@),
{
    let x = chars_of(a);
    let y = chars_of(b);
    let lx = chars_to_ascii_lower(&x);
    let ly = chars_to_ascii_lower(&y);
    text_ord(&lx, &ly)
}

fn int_ord(a: i64, b: i64) -> (r: i8)
    ensures
        r == ord_int(a as int, b as int),
{
    if a < b {
        -1
    } else if a > b {
        1
    } else {
        0
    }
}

fn opt_ord(a: Option<u32>, b: Option<u32>) -> (r: i8)
    ensures
        r == ord_opt(a, b),
{
    match (a, b) {
        (None, None) => 0,
        (None, Some(_)) => -1,
        (Some(_), None) => 1,
        (Some(x), Some(y)) => if x < y {
            -1
        } else if x > y {
            1
        } else {
            0
        },
    }
}

fn artist_key_of(t: &PageTrack) -> (r: &str)
    ensures
        r@ == artist_key(*t),
{
    match &t.album_artist {
        Some(a) => a.as_str(),
        None => t.artist.as_str(),
    }
}

fn album_tail_ord(a: &PageTrack, b: &PageTrack) -> (r: i8)
    ensures
        r == album_tail(*a, *b),
{
    let c = nocase(a.album.as_str(), b.album.as_str());
    if c != 0 {
        return c;
    }
    let d = opt_ord(a.disc_number, b.disc_number);
    if d != 0 {
        return d;
    }
    opt_ord(a.track_number, b.track_number)
}

fn year_ord_exec(a: &PageTrack, b: &PageTrack, desc: bool) -> (r: i8)
    ensures
        r == year_ord(*a, *b, desc),
{
    match (a.year, b.year) {
        (None, None) => 0,
        (None, Some(_)) => 1,
        (Some(_), None) => -1,
        (Some(ya), Some(yb)) => {
            let (x, y) = if desc {
                (yb, ya)
            } else {
                (ya, yb)
            };
            if x < y {
                -1
            } else if x > y {
                1
            } else {
                0
            }
        },
    }
}

pub fn compare_tracks(a: &PageTrack, b: &PageTrack, sort: TrackSort) -> (r: i8)
    ensures
        r == spec_compare_tracks(*a, *b, sort),
{
    match sort {
        TrackSort::TitleAsc => {
            let c = nocase(a.title.as_str(), b.title.as_str());
            if c != 0 {
                c
            } else {
                nocase(a.artist.as_str(), b.artist.as_str())
            }
        },
        TrackSort::TitleDesc => {
            let c = nocase(b.title.as_str(), a.title.as_str());
            if c != 0 {
                c
            } else {
                nocase(a.artist.as_str(), b.artist.as_str())
            }
        },
        TrackSort::ArtistAsc => {
            let c = nocase(artist_key_of(a), artist_key_of(b));
            if c != 0 {
                c
            } else {
                album_tail_ord(a, b)
            }
        },
        TrackSort::ArtistDesc => {
            let c = nocase(artist_key_of(b), artist_key_of(a));
            if c != 0 {
                c
            } else {
                album_tail_ord(a, b)
            }
        },
        TrackSort::GroupArtist => {
            let c = nocase(a.artist.as_str(), b.artist.as_str());
            if c != 0 {
                return c;
            }
            let d = nocase(a.album.as_str(), b.album.as_str());
            if d != 0 {
                return d;
            }
            nocase(a.title.as_str(), b.title.as_str())
        },
        TrackSort::YearDesc => {
            let c = year_ord_exec(a, b, true);
            if c != 0 {
                c
            } else {
                album_tail_ord(a, b)
            }
        },
        TrackSort::YearAsc => {
            let c = year_ord_exec(a, b, false);
            if c != 0 {
                c
            } else {
                album_tail_ord(a, b)
            }
        },
        TrackSort::AddedDesc => {
            let c = int_ord(b.indexed_at, a.indexed_at);
            if c != 0 {
                c
            } else {
                album_tail_ord(a, b)
            }
        },
        TrackSort::Default => {
            let c = nocase(a.album.as_str(), b.album.as_str());
            if c != 0 {
                return c;
            }
            let d = nocase(artist_key_of(a), artist_key_of(b));
            if d != 0 {
                return d;
            }
            let e = opt_ord(a.disc_number, b.disc_number);
            if e != 0 {
                return e;
            }
            let f = opt_ord(a.track_number, b.track_number);
            if f != 0 {
                return f;
            }
            nocase(a.title.as_str(), b.title.as_str())
        },
    }
}

// ---------------------------------------------------------------------------
// The bounded merge of the per-source candidate pages
// ---------------------------------------------------------------------------

/// One source's candidate rows (one page plus a look-ahead row).
pub struct CandidatePage {
    pub source: TrackSourcePage,
    pub rows: Vec<PageTrack>,
}

/// Rows per source.
#[derive(Debug, Clone, Copy, PartialEq, Eq, Default)]
pub struct TrackSourceCounts {
    pub local: usize,
    pub plex: usize,
    pub jellyfin: usize,
    pub subsonic: usize,
}

/// One globally ordered page and how many rows each source gave to it.
pub struct MergedTrackPage {
    pub rows: Vec<PageTrack>,
    /// Rows taken from each source: where each source's next page starts.
    pub consumed: TrackSourceCounts,
    /// Rows of each source on this page.
    pub published: TrackSourceCounts,
    pub has_more: bool,
}

pub type Tagged = (TrackSourcePage, PageTrack);

pub open spec fn page_view(p: CandidatePage) -> Seq<Tagged> {
    Seq::new(p.rows@.len(), |i: int| (p.source, p.rows@[i]))
}

/// All candidates, page after page, each tagged with its source.
pub open spec fn tagged(pages: Seq<CandidatePage>) -> Seq<Tagged>
    decreases pages.len(),
{
    if pages.len() == 0 {
        Seq::empty()
    } else {
        tagged(pages.drop_last()) + page_view(pages.last())
    }
}

/// The merge order: the sort's order, then the source, then the source's
/// own identity (Plex by file path, the others by id), then the file path.
pub open spec fn candidate_ord(x: Tagged, y: Tagged, sort: TrackSort) -> int {
    then(
        spec_compare_tracks(x.1, y.1, sort),
        then(
            ord_int(source_rank(x.0), source_rank(y.0)),
            then(
                if x.0 == TrackSourcePage::Plex {
                    ord_text(x.1.file_path@, y.1.file_path@)
                } else {
                    ord_int(x.1.id as int, y.1.id as int)
                },
                ord_text(x.1.file_path@, y.1.file_path@),
            ),
        ),
    )
}

pub open spec fn insert_candidate(s: Seq<Tagged>, x: Tagged, sort: TrackSort) -> Seq<Tagged>
    decreases s.len(),
{
    if s.len() == 0 {
        seq![x]
    } else if candidate_ord(x, s.last(), sort) < 0 {
        insert_candidate(s.drop_last(), x, sort).push(s.last())
    } else {
        s.push(x)
    }
}

/// The stable sort of the candidates.
pub open spec fn sorted_candidates(s: Seq<Tagged>, sort: TrackSort) -> Seq<Tagged>
    decreases s.len(),
{
    if s.len() == 0 {
        s
    } else {
        insert_candidate(sorted_candidates(s.drop_last(), sort), s.last(), sort)
    }
}

proof fn lemma_insert_candidate_at(s: Seq<Tagged>, x: Tagged, sort: TrackSort, j: int)
    requires
        0 <= j <= s.len(),
        forall|k: int| j <= k < s.len() ==> candidate_ord(x, #[trigger] s[k], sort) < 0,
        j == 0 || candidate_ord(x, s[j - 1], sort) >= 0,
    ensures
        insert_candidate(s, x, sort) == s.take(j).push(x) + s.skip(j),
    decreases s.len(),
{
    if s.len() == 0 {
        assert(s.take(j).push(x) + s.skip(j) =~= seq![x]);
    } else if j == s.len() {
        assert(s.take(j) =~= s);
        assert(s.take(j).push(x) + s.skip(j) =~= s.push(x));
    } else {
        let t = s.drop_last();
        assert(candidate_ord(x, s[s.len() - 1], sort) < 0);
        assert forall|k: int| j <= k < t.len() implies candidate_ord(x, #[trigger] t[k], sort) < 0 by {
            assert(t[k] == s[k]);
        }
        if j > 0 {
            assert(t[j - 1] == s[j - 1]);
        }
        lemma_insert_candidate_at(t, x, sort, j);
        assert((t.take(j).push(x) + t.skip(j)).push(s.last()) =~= s.take(j).push(x) + s.skip(j));
    }
}

proof fn lemma_insert_candidate_multiset(s: Seq<Tagged>, x: Tagged, sort: TrackSort)
    ensures
        insert_candidate(s, x, sort).to_multiset() == s.to_multiset().insert(x),
    decreases s.len(),
{
    s.to_multiset_ensures();
    if s.len() == 0 {
        assert(seq![x] =~= s.push(x));
    } else if candidate_ord(x, s.last(), sort) < 0 {
        let t = s.drop_last();
        assert(t.push(s.last()) =~= s);
        t.to_multiset_ensures();
        lemma_insert_candidate_multiset(t, x, sort);
        insert_candidate(t, x, sort).to_multiset_ensures();
        assert(t.to_multiset().insert(x).insert(s.last()) =~= t.to_multiset().insert(s.last()).insert(
            x,
        ));
    } else {
        assert(s.push(x).to_multiset() =~= s.to_multiset().insert(x));
    }
}

/// Merging neither loses nor repeats a candidate: the global order holds
/// every candidate of every page exactly as often as the pages do.
pub proof fn lemma_merge_keeps_every_candidate(s: Seq<Tagged>, sort: TrackSort)
    ensures
        sorted_candidates(s, sort).to_multiset() == s.to_multiset(),
    decreases s.len(),
{
    s.to_multiset_ensures();
    if s.len() > 0 {
        let t = s.drop_last();
        assert(t.push(s.last()) =~= s);
        t.to_multiset_ensures();
        lemma_merge_keeps_every_candidate(t, sort);
        lemma_insert_candidate_multiset(sorted_candidates(t, sort), s.last(), sort);
    }
}

/// How many of the candidates came from `src`.
pub open spec fn count_source(s: Seq<Tagged>, src: TrackSourcePage) -> nat
    decreases s.len(),
{
    if s.len() == 0 {
        0
    } else {
        count_source(s.drop_last(), src) + if s.last().0 == src {
            1nat
        } else {
            0nat
        }
    }
}

pub open spec fn counts_of(s: Seq<Tagged>) -> TrackSourceCounts {
    TrackSourceCounts {
        local: count_source(s, TrackSourcePage::Local) as usize,
        plex: count_source(s, TrackSourcePage::Plex) as usize,
        jellyfin: count_source(s, TrackSourcePage::Jellyfin) as usize,
        subsonic: count_source(s, TrackSourcePage::Subsonic) as usize,
    }
}

fn candidate_ord_exec(x: &Tagged, y: &Tagged, sort: TrackSort) -> (r: i8)
    ensures
        r == candidate_ord(*x, *y, sort),
{
    let c = compare_tracks(&x.1, &y.1, sort);
    if c != 0 {
        return c;
    }
    let rx: i64 = match x.0 {
        TrackSourcePage::Local => 0,
        TrackSourcePage::Plex => 1,
        TrackSourcePage::Jellyfin => 2,
        TrackSourcePage::Subsonic => 3,
    };
    let ry: i64 = match y.0 {
        TrackSourcePage::Local => 0,
        TrackSourcePage::Plex => 1,
        TrackSourcePage::Jellyfin => 2,
        TrackSourcePage::Subsonic => 3,
    };
    let d = int_ord(rx, ry);
    if d != 0 {
        return d;
    }
    let px = chars_of(x.1.file_path.as_str());
    let py = chars_of(y.1.file_path.as_str());
    let e = if x.0 == TrackSourcePage::Plex {
        text_ord(&px, &py)
    } else {
        int_ord(x.1.id, y.1.id)
    };
    if e != 0 {
        return e;
    }
    text_ord(&px, &py)
}

fn flatten_pages(pages: Vec<CandidatePage>) -> (r: Vec<Tagged>)
    ensures
        r@ == tagged(pages@),
{
    let mut rest = pages;
    let ghost all = rest@;
    let ghost mut done: Seq<CandidatePage> = Seq::empty();
    let mut out: Vec<Tagged> = Vec::new();
    while rest.len() > 0
        invariant
            all == done + rest@,
            out@ == tagged(done),
        decreases rest@.len(),
    {
        let ghost before = rest@;
        let page = rest.remove(0);
        proof {
            assert(before == seq![page] + rest@);
            assert(done + before =~= done.push(page) + rest@);
        }
        let source = page.source;
        let ghost pv = page_view(page);
        let mut rows = page.rows;
        let ghost all_rows = rows@;
        let ghost mut k: nat = 0;
        while rows.len() > 0
            invariant
                all_rows == page.rows@,
                pv == page_view(page),
                page.source == source,
                all_rows.skip(k as int) == rows@,
                k <= all_rows.len(),
                out@ == tagged(done) + pv.take(k as int),
            decreases rows@.len(),
        {
            let ghost rb = rows@;
            let row = rows.remove(0);
            proof {
                assert(rb[0] == row);
                assert(all_rows[k as int] == row);
                assert(all_rows.skip((k + 1) as int) =~= rows@);
                assert(pv.take((k + 1) as int) =~= pv.take(k as int).push((source, row)));
            }
            out.push((source, row));
            proof {
                k = k + 1;
            }
        }
        proof {
            assert(k == all_rows.len()) by {
                assert(all_rows.skip(k as int).len() == 0);
            }
            assert(pv.take(k as int) =~= pv);
            assert(done.push(page).drop_last() =~= done);
            done = done.push(page);
        }
    }
    proof {
        assert(done =~= all);
    }
    out
}

/// `merge_track_pages`: every candidate in one stable global order, cut to
/// `limit` rows; more remain when any candidate was cut, and each source's
/// share of the page is counted.
pub fn merge_track_pages(pages: Vec<CandidatePage>, sort: TrackSort, limit: usize) -> (m: MergedTrackPage)
    ensures
        ({
            let sorted = sorted_candidates(tagged(pages@), sort);
            let n = if sorted.len() <= limit { sorted.len() as int } else { limit as int };
            let taken = sorted.take(n);
            &&& m.rows@ == Seq::new(taken.len(), |i: int| taken[i].1)
            &&& m.has_more == (sorted.len() > limit)
            &&& m.consumed == counts_of(taken)
            &&& m.published == counts_of(taken)
        }),
{
    let candidates = flatten_pages(pages);
    let ghost c = candidates@;
    let mut sorted: Vec<Tagged> = Vec::new();
    let mut i: usize = 0;
    while i < candidates.len()
        invariant
            c == candidates@,
            0 <= i <= candidates@.len(),
            sorted@ == sorted_candidates(c.take(i as int), sort),
        decreases candidates@.len() - i,
    {
        let x = (candidates[i].0, candidates[i].1.duplicate());
        assert(x == c[i as int]);
        let ghost ov = sorted@;
        let mut j: usize = sorted.len();
        while j > 0 && candidate_ord_exec(&x, &sorted[j - 1], sort) < 0
            invariant
                0 <= j <= sorted@.len(),
                ov == sorted@,
                forall|k: int| j <= k < sorted@.len() ==> candidate_ord(x, #[trigger] ov[k], sort) < 0,
            decreases j,
        {
            j = j - 1;
        }
        proof {
            lemma_insert_candidate_at(ov, x, sort, j as int);
            assert(c.take(i + 1).drop_last() =~= c.take(i as int));
            assert(c.take(i + 1).last() == x);
        }
        sorted.insert(j, x);
        proof {
            assert(sorted@ =~= ov.take(j as int).push(x) + ov.skip(j as int));
        }
        i = i + 1;
    }
    proof {
        assert(c.take(i as int) =~= c);
    }
    let has_more = sorted.len() > limit;
    let n = if sorted.len() <= limit {
        sorted.len()
    } else {
        limit
    };
    let ghost s = sorted@;
    let ghost taken = s.take(n as int);
    let mut rows: Vec<PageTrack> = Vec::new();
    let mut local: usize = 0;
    let mut plex: usize = 0;
    let mut jellyfin: usize = 0;
    let mut subsonic: usize = 0;
    let mut k: usize = 0;
    while k < n
        invariant
            s == sorted@,
            n <= s.len(),
            taken == s.take(n as int),
            0 <= k <= n,
            rows@ == Seq::new(k as nat, |q: int| taken[q].1),
            local == count_source(taken.take(k as int), TrackSourcePage::Local),
            plex == count_source(taken.take(k as int), TrackSourcePage::Plex),
            jellyfin == count_source(taken.take(k as int), TrackSourcePage::Jellyfin),
            subsonic == count_source(taken.take(k as int), TrackSourcePage::Subsonic),
            local + plex + jellyfin + subsonic == k,
        decreases n - k,
    {
        let (src, row) = (sorted[k].0, sorted[k].1.duplicate());
        proof {
            assert(taken.take(k + 1).drop_last() =~= taken.take(k as int));
            assert(taken.take(k + 1).last() == taken[k as int]);
            assert(taken[k as int] == s[k as int]);
        }
        match src {
            TrackSourcePage::Local => local = local + 1,
            TrackSourcePage::Plex => plex = plex + 1,
            TrackSourcePage::Jellyfin => jellyfin = jellyfin + 1,
            TrackSourcePage::Subsonic => subsonic = subsonic + 1,
        }
        rows.push(row);
        proof {
            assert(rows@ =~= Seq::new((k + 1) as nat, |q: int| taken[q].1));
        }
        k = k + 1;
    }
    proof {
        assert(taken.take(n as int) =~= taken);
    }
    let counts = TrackSourceCounts { local, plex, jellyfin, subsonic };
    MergedTrackPage { rows, consumed: counts, published: counts, has_more }
}


// ---------------------------------------------------------------------------
// Paging: each source's share of a page is the front of its candidates
// ---------------------------------------------------------------------------

proof fn lemma_ord_text_antisym(a: Seq<char>, b: Seq<char>)
    ensures
        ord_text(a, b) == -ord_text(b, a),
{
    if lex_lt(a, b) && lex_lt(b, a) {
        lemma_lex_transitive(a, b, a, 0);
        lemma_lex_irreflexive(a, 0);
    }
}

proof fn lemma_ord_nocase_antisym(a: Seq<char>, b: Seq<char>)
    ensures
        ord_nocase(a, b) == -ord_nocase(b, a),
{
    lemma_ord_text_antisym(ascii_lower_seq(a), ascii_lower_seq(b));
}

proof fn lemma_album_tail_antisym(a: PageTrack, b: PageTrack)
    ensures
        album_tail(a, b) == -album_tail(b, a),
{
    lemma_ord_nocase_antisym(a.album@, b.album@);
}

proof fn lemma_compare_tracks_antisym(a: PageTrack, b: PageTrack, sort: TrackSort)
    ensures
        spec_compare_tracks(a, b, sort) == -spec_compare_tracks(b, a, sort),
{
    lemma_ord_nocase_antisym(a.title@, b.title@);
    lemma_ord_nocase_antisym(a.artist@, b.artist@);
    lemma_ord_nocase_antisym(a.album@, b.album@);
    lemma_ord_nocase_antisym(artist_key(a), artist_key(b));
    lemma_album_tail_antisym(a, b);
}

/// The merge order is antisymmetric: `x` comes before `y` exactly when `y`
/// comes after `x`.
pub proof fn lemma_candidate_ord_antisym(x: Tagged, y: Tagged, sort: TrackSort)
    ensures
        candidate_ord(x, y, sort) == -candidate_ord(y, x, sort),
{
    lemma_compare_tracks_antisym(x.1, y.1, sort);
    lemma_ord_text_antisym(x.1.file_path@, y.1.file_path@);
}


/// The rows of source `src` among the candidates, in their order.
pub open spec fn source_rows(s: Seq<Tagged>, src: TrackSourcePage) -> Seq<PageTrack>
    decreases s.len(),
{
    if s.len() == 0 {
        Seq::empty()
    } else if s.last().0 == src {
        source_rows(s.drop_last(), src).push(s.last().1)
    } else {
        source_rows(s.drop_last(), src)
    }
}

/// Within each source the candidates are in merge order.
pub open spec fn same_source_ordered(s: Seq<Tagged>, sort: TrackSort) -> bool {
    forall|i: int, j: int|
        0 <= i < j < s.len() && (#[trigger] s[i]).0 == (#[trigger] s[j]).0 ==> candidate_ord(s[i], s[j], sort) <= 0
}

/// A source's candidate page is in merge order, as its query returns it.
pub open spec fn page_ordered(p: CandidatePage, sort: TrackSort) -> bool {
    forall|i: int, j: int|
        0 <= i < j < p.rows@.len() ==> candidate_ord(
            (p.source, #[trigger] p.rows@[i]),
            (p.source, #[trigger] p.rows@[j]),
            sort,
        ) <= 0
}

/// Each source gives at most one candidate page.
pub open spec fn sources_distinct(pages: Seq<CandidatePage>) -> bool {
    forall|i: int, j: int| 0 <= i < j < pages.len() ==> (#[trigger] pages[i]).source != (#[trigger] pages[j]).source
}

proof fn lemma_source_rows_len(s: Seq<Tagged>, src: TrackSourcePage)
    ensures
        source_rows(s, src).len() == count_source(s, src),
    decreases s.len(),
{
    if s.len() > 0 {
        lemma_source_rows_len(s.drop_last(), src);
    }
}

proof fn lemma_insert_keeps_source_order(s: Seq<Tagged>, x: Tagged, sort: TrackSort, src: TrackSourcePage)
    requires
        forall|k: int| 0 <= k < s.len() && (#[trigger] s[k]).0 == x.0 ==> candidate_ord(x, s[k], sort) >= 0,
    ensures
        source_rows(insert_candidate(s, x, sort), src) == if x.0 == src {
            source_rows(s, src).push(x.1)
        } else {
            source_rows(s, src)
        },
    decreases s.len(),
{
    if s.len() == 0 {
        let r = seq![x];
        assert(insert_candidate(s, x, sort) == r);
        assert(r.drop_last() =~= s);
        assert(r.last() == x);
        assert(source_rows(s, src) =~= Seq::<PageTrack>::empty());
        if x.0 == src {
            assert(source_rows(r, src) == source_rows(s, src).push(x.1));
        } else {
            assert(source_rows(r, src) == source_rows(s, src));
        }
    } else if candidate_ord(x, s.last(), sort) < 0 {
        let t = s.drop_last();
        assert forall|k: int| 0 <= k < t.len() && (#[trigger] t[k]).0 == x.0 implies candidate_ord(x, t[k], sort) >= 0 by {
            assert(t[k] == s[k]);
        }
        lemma_insert_keeps_source_order(t, x, sort, src);
        assert(s.last().0 != x.0) by {
            if s.last().0 == x.0 {
                assert(s[s.len() - 1].0 == x.0);
            }
        }
        let r = insert_candidate(t, x, sort).push(s.last());
        assert(insert_candidate(s, x, sort) == r);
        assert(r.drop_last() =~= insert_candidate(t, x, sort));
        assert(r.last() == s.last());
        if s.last().0 == src {
            assert(source_rows(r, src) == source_rows(insert_candidate(t, x, sort), src).push(s.last().1));
            assert(source_rows(s, src) == source_rows(t, src).push(s.last().1));
        } else {
            assert(source_rows(r, src) == source_rows(insert_candidate(t, x, sort), src));
            assert(source_rows(s, src) == source_rows(t, src));
        }
    } else {
        let r = s.push(x);
        assert(insert_candidate(s, x, sort) == r);
        assert(r.drop_last() =~= s);
        assert(r.last() == x);
        if x.0 == src {
            assert(source_rows(r, src) == source_rows(s, src).push(x.1));
        } else {
            assert(source_rows(r, src) == source_rows(s, src));
        }
    }
}

/// A stable merge keeps each source's candidates in their own order.
proof fn lemma_sorted_keeps_source_rows(t: Seq<Tagged>, sort: TrackSort, src: TrackSourcePage)
    requires
        same_source_ordered(t, sort),
    ensures
        source_rows(sorted_candidates(t, sort), src) == source_rows(t, src),
    decreases t.len(),
{
    if t.len() > 0 {
        let u = t.drop_last();
        let x = t.last();
        assert forall|i: int, j: int| 0 <= i < j < u.len() && (#[trigger] u[i]).0 == (#[trigger] u[j]).0 implies candidate_ord(u[i], u[j], sort) <= 0 by {
            assert(u[i] == t[i] && u[j] == t[j]);
        }
        lemma_sorted_keeps_source_rows(u, sort, src);
        let su = sorted_candidates(u, sort);
        lemma_merge_keeps_every_candidate(u, sort);
        assert forall|k: int| 0 <= k < su.len() && (#[trigger] su[k]).0 == x.0 implies candidate_ord(x, su[k], sort) >= 0 by {
            let y = su[k];
            su.to_multiset_ensures();
            u.to_multiset_ensures();
            assert(su.contains(y));
            assert(su.to_multiset().count(y) > 0);
            assert(u.to_multiset().count(y) > 0);
            assert(u.contains(y));
            let i = choose|i: int| 0 <= i < u.len() && u[i] == y;
            assert(t[i] == y);
            assert(t[t.len() - 1] == x);
            assert(candidate_ord(t[i], t[t.len() - 1], sort) <= 0);
            lemma_candidate_ord_antisym(x, y, sort);
        }
        lemma_insert_keeps_source_order(su, x, sort, src);
    }
}

proof fn lemma_page_view_rows(p: CandidatePage, src: TrackSourcePage, n: int)
    requires
        0 <= n <= p.rows@.len(),
    ensures
        source_rows(page_view(p).take(n), src) == if p.source == src {
            p.rows@.take(n)
        } else {
            Seq::empty()
        },
    decreases n,
{
    if n > 0 {
        lemma_page_view_rows(p, src, n - 1);
        assert(page_view(p).take(n).drop_last() =~= page_view(p).take(n - 1));
        if p.source == src {
            assert(p.rows@.take(n) =~= p.rows@.take(n - 1).push(p.rows@[n - 1]));
        }
    } else {
        assert(page_view(p).take(0) =~= Seq::<Tagged>::empty());
        assert(p.rows@.take(0) =~= Seq::<PageTrack>::empty());
    }
}

proof fn lemma_source_rows_concat(a: Seq<Tagged>, b: Seq<Tagged>, src: TrackSourcePage)
    ensures
        source_rows(a + b, src) == source_rows(a, src) + source_rows(b, src),
    decreases b.len(),
{
    if b.len() == 0 {
        assert(a + b =~= a);
        assert(source_rows(a, src) + source_rows(b, src) =~= source_rows(a, src));
    } else {
        lemma_source_rows_concat(a, b.drop_last(), src);
        assert((a + b).drop_last() =~= a + b.drop_last());
        assert((a + b).last() == b.last());
        if b.last().0 == src {
            assert(source_rows(a, src) + source_rows(b, src) =~= (source_rows(a, src) + source_rows(
                b.drop_last(),
                src,
            )).push(b.last().1));
        }
    }
}

/// Every tagged candidate carries the source of one of the pages.
proof fn lemma_tagged_sources(pages: Seq<CandidatePage>, k: int)
    requires
        0 <= k < tagged(pages).len(),
    ensures
        exists|q: int| 0 <= q < pages.len() && pages[q].source == tagged(pages)[k].0,
    decreases pages.len(),
{
    let prev = tagged(pages.drop_last());
    if k < prev.len() {
        assert(tagged(pages)[k] == prev[k]);
        lemma_tagged_sources(pages.drop_last(), k);
        let q = choose|q: int| 0 <= q < pages.len() - 1 && pages.drop_last()[q].source == prev[k].0;
        assert(pages[q] == pages.drop_last()[q]);
    } else {
        assert(tagged(pages)[k] == page_view(pages.last())[k - prev.len()]);
    }
}

proof fn lemma_tagged_ordered(pages: Seq<CandidatePage>, sort: TrackSort)
    requires
        sources_distinct(pages),
        forall|q: int| 0 <= q < pages.len() ==> page_ordered(#[trigger] pages[q], sort),
    ensures
        same_source_ordered(tagged(pages), sort),
    decreases pages.len(),
{
    if pages.len() > 0 {
        let ps = pages.drop_last();
        assert forall|a: int, b: int| 0 <= a < b < ps.len() implies (#[trigger] ps[a]).source != (#[trigger] ps[b]).source by {
            assert(ps[a] == pages[a] && ps[b] == pages[b]);
        }
        assert forall|q: int| 0 <= q < ps.len() implies page_ordered(#[trigger] ps[q], sort) by {
            assert(ps[q] == pages[q]);
        }
        lemma_tagged_ordered(ps, sort);
        let prev = tagged(ps);
        let last = pages.last();
        let pv = page_view(last);
        let t = tagged(pages);
        assert(t == prev + pv);
        assert(page_ordered(pages[pages.len() - 1], sort));
        assert forall|i: int, j: int| 0 <= i < j < t.len() && (#[trigger] t[i]).0 == (#[trigger] t[j]).0 implies candidate_ord(t[i], t[j], sort) <= 0 by {
            if j < prev.len() {
                assert(t[i] == prev[i] && t[j] == prev[j]);
            } else if i >= prev.len() {
                assert(t[i] == pv[i - prev.len()] && t[j] == pv[j - prev.len()]);
                assert(pv[i - prev.len()] == (last.source, last.rows@[i - prev.len()]));
                assert(pv[j - prev.len()] == (last.source, last.rows@[j - prev.len()]));
            } else {
                assert(t[i] == prev[i]);
                lemma_tagged_sources(ps, i);
                let q = choose|q: int| 0 <= q < ps.len() && ps[q].source == prev[i].0;
                assert(t[j] == pv[j - prev.len()]);
                assert(pages[q].source != pages[pages.len() - 1].source);
                assert(false);
            }
        }
    }
}

proof fn lemma_tagged_source_rows(pages: Seq<CandidatePage>, q: int)
    requires
        sources_distinct(pages),
        0 <= q < pages.len(),
    ensures
        source_rows(tagged(pages), pages[q].source) == pages[q].rows@,
    decreases pages.len(),
{
    let src = pages[q].source;
    let ps = pages.drop_last();
    let last = pages.last();
    lemma_source_rows_concat(tagged(ps), page_view(last), src);
    assert(page_view(last).take(last.rows@.len() as int) =~= page_view(last));
    lemma_page_view_rows(last, src, last.rows@.len() as int);
    assert(last.rows@.take(last.rows@.len() as int) =~= last.rows@);
    if q == pages.len() - 1 {
        lemma_source_rows_absent(ps, src);
        assert(Seq::<PageTrack>::empty() + last.rows@ =~= last.rows@);
    } else {
        assert forall|a: int, b: int| 0 <= a < b < ps.len() implies (#[trigger] ps[a]).source != (#[trigger] ps[b]).source by {
            assert(ps[a] == pages[a] && ps[b] == pages[b]);
        }
        assert(ps[q] == pages[q]);
        lemma_tagged_source_rows(ps, q);
        assert(last.source != src);
        assert(pages[q].rows@ + Seq::<PageTrack>::empty() =~= pages[q].rows@);
    }
}

/// Pages of other sources hold no row of `src`.
proof fn lemma_source_rows_absent(pages: Seq<CandidatePage>, src: TrackSourcePage)
    requires
        forall|q: int| 0 <= q < pages.len() ==> (#[trigger] pages[q]).source != src,
    ensures
        source_rows(tagged(pages), src) == Seq::<PageTrack>::empty(),
    decreases pages.len(),
{
    if pages.len() > 0 {
        let ps = pages.drop_last();
        assert forall|q: int| 0 <= q < ps.len() implies (#[trigger] ps[q]).source != src by {
            assert(ps[q] == pages[q]);
        }
        lemma_source_rows_absent(ps, src);
        let last = pages.last();
        assert(last.source != src);
        lemma_source_rows_concat(tagged(ps), page_view(last), src);
        lemma_page_view_rows(last, src, last.rows@.len() as int);
        assert(page_view(last).take(last.rows@.len() as int) =~= page_view(last));
    }
}

proof fn lemma_count_take_le(s: Seq<Tagged>, n: int, src: TrackSourcePage)
    requires
        0 <= n <= s.len(),
    ensures
        count_source(s.take(n), src) <= count_source(s, src),
    decreases s.len(),
{
    if n < s.len() {
        let u = s.drop_last();
        assert(s.take(n) =~= u.take(n));
        lemma_count_take_le(u, n, src);
    } else {
        assert(s.take(n) =~= s);
    }
}

/// The rows of a source in a front part of a sequence are the front of its
/// rows in the whole.
proof fn lemma_source_rows_take(s: Seq<Tagged>, n: int, src: TrackSourcePage)
    requires
        0 <= n <= s.len(),
    ensures
        source_rows(s.take(n), src) == source_rows(s, src).take(count_source(s.take(n), src) as int),
    decreases s.len(),
{
    lemma_source_rows_len(s.take(n), src);
    lemma_source_rows_len(s, src);
    if n == s.len() {
        assert(s.take(n) =~= s);
        assert(source_rows(s, src).take(source_rows(s, src).len() as int) =~= source_rows(s, src));
    } else {
        let u = s.drop_last();
        assert(s.take(n) =~= u.take(n));
        lemma_source_rows_take(u, n, src);
        lemma_count_take_le(u, n, src);
        lemma_source_rows_len(u.take(n), src);
        lemma_source_rows_len(u, src);
        if s.last().0 == src {
            assert(source_rows(s, src).take(count_source(u.take(n), src) as int) =~= source_rows(u, src).take(
                count_source(u.take(n), src) as int,
            ));
        }
    }
}

/// A merged page takes from each source the front of its candidates: the
/// rows it publishes of a source are that source's first candidates, as many
/// as the page consumed of it, in the source's own order. A source's next
/// page therefore starts exactly past what this one showed.
pub proof fn lemma_page_takes_the_front_of_each_source(
    pages: Seq<CandidatePage>,
    sort: TrackSort,
    limit: usize,
    q: int,
)
    requires
        sources_distinct(pages),
        forall|k: int| 0 <= k < pages.len() ==> page_ordered(#[trigger] pages[k], sort),
        0 <= q < pages.len(),
    ensures
        ({
            let sorted = sorted_candidates(tagged(pages), sort);
            let n = if sorted.len() <= limit { sorted.len() as int } else { limit as int };
            let taken = sorted.take(n);
            source_rows(taken, pages[q].source) == pages[q].rows@.take(
                count_source(taken, pages[q].source) as int,
            )
        }),
{
    let t = tagged(pages);
    let src = pages[q].source;
    let sorted = sorted_candidates(t, sort);
    let n = if sorted.len() <= limit { sorted.len() as int } else { limit as int };
    lemma_tagged_ordered(pages, sort);
    lemma_sorted_keeps_source_rows(t, sort, src);
    lemma_tagged_source_rows(pages, q);
    lemma_source_rows_take(sorted, n, src);
}

/// Pages fetched one after another, each starting where the last one's
/// share ended, cover a source's rows once each and in order: what earlier
/// pages showed of the stream, followed by this page's share of its window,
/// is the front of the stream.
pub proof fn lemma_shares_cover_the_stream(stream: Seq<PageTrack>, offset: int, window: int, share: int)
    requires
        0 <= offset <= stream.len(),
        0 <= share <= window,
        offset + share <= stream.len(),
    ensures
        ({
            let avail = if window <= stream.len() - offset { window } else { stream.len() - offset };
            stream.take(offset) + stream.skip(offset).take(avail).take(share) == stream.take(offset + share)
        }),
{
    let avail = if window <= stream.len() - offset { window } else { stream.len() - offset };
    let lhs = stream.take(offset) + stream.skip(offset).take(avail).take(share);
    assert forall|i: int| 0 <= i < offset + share implies #[trigger] lhs[i] == stream.take(offset + share)[i] by {
        if i >= offset {
            assert(lhs[i] == stream.skip(offset).take(avail).take(share)[i - offset]);
        }
    }
    assert(lhs =~= stream.take(offset + share));
}


// ---------------------------------------------------------------------------
// The merge order is a total preorder: each merged page comes out sorted
// ---------------------------------------------------------------------------

/// Three comparison results `ab`, `bc`, `ac` for values `a`, `b`, `c` fit
/// one ranking of the three: the order is transitive, strictly where either
/// step is strict.
pub open spec fn consistent(ab: int, bc: int, ac: int) -> bool {
    &&& (ab <= 0 && bc <= 0 ==> ac <= 0)
    &&& (ab >= 0 && bc >= 0 ==> ac >= 0)
    &&& (ab < 0 && bc <= 0 ==> ac < 0)
    &&& (ab <= 0 && bc < 0 ==> ac < 0)
    &&& (ab > 0 && bc >= 0 ==> ac > 0)
    &&& (ab >= 0 && bc > 0 ==> ac > 0)
}

proof fn lemma_then_consistent(ab1: int, bc1: int, ac1: int, ab2: int, bc2: int, ac2: int)
    requires
        consistent(ab1, bc1, ac1),
        ab1 == 0 && bc1 == 0 ==> consistent(ab2, bc2, ac2),
    ensures
        consistent(then(ab1, ab2), then(bc1, bc2), then(ac1, ac2)),
{
}

proof fn lemma_ord_text_consistent(a: Seq<char>, b: Seq<char>, c: Seq<char>)
    ensures
        consistent(ord_text(a, b), ord_text(b, c), ord_text(a, c)),
{
    if !lex_lt(a, b) && !lex_lt(b, a) {
        lemma_lex_total(a, b, 0);
    }
    if !lex_lt(b, c) && !lex_lt(c, b) {
        lemma_lex_total(b, c, 0);
    }
    if lex_lt(a, b) && lex_lt(b, c) {
        lemma_lex_transitive(a, b, c, 0);
    }
    if lex_lt(c, b) && lex_lt(b, a) {
        lemma_lex_transitive(c, b, a, 0);
    }
    if lex_lt(a, c) && lex_lt(c, a) {
        lemma_lex_transitive(a, c, a, 0);
        lemma_lex_irreflexive(a, 0);
    }
}

proof fn lemma_ord_nocase_consistent(a: Seq<char>, b: Seq<char>, c: Seq<char>)
    ensures
        consistent(ord_nocase(a, b), ord_nocase(b, c), ord_nocase(a, c)),
{
    lemma_ord_text_consistent(ascii_lower_seq(a), ascii_lower_seq(b), ascii_lower_seq(c));
}

proof fn lemma_album_tail_consistent(a: PageTrack, b: PageTrack, c: PageTrack)
    ensures
        consistent(album_tail(a, b), album_tail(b, c), album_tail(a, c)),
{
    lemma_ord_nocase_consistent(a.album@, b.album@, c.album@);
    let (d1, d2, d3) = (
        ord_opt(a.disc_number, b.disc_number),
        ord_opt(b.disc_number, c.disc_number),
        ord_opt(a.disc_number, c.disc_number),
    );
    let (t1, t2, t3) = (
        ord_opt(a.track_number, b.track_number),
        ord_opt(b.track_number, c.track_number),
        ord_opt(a.track_number, c.track_number),
    );
    lemma_then_consistent(d1, d2, d3, t1, t2, t3);
    lemma_then_consistent(
        ord_nocase(a.album@, b.album@),
        ord_nocase(b.album@, c.album@),
        ord_nocase(a.album@, c.album@),
        then(d1, t1),
        then(d2, t2),
        then(d3, t3),
    );
}

proof fn lemma_compare_tracks_consistent(a: PageTrack, b: PageTrack, c: PageTrack, sort: TrackSort)
    ensures
        consistent(
            spec_compare_tracks(a, b, sort),
            spec_compare_tracks(b, c, sort),
            spec_compare_tracks(a, c, sort),
        ),
{
    lemma_album_tail_consistent(a, b, c);
    match sort {
        TrackSort::TitleAsc => {
            lemma_ord_nocase_consistent(a.title@, b.title@, c.title@);
            lemma_ord_nocase_consistent(a.artist@, b.artist@, c.artist@);
            lemma_then_consistent(
                ord_nocase(a.title@, b.title@),
                ord_nocase(b.title@, c.title@),
                ord_nocase(a.title@, c.title@),
                ord_nocase(a.artist@, b.artist@),
                ord_nocase(b.artist@, c.artist@),
                ord_nocase(a.artist@, c.artist@),
            );
        },
        TrackSort::TitleDesc => {
            lemma_ord_nocase_consistent(c.title@, b.title@, a.title@);
            lemma_ord_nocase_consistent(a.artist@, b.artist@, c.artist@);
            lemma_then_consistent(
                ord_nocase(b.title@, a.title@),
                ord_nocase(c.title@, b.title@),
                ord_nocase(c.title@, a.title@),
                ord_nocase(a.artist@, b.artist@),
                ord_nocase(b.artist@, c.artist@),
                ord_nocase(a.artist@, c.artist@),
            );
        },
        TrackSort::ArtistAsc => {
            lemma_ord_nocase_consistent(artist_key(a), artist_key(b), artist_key(c));
            lemma_then_consistent(
                ord_nocase(artist_key(a), artist_key(b)),
                ord_nocase(artist_key(b), artist_key(c)),
                ord_nocase(artist_key(a), artist_key(c)),
                album_tail(a, b),
                album_tail(b, c),
                album_tail(a, c),
            );
        },
        TrackSort::ArtistDesc => {
            lemma_ord_nocase_consistent(artist_key(c), artist_key(b), artist_key(a));
            lemma_then_consistent(
                ord_nocase(artist_key(b), artist_key(a)),
                ord_nocase(artist_key(c), artist_key(b)),
                ord_nocase(artist_key(c), artist_key(a)),
                album_tail(a, b),
                album_tail(b, c),
                album_tail(a, c),
            );
        },
        TrackSort::GroupArtist => {
            lemma_ord_nocase_consistent(a.artist@, b.artist@, c.artist@);
            lemma_ord_nocase_consistent(a.album@, b.album@, c.album@);
            lemma_ord_nocase_consistent(a.title@, b.title@, c.title@);
            lemma_then_consistent(
                ord_nocase(a.album@, b.album@),
                ord_nocase(b.album@, c.album@),
                ord_nocase(a.album@, c.album@),
                ord_nocase(a.title@, b.title@),
                ord_nocase(b.title@, c.title@),
                ord_nocase(a.title@, c.title@),
            );
            lemma_then_consistent(
                ord_nocase(a.artist@, b.artist@),
                ord_nocase(b.artist@, c.artist@),
                ord_nocase(a.artist@, c.artist@),
                then(ord_nocase(a.album@, b.album@), ord_nocase(a.title@, b.title@)),
                then(ord_nocase(b.album@, c.album@), ord_nocase(b.title@, c.title@)),
                then(ord_nocase(a.album@, c.album@), ord_nocase(a.title@, c.title@)),
            );
        },
        TrackSort::YearDesc => {
            lemma_then_consistent(
                year_ord(a, b, true),
                year_ord(b, c, true),
                year_ord(a, c, true),
                album_tail(a, b),
                album_tail(b, c),
                album_tail(a, c),
            );
        },
        TrackSort::YearAsc => {
            lemma_then_consistent(
                year_ord(a, b, false),
                year_ord(b, c, false),
                year_ord(a, c, false),
                album_tail(a, b),
                album_tail(b, c),
                album_tail(a, c),
            );
        },
        TrackSort::AddedDesc => {
            lemma_then_consistent(
                ord_int(b.indexed_at as int, a.indexed_at as int),
                ord_int(c.indexed_at as int, b.indexed_at as int),
                ord_int(c.indexed_at as int, a.indexed_at as int),
                album_tail(a, b),
                album_tail(b, c),
                album_tail(a, c),
            );
        },
        TrackSort::Default => {
            lemma_ord_nocase_consistent(a.album@, b.album@, c.album@);
            lemma_ord_nocase_consistent(artist_key(a), artist_key(b), artist_key(c));
            lemma_ord_nocase_consistent(a.title@, b.title@, c.title@);
            let t1 = ord_opt(a.track_number, b.track_number);
            let t2 = ord_opt(b.track_number, c.track_number);
            let t3 = ord_opt(a.track_number, c.track_number);
            let d1 = ord_opt(a.disc_number, b.disc_number);
            let d2 = ord_opt(b.disc_number, c.disc_number);
            let d3 = ord_opt(a.disc_number, c.disc_number);
            let n1 = ord_nocase(a.title@, b.title@);
            let n2 = ord_nocase(b.title@, c.title@);
            let n3 = ord_nocase(a.title@, c.title@);
            lemma_then_consistent(t1, t2, t3, n1, n2, n3);
            lemma_then_consistent(d1, d2, d3, then(t1, n1), then(t2, n2), then(t3, n3));
            let k1 = ord_nocase(artist_key(a), artist_key(b));
            let k2 = ord_nocase(artist_key(b), artist_key(c));
            let k3 = ord_nocase(artist_key(a), artist_key(c));
            lemma_then_consistent(
                k1,
                k2,
                k3,
                then(d1, then(t1, n1)),
                then(d2, then(t2, n2)),
                then(d3, then(t3, n3)),
            );
            lemma_then_consistent(
                ord_nocase(a.album@, b.album@),
                ord_nocase(b.album@, c.album@),
                ord_nocase(a.album@, c.album@),
                then(k1, then(d1, then(t1, n1))),
                then(k2, then(d2, then(t2, n2))),
                then(k3, then(d3, then(t3, n3))),
            );
        },
    }
}

/// The merge order is transitive: it ranks any three candidates
/// consistently, so sorting by it is well defined.
pub proof fn lemma_candidate_ord_consistent(x: Tagged, y: Tagged, z: Tagged, sort: TrackSort)
    ensures
        consistent(candidate_ord(x, y, sort), candidate_ord(y, z, sort), candidate_ord(x, z, sort)),
{
    lemma_compare_tracks_consistent(x.1, y.1, z.1, sort);
    lemma_ord_text_consistent(x.1.file_path@, y.1.file_path@, z.1.file_path@);
    let f1 = ord_text(x.1.file_path@, y.1.file_path@);
    let f2 = ord_text(y.1.file_path@, z.1.file_path@);
    let f3 = ord_text(x.1.file_path@, z.1.file_path@);
    let i1 = if x.0 == TrackSourcePage::Plex { f1 } else { ord_int(x.1.id as int, y.1.id as int) };
    let i2 = if y.0 == TrackSourcePage::Plex { f2 } else { ord_int(y.1.id as int, z.1.id as int) };
    let i3 = if x.0 == TrackSourcePage::Plex { f3 } else { ord_int(x.1.id as int, z.1.id as int) };
    let r1 = ord_int(source_rank(x.0), source_rank(y.0));
    let r2 = ord_int(source_rank(y.0), source_rank(z.0));
    let r3 = ord_int(source_rank(x.0), source_rank(z.0));
    if r1 == 0 && r2 == 0 {
        assert(x.0 == y.0 && y.0 == z.0);
        lemma_then_consistent(i1, i2, i3, f1, f2, f3);
    }
    lemma_then_consistent(r1, r2, r3, then(i1, f1), then(i2, f2), then(i3, f3));
    lemma_then_consistent(
        spec_compare_tracks(x.1, y.1, sort),
        spec_compare_tracks(y.1, z.1, sort),
        spec_compare_tracks(x.1, z.1, sort),
        then(r1, then(i1, f1)),
        then(r2, then(i2, f2)),
        then(r3, then(i3, f3)),
    );
}

/// The candidates come in merge order: none is ranked after a later one.
pub open spec fn in_merge_order(s: Seq<Tagged>, sort: TrackSort) -> bool {
    forall|i: int, j: int| 0 <= i < j < s.len() ==> candidate_ord(#[trigger] s[i], #[trigger] s[j], sort) <= 0
}

proof fn lemma_insert_members(s: Seq<Tagged>, x: Tagged, sort: TrackSort)
    ensures
        insert_candidate(s, x, sort).len() == s.len() + 1,
        forall|k: int|
            0 <= k < insert_candidate(s, x, sort).len() ==> #[trigger] insert_candidate(s, x, sort)[k] == x
                || s.contains(insert_candidate(s, x, sort)[k]),
    decreases s.len(),
{
    if s.len() > 0 && candidate_ord(x, s.last(), sort) < 0 {
        let t = s.drop_last();
        lemma_insert_members(t, x, sort);
        let r = insert_candidate(t, x, sort);
        assert forall|k: int| 0 <= k < r.push(s.last()).len() implies #[trigger] r.push(s.last())[k] == x
            || s.contains(r.push(s.last())[k]) by {
            if k < r.len() {
                if r[k] != x {
                    let w = choose|w: int| 0 <= w < t.len() && t[w] == r[k];
                    assert(s[w] == r[k]);
                }
            } else {
                assert(s[s.len() - 1] == s.last());
            }
        }
    } else if s.len() > 0 {
        assert forall|k: int| 0 <= k < s.push(x).len() implies #[trigger] s.push(x)[k] == x || s.contains(
            s.push(x)[k],
        ) by {
            if k < s.len() {
                assert(s[k] == s.push(x)[k]);
            }
        }
    }
}

proof fn lemma_insert_in_merge_order(s: Seq<Tagged>, x: Tagged, sort: TrackSort)
    requires
        in_merge_order(s, sort),
    ensures
        in_merge_order(insert_candidate(s, x, sort), sort),
    decreases s.len(),
{
    if s.len() == 0 {
    } else if candidate_ord(x, s.last(), sort) < 0 {
        let t = s.drop_last();
        lemma_insert_in_merge_order(t, x, sort);
        lemma_insert_members(t, x, sort);
        let r = insert_candidate(t, x, sort);
        let q = r.push(s.last());
        assert forall|i: int, j: int| 0 <= i < j < q.len() implies candidate_ord(
            #[trigger] q[i],
            #[trigger] q[j],
            sort,
        ) <= 0 by {
            if j < r.len() {
                assert(q[i] == r[i] && q[j] == r[j]);
            } else {
                assert(q[i] == r[i]);
                assert(q[j] == s[s.len() - 1]);
                if r[i] != x {
                    assert(r[i] == insert_candidate(t, x, sort)[i]);
                    let w = choose|w: int| 0 <= w < t.len() && t[w] == r[i];
                    assert(s[w] == r[i]);
                }
            }
        }
    } else {
        let q = s.push(x);
        assert forall|i: int, j: int| 0 <= i < j < q.len() implies candidate_ord(
            #[trigger] q[i],
            #[trigger] q[j],
            sort,
        ) <= 0 by {
            assert(q[i] == s[i]);
            if j == s.len() {
                lemma_candidate_ord_antisym(x, s.last(), sort);
                if i < s.len() - 1 {
                    assert(s[s.len() - 1] == s.last());
                    lemma_candidate_ord_consistent(s[i], s.last(), x, sort);
                }
            } else {
                assert(q[j] == s[j]);
            }
        }
    }
}

proof fn lemma_sorted_in_merge_order(t: Seq<Tagged>, sort: TrackSort)
    ensures
        in_merge_order(sorted_candidates(t, sort), sort),
    decreases t.len(),
{
    if t.len() > 0 {
        lemma_sorted_in_merge_order(t.drop_last(), sort);
        lemma_insert_in_merge_order(sorted_candidates(t.drop_last(), sort), t.last(), sort);
    }
}

/// A merged page is in merge order, and nothing it leaves for later pages
/// ranks before a row it shows: every row shown comes no later than every
/// candidate held back.
pub proof fn lemma_merged_page_in_merge_order(pages: Seq<CandidatePage>, sort: TrackSort, limit: usize)
    ensures
        ({
            let sorted = sorted_candidates(tagged(pages), sort);
            let n = if sorted.len() <= limit { sorted.len() as int } else { limit as int };
            &&& in_merge_order(sorted.take(n), sort)
            &&& forall|i: int, j: int|
                0 <= i < n <= j < sorted.len() ==> candidate_ord(#[trigger] sorted[i], #[trigger] sorted[j], sort)
                    <= 0
        }),
{
    let sorted = sorted_candidates(tagged(pages), sort);
    let n = if sorted.len() <= limit { sorted.len() as int } else { limit as int };
    lemma_sorted_in_merge_order(tagged(pages), sort);
    let taken = sorted.take(n);
    assert forall|i: int, j: int| 0 <= i < j < taken.len() implies candidate_ord(
        #[trigger] taken[i],
        #[trigger] taken[j],
        sort,
    ) <= 0 by {
        assert(taken[i] == sorted[i] && taken[j] == sorted[j]);
    }
}

/// A source's stream of rows, as its query returns them page after page, in
/// merge order.
pub open spec fn stream_ordered(src: TrackSourcePage, stream: Seq<PageTrack>, sort: TrackSort) -> bool {
    forall|i: int, j: int|
        0 <= i < j < stream.len() ==> candidate_ord((src, #[trigger] stream[i]), (src, #[trigger] stream[j]), sort)
            <= 0
}

proof fn lemma_count_le_len(u: Seq<Tagged>, src: TrackSourcePage)
    ensures
        count_source(u, src) <= u.len(),
    decreases u.len(),
{
    if u.len() > 0 {
        lemma_count_le_len(u.drop_last(), src);
    }
}

proof fn lemma_all_from_source(u: Seq<Tagged>, src: TrackSourcePage)
    requires
        count_source(u, src) == u.len(),
    ensures
        source_rows(u, src).len() == u.len(),
        forall|i: int| 0 <= i < u.len() ==> (#[trigger] u[i]).0 == src && source_rows(u, src)[i] == u[i].1,
    decreases u.len(),
{
    if u.len() > 0 {
        let t = u.drop_last();
        lemma_count_le_len(t, src);
        lemma_all_from_source(t, src);
        assert forall|i: int| 0 <= i < u.len() implies (#[trigger] u[i]).0 == src && source_rows(u, src)[i]
            == u[i].1 by {
            if i < t.len() {
                assert(u[i] == t[i]);
            }
        }
    }
}

proof fn lemma_source_rows_member(u: Seq<Tagged>, src: TrackSourcePage, k: int)
    requires
        0 <= k < source_rows(u, src).len(),
    ensures
        exists|i: int| 0 <= i < u.len() && u[i] == (src, source_rows(u, src)[k]),
    decreases u.len(),
{
    let t = u.drop_last();
    if u.last().0 == src && k == source_rows(u, src).len() - 1 {
        assert(u[u.len() - 1] == (src, source_rows(u, src)[k]));
    } else {
        lemma_source_rows_member(t, src, k);
        let i = choose|i: int| 0 <= i < t.len() && t[i] == (src, source_rows(t, src)[k]);
        assert(u[i] == t[i]);
    }
}

proof fn lemma_held_back_row_follows(
    sorted: Seq<Tagged>,
    n: int,
    src: TrackSourcePage,
    window: Seq<PageTrack>,
    c: int,
    y: Tagged,
    sort: TrackSort,
)
    requires
        0 <= n <= sorted.len(),
        0 <= c < window.len(),
        source_rows(sorted, src) == window,
        source_rows(sorted.take(n), src) == window.take(c),
        forall|i: int, k: int|
            0 <= i < n <= k < sorted.len() ==> candidate_ord(#[trigger] sorted[i], #[trigger] sorted[k], sort) <= 0,
        candidate_ord((src, window[c]), y, sort) <= 0,
    ensures
        forall|i: int| 0 <= i < n ==> candidate_ord(#[trigger] sorted[i], y, sort) <= 0,
{
    let taken = sorted.take(n);
    let rest = sorted.skip(n);
    assert(sorted =~= taken + rest);
    lemma_source_rows_concat(taken, rest, src);
    assert(source_rows(rest, src) =~= window.skip(c));
    lemma_source_rows_member(rest, src, 0);
    let w: Tagged = (src, window[c]);
    let i0 = choose|i0: int| 0 <= i0 < rest.len() && rest[i0] == w;
    assert(sorted[n + i0] == w);
    assert forall|i: int| 0 <= i < n implies candidate_ord(#[trigger] sorted[i], y, sort) <= 0 by {
        assert(candidate_ord(sorted[i], sorted[n + i0], sort) <= 0);
        lemma_candidate_ord_consistent(sorted[i], w, y, sort);
    }
}

/// Paging stays in order across pages: a row that a source returns past what
/// a merged page consumed of it ranks no earlier than any row the page shows.
/// The next page asks each source from its offset plus what this page
/// consumed, so every row it shows comes after every row of this one.
pub proof fn lemma_later_rows_follow_the_page(
    pages: Seq<CandidatePage>,
    sort: TrackSort,
    limit: usize,
    q: int,
    stream: Seq<PageTrack>,
    offset: int,
    window: int,
    j: int,
)
    requires
        sources_distinct(pages),
        forall|k: int| 0 <= k < pages.len() ==> page_ordered(#[trigger] pages[k], sort),
        0 <= q < pages.len(),
        stream_ordered(pages[q].source, stream, sort),
        0 <= offset <= stream.len(),
        limit <= window,
        pages[q].rows@ == stream.skip(offset).take(
            if window <= stream.len() - offset { window } else { stream.len() - offset },
        ),
        ({
            let sorted = sorted_candidates(tagged(pages), sort);
            let n = if sorted.len() <= limit { sorted.len() as int } else { limit as int };
            offset + count_source(sorted.take(n), pages[q].source) <= j < stream.len()
        }),
    ensures
        ({
            let sorted = sorted_candidates(tagged(pages), sort);
            let n = if sorted.len() <= limit { sorted.len() as int } else { limit as int };
            forall|i: int| 0 <= i < n ==> candidate_ord(#[trigger] sorted[i], (pages[q].source, stream[j]), sort) <= 0
        }),
{
    let src = pages[q].source;
    let win = pages[q].rows@;
    let sorted = sorted_candidates(tagged(pages), sort);
    let n = if sorted.len() <= limit { sorted.len() as int } else { limit as int };
    let taken = sorted.take(n);
    let c = count_source(taken, src) as int;
    let y: Tagged = (src, stream[j]);
    assert(source_rows(sorted, src) == win) by {
        lemma_tagged_source_rows(pages, q);
        lemma_tagged_ordered(pages, sort);
        lemma_sorted_keeps_source_rows(tagged(pages), sort, src);
    }
    assert(source_rows(taken, src) == win.take(c)) by {
        lemma_page_takes_the_front_of_each_source(pages, sort, limit, q);
    }
    assert(c <= win.len()) by {
        lemma_count_take_le(sorted, n, src);
        lemma_source_rows_len(sorted, src);
    }
    if c < win.len() {
        assert(forall|i: int, k: int|
            0 <= i < n <= k < sorted.len() ==> candidate_ord(#[trigger] sorted[i], #[trigger] sorted[k], sort) <= 0)
            by {
            lemma_merged_page_in_merge_order(pages, sort, limit);
        }
        assert(win[c] == stream[offset + c]);
        assert(candidate_ord((src, win[c]), y, sort) <= 0) by {
            if offset + c == j {
                lemma_candidate_ord_antisym(y, y, sort);
            }
        }
        lemma_held_back_row_follows(sorted, n, src, win, c, y, sort);
    } else {
        assert(c == n) by {
            lemma_count_le_len(taken, src);
        }
        lemma_all_from_source(taken, src);
        assert forall|i: int| 0 <= i < n implies candidate_ord(#[trigger] sorted[i], y, sort) <= 0 by {
            assert(taken[i] == sorted[i]);
            assert(win.take(c)[i] == win[i]);
            assert(win[i] == stream[offset + i]);
            assert(sorted[i] == (src, stream[offset + i]));
        }
    }
}

// ---------------------------------------------------------------------------
// The paging law: page after page, every row once, in merge order
// ---------------------------------------------------------------------------

/// How many rows a source returns when asked for `window` rows from
/// `offset` of its `stream_len` rows.
pub open spec fn window_len(stream_len: int, offset: int, window: int) -> int {
    if window <= stream_len - offset {
        window
    } else {
        stream_len - offset
    }
}

/// No two streams come from one source.
pub open spec fn streams_distinct(streams: Seq<(TrackSourcePage, Seq<PageTrack>)>) -> bool {
    forall|i: int, j: int| 0 <= i < j < streams.len() ==> (#[trigger] streams[i]).0 != (#[trigger] streams[j]).0
}

/// The candidate pages of one merged page: each source asked for `window`
/// rows from its offset.
pub open spec fn pages_at(
    streams: Seq<(TrackSourcePage, Seq<PageTrack>)>,
    offsets: Seq<int>,
    window: int,
    pages: Seq<CandidatePage>,
) -> bool {
    &&& pages.len() == streams.len()
    &&& offsets.len() == streams.len()
    &&& forall|q: int|
        0 <= q < streams.len() ==> {
            &&& (#[trigger] pages[q]).source == streams[q].0
            &&& 0 <= offsets[q] <= streams[q].1.len()
            &&& pages[q].rows@ == streams[q].1.skip(offsets[q]).take(
                window_len(streams[q].1.len() as int, offsets[q], window),
            )
        }
}

/// What a merged page shows, each row with its source.
pub open spec fn page_shown(pages: Seq<CandidatePage>, sort: TrackSort, limit: usize) -> Seq<Tagged> {
    let sorted = sorted_candidates(tagged(pages), sort);
    sorted.take(if sorted.len() <= limit { sorted.len() as int } else { limit as int })
}

/// The offsets of the next page: each source's offset plus what this page
/// showed of it.
pub open spec fn next_offsets(
    streams: Seq<(TrackSourcePage, Seq<PageTrack>)>,
    offsets: Seq<int>,
    shown: Seq<Tagged>,
) -> Seq<int> {
    Seq::new(offsets.len(), |q: int| offsets[q] + count_source(shown, streams[q].0))
}

/// What the pages show, one after another.
pub open spec fn shown_through(runs: Seq<Seq<CandidatePage>>, sort: TrackSort, limit: usize) -> Seq<Tagged>
    decreases runs.len(),
{
    if runs.len() == 0 {
        Seq::empty()
    } else {
        shown_through(runs.drop_last(), sort, limit) + page_shown(runs.last(), sort, limit)
    }
}

/// Paging as a Tracks load does it: the first page asks every source from
/// its start, and each next page asks every source from its offset plus
/// what the page before showed of it.
pub open spec fn paged(
    streams: Seq<(TrackSourcePage, Seq<PageTrack>)>,
    sort: TrackSort,
    limit: usize,
    window: int,
    runs: Seq<Seq<CandidatePage>>,
    offsets: Seq<Seq<int>>,
) -> bool {
    &&& runs.len() >= 1
    &&& offsets.len() == runs.len()
    &&& forall|q: int| 0 <= q < streams.len() ==> #[trigger] offsets[0][q] == 0
    &&& forall|r: int| 0 <= r < runs.len() ==> pages_at(streams, #[trigger] offsets[r], window, runs[r])
    &&& forall|r: int|
        0 <= r < runs.len() - 1 ==> offsets[r + 1] == next_offsets(
            streams,
            #[trigger] offsets[r],
            page_shown(runs[r], sort, limit),
        )
}

/// What the pages shown so far are, with offsets `o` for the next page:
/// each source's first `o` rows, in merge order, every row from a source,
/// and no row ranked after one a source still has to return.
pub open spec fn paging_so_far(
    streams: Seq<(TrackSourcePage, Seq<PageTrack>)>,
    sort: TrackSort,
    a: Seq<Tagged>,
    o: Seq<int>,
) -> bool {
    &&& o.len() == streams.len()
    &&& forall|q: int| 0 <= q < streams.len() ==> 0 <= #[trigger] o[q] <= streams[q].1.len()
    &&& forall|q: int| 0 <= q < streams.len() ==> source_rows(a, (#[trigger] streams[q]).0) == streams[q].1.take(o[q])
    &&& in_merge_order(a, sort)
    &&& forall|i: int| 0 <= i < a.len() ==> exists|q: int| 0 <= q < streams.len() && (#[trigger] a[i]).0 == streams[q].0
    &&& forall|q: int, j: int, i: int|
        #![trigger a[i], streams[q].1[j]]
        0 <= q < streams.len() && o[q] <= j < streams[q].1.len() && 0 <= i < a.len() ==> candidate_ord(
            a[i],
            (streams[q].0, streams[q].1[j]),
            sort,
        ) <= 0
}

proof fn lemma_sorted_members(t: Seq<Tagged>, sort: TrackSort)
    ensures
        sorted_candidates(t, sort).len() == t.len(),
        forall|k: int| 0 <= k < sorted_candidates(t, sort).len() ==> t.contains(#[trigger] sorted_candidates(t, sort)[k]),
    decreases t.len(),
{
    if t.len() > 0 {
        let u = t.drop_last();
        lemma_sorted_members(u, sort);
        let su = sorted_candidates(u, sort);
        lemma_insert_members(su, t.last(), sort);
        assert forall|k: int| 0 <= k < sorted_candidates(t, sort).len() implies t.contains(
            #[trigger] sorted_candidates(t, sort)[k],
        ) by {
            let e = sorted_candidates(t, sort)[k];
            assert(e == insert_candidate(su, t.last(), sort)[k]);
            if e == t.last() {
                assert(t[t.len() - 1] == e);
            } else {
                let w = choose|w: int| 0 <= w < su.len() && su[w] == e;
                assert(su[w] == sorted_candidates(u, sort)[w]);
                let v = choose|v: int| 0 <= v < u.len() && u[v] == e;
                assert(t[v] == e);
            }
        }
    }
}

proof fn lemma_member_source_rows(u: Seq<Tagged>, i: int)
    requires
        0 <= i < u.len(),
    ensures
        exists|m: int| 0 <= m < source_rows(u, u[i].0).len() && source_rows(u, u[i].0)[m] == u[i].1,
    decreases u.len(),
{
    let src = u[i].0;
    let t = u.drop_last();
    if i == u.len() - 1 {
        let m = source_rows(t, src).len() as int;
        assert(source_rows(u, src)[m] == u[i].1);
    } else {
        assert(t[i] == u[i]);
        lemma_member_source_rows(t, i);
        let m = choose|m: int| 0 <= m < source_rows(t, src).len() && source_rows(t, src)[m] == t[i].1;
        assert(source_rows(u, src)[m] == u[i].1);
    }
}

proof fn lemma_window_page_ordered(stream: Seq<PageTrack>, offset: int, w: int, p: CandidatePage, sort: TrackSort)
    requires
        stream_ordered(p.source, stream, sort),
        0 <= offset,
        0 <= w,
        offset + w <= stream.len(),
        p.rows@ == stream.skip(offset).take(w),
    ensures
        page_ordered(p, sort),
{
    assert forall|i: int, j: int| 0 <= i < j < p.rows@.len() implies candidate_ord(
        (p.source, #[trigger] p.rows@[i]),
        (p.source, #[trigger] p.rows@[j]),
        sort,
    ) <= 0 by {
        assert(p.rows@[i] == stream[offset + i] && p.rows@[j] == stream[offset + j]);
    }
}

/// One page of the paging: its candidate pages are well formed, and what
/// it shows of source `q` is the front of its window.
proof fn lemma_page_share(
    streams: Seq<(TrackSourcePage, Seq<PageTrack>)>,
    sort: TrackSort,
    limit: usize,
    window: int,
    o: Seq<int>,
    pages: Seq<CandidatePage>,
    q: int,
)
    requires
        streams_distinct(streams),
        forall|k: int| 0 <= k < streams.len() ==> stream_ordered((#[trigger] streams[k]).0, streams[k].1, sort),
        0 <= window,
        pages_at(streams, o, window, pages),
        0 <= q < streams.len(),
    ensures
        sources_distinct(pages),
        forall|k: int| 0 <= k < pages.len() ==> page_ordered(#[trigger] pages[k], sort),
        ({
            let c = count_source(page_shown(pages, sort, limit), streams[q].0) as int;
            let wl = window_len(streams[q].1.len() as int, o[q], window);
            &&& c <= wl
            &&& source_rows(page_shown(pages, sort, limit), streams[q].0) == pages[q].rows@.take(c)
            &&& count_source(sorted_candidates(tagged(pages), sort), streams[q].0) == wl
        }),
{
    assert forall|i: int, j: int| 0 <= i < j < pages.len() implies (#[trigger] pages[i]).source != (
    #[trigger] pages[j]).source by {
        assert(streams[i].0 != streams[j].0);
    }
    assert forall|k: int| 0 <= k < pages.len() implies page_ordered(#[trigger] pages[k], sort) by {
        let wl = window_len(streams[k].1.len() as int, o[k], window);
        assert(stream_ordered(streams[k].0, streams[k].1, sort));
        lemma_window_page_ordered(streams[k].1, o[k], wl, pages[k], sort);
    }
    let src = streams[q].0;
    let sorted = sorted_candidates(tagged(pages), sort);
    let n = if sorted.len() <= limit { sorted.len() as int } else { limit as int };
    assert(pages[q].source == src);
    lemma_page_takes_the_front_of_each_source(pages, sort, limit, q);
    lemma_tagged_source_rows(pages, q);
    lemma_tagged_ordered(pages, sort);
    lemma_sorted_keeps_source_rows(tagged(pages), sort, src);
    lemma_count_take_le(sorted, n, src);
    lemma_source_rows_len(sorted, src);
}

/// A shown row of a page is a row of some source at or past that source's
/// offset.
proof fn lemma_step_origin(
    streams: Seq<(TrackSourcePage, Seq<PageTrack>)>,
    sort: TrackSort,
    limit: usize,
    window: int,
    o: Seq<int>,
    pages: Seq<CandidatePage>,
)
    requires
        streams_distinct(streams),
        forall|k: int| 0 <= k < streams.len() ==> stream_ordered((#[trigger] streams[k]).0, streams[k].1, sort),
        0 <= window,
        pages_at(streams, o, window, pages),
    ensures
        forall|k: int|
            0 <= k < page_shown(pages, sort, limit).len() ==> exists|q: int, j: int|
                0 <= q < streams.len() && o[q] <= j < streams[q].1.len() && (#[trigger] page_shown(
                    pages,
                    sort,
                    limit,
                )[k]) == (streams[q].0, streams[q].1[j]),
{
    let p = page_shown(pages, sort, limit);
    assert forall|k: int| 0 <= k < p.len() implies exists|q: int, j: int|
        0 <= q < streams.len() && o[q] <= j < streams[q].1.len() && (#[trigger] p[k]) == (
            streams[q].0,
            streams[q].1[j],
        ) by {
        lemma_shown_origin_at(streams, sort, limit, window, o, pages, k);
    }
}

proof fn lemma_shown_source_at(
    streams: Seq<(TrackSourcePage, Seq<PageTrack>)>,
    sort: TrackSort,
    limit: usize,
    window: int,
    o: Seq<int>,
    pages: Seq<CandidatePage>,
    k: int,
) -> (q: int)
    requires
        pages_at(streams, o, window, pages),
        0 <= k < page_shown(pages, sort, limit).len(),
    ensures
        0 <= q < streams.len(),
        page_shown(pages, sort, limit)[k].0 == streams[q].0,
{
    let p = page_shown(pages, sort, limit);
    let sorted = sorted_candidates(tagged(pages), sort);
    lemma_sorted_members(tagged(pages), sort);
    assert(p[k] == sorted[k]);
    assert(tagged(pages).contains(sorted[k]));
    let v = choose|v: int| 0 <= v < tagged(pages).len() && tagged(pages)[v] == sorted[k];
    lemma_tagged_sources(pages, v);
    let q = choose|q: int| 0 <= q < pages.len() && pages[q].source == tagged(pages)[v].0;
    assert(pages[q].source == streams[q].0);
    q
}

proof fn lemma_shown_origin_at(
    streams: Seq<(TrackSourcePage, Seq<PageTrack>)>,
    sort: TrackSort,
    limit: usize,
    window: int,
    o: Seq<int>,
    pages: Seq<CandidatePage>,
    k: int,
)
    requires
        streams_distinct(streams),
        forall|i: int| 0 <= i < streams.len() ==> stream_ordered((#[trigger] streams[i]).0, streams[i].1, sort),
        0 <= window,
        pages_at(streams, o, window, pages),
        0 <= k < page_shown(pages, sort, limit).len(),
    ensures
        exists|q: int, j: int|
            0 <= q < streams.len() && o[q] <= j < streams[q].1.len() && page_shown(pages, sort, limit)[k] == (
                streams[q].0,
                streams[q].1[j],
            ),
{
    let p = page_shown(pages, sort, limit);
    let q = lemma_shown_source_at(streams, sort, limit, window, o, pages, k);
    let c = count_source(p, streams[q].0) as int;
    assert(source_rows(p, streams[q].0) == pages[q].rows@.take(c) && c <= window_len(
        streams[q].1.len() as int,
        o[q],
        window,
    )) by {
        lemma_page_share(streams, sort, limit, window, o, pages, q);
    }
    lemma_member_source_rows(p, k);
    let m = choose|m: int| 0 <= m < source_rows(p, p[k].0).len() && source_rows(p, p[k].0)[m] == p[k].1;
    assert(pages[q].rows@.take(c)[m] == pages[q].rows@[m]);
    assert(pages[q].rows@[m] == streams[q].1[o[q] + m]);
    assert(p[k] == (streams[q].0, streams[q].1[o[q] + m]));
}

/// Each source's rows shown so far, after one more page.
proof fn lemma_step_rows(
    streams: Seq<(TrackSourcePage, Seq<PageTrack>)>,
    sort: TrackSort,
    limit: usize,
    window: int,
    a: Seq<Tagged>,
    o: Seq<int>,
    pages: Seq<CandidatePage>,
    q: int,
)
    requires
        streams_distinct(streams),
        forall|k: int| 0 <= k < streams.len() ==> stream_ordered((#[trigger] streams[k]).0, streams[k].1, sort),
        0 <= window,
        pages_at(streams, o, window, pages),
        0 <= q < streams.len(),
        source_rows(a, streams[q].0) == streams[q].1.take(o[q]),
    ensures
        ({
            let p = page_shown(pages, sort, limit);
            let no = next_offsets(streams, o, p);
            &&& 0 <= no[q] <= streams[q].1.len()
            &&& source_rows(a + p, streams[q].0) == streams[q].1.take(no[q])
        }),
{
    let p = page_shown(pages, sort, limit);
    lemma_page_share(streams, sort, limit, window, o, pages, q);
    let c = count_source(p, streams[q].0) as int;
    lemma_source_rows_concat(a, p, streams[q].0);
    lemma_shares_cover_the_stream(streams[q].1, o[q], window, c);
}

/// The rows shown so far, then one more page, are in merge order.
proof fn lemma_step_order(
    streams: Seq<(TrackSourcePage, Seq<PageTrack>)>,
    sort: TrackSort,
    limit: usize,
    window: int,
    a: Seq<Tagged>,
    o: Seq<int>,
    pages: Seq<CandidatePage>,
)
    requires
        streams_distinct(streams),
        forall|k: int| 0 <= k < streams.len() ==> stream_ordered((#[trigger] streams[k]).0, streams[k].1, sort),
        0 <= window,
        pages_at(streams, o, window, pages),
        in_merge_order(a, sort),
        forall|q: int, j: int, i: int|
            #![trigger a[i], streams[q].1[j]]
            0 <= q < streams.len() && o[q] <= j < streams[q].1.len() && 0 <= i < a.len() ==> candidate_ord(
                a[i],
                (streams[q].0, streams[q].1[j]),
                sort,
            ) <= 0,
    ensures
        in_merge_order(a + page_shown(pages, sort, limit), sort),
{
    let p = page_shown(pages, sort, limit);
    let sorted = sorted_candidates(tagged(pages), sort);
    let n = if sorted.len() <= limit { sorted.len() as int } else { limit as int };
    let b = a + p;
    lemma_step_origin(streams, sort, limit, window, o, pages);
    lemma_merged_page_in_merge_order(pages, sort, limit);
    assert forall|i: int, j: int| 0 <= i < j < b.len() implies candidate_ord(#[trigger] b[i], #[trigger] b[j], sort)
        <= 0 by {
        if j < a.len() {
            assert(b[i] == a[i] && b[j] == a[j]);
        } else if i >= a.len() {
            assert(b[i] == p[i - a.len()] && b[j] == p[j - a.len()]);
            assert(p[i - a.len()] == sorted.take(n)[i - a.len()]);
            assert(p[j - a.len()] == sorted.take(n)[j - a.len()]);
        } else {
            let k = j - a.len();
            assert(b[i] == a[i] && b[j] == p[k]);
            let (q, jj) = choose|q: int, jj: int|
                0 <= q < streams.len() && o[q] <= jj < streams[q].1.len() && (#[trigger] p[k]) == (
                    streams[q].0,
                    streams[q].1[jj],
                );
            assert(candidate_ord(a[i], (streams[q].0, streams[q].1[jj]), sort) <= 0);
        }
    }
}

/// Nothing shown so far, nor on one more page, ranks after a row a source
/// still has to return past the next offsets.
proof fn lemma_step_after(
    streams: Seq<(TrackSourcePage, Seq<PageTrack>)>,
    sort: TrackSort,
    limit: usize,
    window: int,
    a: Seq<Tagged>,
    o: Seq<int>,
    pages: Seq<CandidatePage>,
)
    requires
        streams_distinct(streams),
        forall|k: int| 0 <= k < streams.len() ==> stream_ordered((#[trigger] streams[k]).0, streams[k].1, sort),
        limit <= window,
        pages_at(streams, o, window, pages),
        forall|q: int, j: int, i: int|
            #![trigger a[i], streams[q].1[j]]
            0 <= q < streams.len() && o[q] <= j < streams[q].1.len() && 0 <= i < a.len() ==> candidate_ord(
                a[i],
                (streams[q].0, streams[q].1[j]),
                sort,
            ) <= 0,
    ensures
        ({
            let p = page_shown(pages, sort, limit);
            let b = a + p;
            let no = next_offsets(streams, o, p);
            forall|q: int, j: int, i: int|
                #![trigger b[i], streams[q].1[j]]
                0 <= q < streams.len() && no[q] <= j < streams[q].1.len() && 0 <= i < b.len() ==> candidate_ord(
                    b[i],
                    (streams[q].0, streams[q].1[j]),
                    sort,
                ) <= 0
        }),
{
    let p = page_shown(pages, sort, limit);
    let sorted = sorted_candidates(tagged(pages), sort);
    let b = a + p;
    let no = next_offsets(streams, o, p);
    assert forall|q: int, j: int, i: int|
        #![trigger b[i], streams[q].1[j]]
        0 <= q < streams.len() && no[q] <= j < streams[q].1.len() && 0 <= i < b.len() implies candidate_ord(
        b[i],
        (streams[q].0, streams[q].1[j]),
        sort,
    ) <= 0 by {
        lemma_page_share(streams, sort, limit, window, o, pages, q);
        if i < a.len() {
            assert(b[i] == a[i]);
        } else {
            let k = i - a.len();
            assert(b[i] == p[k] && p[k] == sorted[k]);
            assert(stream_ordered(streams[q].0, streams[q].1, sort));
            lemma_later_rows_follow_the_page(pages, sort, limit, q, streams[q].1, o[q], window, j);
        }
    }
}

/// One more page keeps what the paging so far is.
proof fn lemma_paging_step(
    streams: Seq<(TrackSourcePage, Seq<PageTrack>)>,
    sort: TrackSort,
    limit: usize,
    window: int,
    a: Seq<Tagged>,
    o: Seq<int>,
    pages: Seq<CandidatePage>,
)
    requires
        streams_distinct(streams),
        forall|k: int| 0 <= k < streams.len() ==> stream_ordered((#[trigger] streams[k]).0, streams[k].1, sort),
        limit <= window,
        pages_at(streams, o, window, pages),
        paging_so_far(streams, sort, a, o),
    ensures
        paging_so_far(
            streams,
            sort,
            a + page_shown(pages, sort, limit),
            next_offsets(streams, o, page_shown(pages, sort, limit)),
        ),
{
    let p = page_shown(pages, sort, limit);
    let b = a + p;
    let no = next_offsets(streams, o, p);
    assert forall|q: int| 0 <= q < streams.len() implies 0 <= #[trigger] no[q] <= streams[q].1.len() && source_rows(
        b,
        streams[q].0,
    ) == streams[q].1.take(no[q]) by {
        assert(source_rows(a, streams[q].0) == streams[q].1.take(o[q]));
        lemma_step_rows(streams, sort, limit, window, a, o, pages, q);
    }
    lemma_step_order(streams, sort, limit, window, a, o, pages);
    lemma_step_after(streams, sort, limit, window, a, o, pages);
    lemma_step_origin(streams, sort, limit, window, o, pages);
    assert forall|i: int| 0 <= i < b.len() implies exists|q: int| 0 <= q < streams.len() && (#[trigger] b[i]).0
        == streams[q].0 by {
        if i < a.len() {
            assert(b[i] == a[i]);
        } else {
            assert(b[i] == p[i - a.len()]);
            let (q, j) = choose|q: int, j: int|
                0 <= q < streams.len() && o[q] <= j < streams[q].1.len() && (#[trigger] p[i - a.len()]) == (
                    streams[q].0,
                    streams[q].1[j],
                );
        }
    }
}

proof fn lemma_paging_upto(
    streams: Seq<(TrackSourcePage, Seq<PageTrack>)>,
    sort: TrackSort,
    limit: usize,
    window: int,
    runs: Seq<Seq<CandidatePage>>,
    offsets: Seq<Seq<int>>,
    k: int,
)
    requires
        streams_distinct(streams),
        forall|i: int| 0 <= i < streams.len() ==> stream_ordered((#[trigger] streams[i]).0, streams[i].1, sort),
        limit <= window,
        paged(streams, sort, limit, window, runs, offsets),
        0 <= k < runs.len(),
    ensures
        paging_so_far(streams, sort, shown_through(runs.take(k), sort, limit), offsets[k]),
    decreases k,
{
    if k == 0 {
        assert(pages_at(streams, offsets[0], window, runs[0]));
        let a = shown_through(runs.take(0), sort, limit);
        assert(a =~= Seq::<Tagged>::empty());
        assert forall|q: int| 0 <= q < streams.len() implies source_rows(a, (#[trigger] streams[q]).0)
            == streams[q].1.take(offsets[0][q]) by {
            assert(offsets[0][q] == 0);
            assert(streams[q].1.take(0) =~= Seq::<PageTrack>::empty());
        }
        assert forall|q: int| 0 <= q < streams.len() implies 0 <= #[trigger] offsets[0][q] <= streams[q].1.len() by {
            assert(offsets[0][q] == 0);
        }
    } else {
        lemma_paging_upto(streams, sort, limit, window, runs, offsets, k - 1);
        assert(pages_at(streams, offsets[k - 1], window, runs[k - 1]));
        lemma_paging_step(
            streams,
            sort,
            limit,
            window,
            shown_through(runs.take(k - 1), sort, limit),
            offsets[k - 1],
            runs[k - 1],
        );
        assert(runs.take(k).drop_last() =~= runs.take(k - 1));
        assert(runs.take(k).last() == runs[k - 1]);
        assert(offsets[k] == next_offsets(streams, offsets[k - 1], page_shown(runs[k - 1], sort, limit)));
    }
}

/// The paging law of the Tracks tab: paging from the start of every source,
/// each page asking each source for `window` rows (more than a page holds)
/// from its offset plus what the pages before showed of it, until a page
/// has no more, shows every row of every source exactly once, each source's
/// rows in their own order, and all of them in one merge order.
pub proof fn lemma_paging_shows_every_row_once_in_order(
    streams: Seq<(TrackSourcePage, Seq<PageTrack>)>,
    sort: TrackSort,
    limit: usize,
    window: int,
    runs: Seq<Seq<CandidatePage>>,
    offsets: Seq<Seq<int>>,
)
    requires
        streams_distinct(streams),
        forall|i: int| 0 <= i < streams.len() ==> stream_ordered((#[trigger] streams[i]).0, streams[i].1, sort),
        limit < window,
        paged(streams, sort, limit, window, runs, offsets),
        sorted_candidates(tagged(runs.last()), sort).len() <= limit,
    ensures
        ({
            let all = shown_through(runs, sort, limit);
            &&& in_merge_order(all, sort)
            &&& forall|q: int| 0 <= q < streams.len() ==> source_rows(all, (#[trigger] streams[q]).0) == streams[q].1
            &&& forall|i: int| 0 <= i < all.len() ==> exists|q: int| 0 <= q < streams.len() && (#[trigger] all[i]).0 == streams[q].0
        }),
{
    let l = runs.len() - 1;
    lemma_paging_upto(streams, sort, limit, window, runs, offsets, l);
    let a = shown_through(runs.take(l), sort, limit);
    let o = offsets[l];
    let pages = runs[l];
    assert(pages_at(streams, o, window, pages));
    lemma_paging_step(streams, sort, limit, window, a, o, pages);
    assert(runs.take(l + 1) =~= runs);
    assert(runs.drop_last() =~= runs.take(l));
    let all = shown_through(runs, sort, limit);
    assert(all == a + page_shown(pages, sort, limit));
    let no = next_offsets(streams, o, page_shown(pages, sort, limit));
    assert forall|q: int| 0 <= q < streams.len() implies source_rows(all, (#[trigger] streams[q]).0)
        == streams[q].1 by {
        lemma_last_page_ends_each_stream(streams, sort, limit, window, o, pages, q);
        assert(streams[q].1.take(no[q]) =~= streams[q].1);
    }
}

/// A page with no more takes every source to its end.
proof fn lemma_last_page_ends_each_stream(
    streams: Seq<(TrackSourcePage, Seq<PageTrack>)>,
    sort: TrackSort,
    limit: usize,
    window: int,
    o: Seq<int>,
    pages: Seq<CandidatePage>,
    q: int,
)
    requires
        streams_distinct(streams),
        forall|i: int| 0 <= i < streams.len() ==> stream_ordered((#[trigger] streams[i]).0, streams[i].1, sort),
        limit < window,
        pages_at(streams, o, window, pages),
        sorted_candidates(tagged(pages), sort).len() <= limit,
        0 <= q < streams.len(),
    ensures
        next_offsets(streams, o, page_shown(pages, sort, limit))[q] == streams[q].1.len(),
{
    lemma_page_share(streams, sort, limit, window, o, pages, q);
    let sorted = sorted_candidates(tagged(pages), sort);
    assert(page_shown(pages, sort, limit) =~= sorted);
    lemma_count_le_len(sorted, streams[q].0);
}

// ---------------------------------------------------------------------------
// What each order puts first
// ---------------------------------------------------------------------------

/// The year orders: under "newest first" a track of a later known year comes
/// before one of an earlier year, under "oldest first" the earlier year comes
/// first, and under both a track with a known year comes before one without.
pub proof fn lemma_year_orders_put_the_asked_year_first(a: PageTrack, b: PageTrack)
    ensures
        a.year matches Some(ya) && b.year matches Some(yb) && ya > yb ==> spec_compare_tracks(
            a,
            b,
            TrackSort::YearDesc,
        ) == -1 && spec_compare_tracks(b, a, TrackSort::YearDesc) == 1,
        a.year matches Some(ya) && b.year matches Some(yb) && ya < yb ==> spec_compare_tracks(
            a,
            b,
            TrackSort::YearAsc,
        ) == -1 && spec_compare_tracks(b, a, TrackSort::YearAsc) == 1,
        a.year is Some && b.year is None ==> spec_compare_tracks(a, b, TrackSort::YearDesc) == -1
            && spec_compare_tracks(a, b, TrackSort::YearAsc) == -1,
{
}

/// "Recently added" puts the track indexed later first.
pub proof fn lemma_added_order_puts_the_newest_first(a: PageTrack, b: PageTrack)
    ensures
        a.indexed_at > b.indexed_at ==> spec_compare_tracks(a, b, TrackSort::AddedDesc) == -1,
        a.indexed_at < b.indexed_at ==> spec_compare_tracks(a, b, TrackSort::AddedDesc) == 1,
{
}

/// The title orders compare titles without regard to ASCII case, A to Z or
/// Z to A; the artist orders do the same with the artist a track is filed
/// under.
pub proof fn lemma_title_and_artist_orders(a: PageTrack, b: PageTrack)
    ensures
        lex_lt(ascii_lower_seq(a.title@), ascii_lower_seq(b.title@)) ==> spec_compare_tracks(
            a,
            b,
            TrackSort::TitleAsc,
        ) == -1 && spec_compare_tracks(b, a, TrackSort::TitleDesc) == -1,
        lex_lt(ascii_lower_seq(artist_key(a)), ascii_lower_seq(artist_key(b))) ==> spec_compare_tracks(
            a,
            b,
            TrackSort::ArtistAsc,
        ) == -1 && spec_compare_tracks(b, a, TrackSort::ArtistDesc) == -1,
{
    if lex_lt(ascii_lower_seq(a.title@), ascii_lower_seq(b.title@)) {
        lemma_ord_text_antisym(ascii_lower_seq(a.title@), ascii_lower_seq(b.title@));
    }
    if lex_lt(ascii_lower_seq(artist_key(a)), ascii_lower_seq(artist_key(b))) {
        lemma_ord_text_antisym(ascii_lower_seq(artist_key(a)), ascii_lower_seq(artist_key(b)));
    }
}

/// The grouped orders lead with what they group by: the artist for the
/// by-artist grouping, the album for the default (by-album) order, each
/// compared without regard to ASCII case.
pub proof fn lemma_grouped_orders_lead_with_their_group(a: PageTrack, b: PageTrack)
    ensures
        lex_lt(ascii_lower_seq(a.artist@), ascii_lower_seq(b.artist@)) ==> spec_compare_tracks(
            a,
            b,
            TrackSort::GroupArtist,
        ) == -1,
        lex_lt(ascii_lower_seq(a.album@), ascii_lower_seq(b.album@)) ==> spec_compare_tracks(
            a,
            b,
            TrackSort::Default,
        ) == -1,
        ascii_lower_seq(a.album@) == ascii_lower_seq(b.album@) && lex_lt(
            ascii_lower_seq(artist_key(a)),
            ascii_lower_seq(artist_key(b)),
        ) ==> spec_compare_tracks(a, b, TrackSort::Default) == -1,
{
}

/// Every order is a three-way comparison: -1, 0 or 1, and swapping the
/// tracks flips it.
pub proof fn lemma_compare_tracks_is_three_way(a: PageTrack, b: PageTrack, sort: TrackSort)
    ensures
        -1 <= spec_compare_tracks(a, b, sort) <= 1,
        spec_compare_tracks(a, b, sort) == -spec_compare_tracks(b, a, sort),
        spec_compare_tracks(a, a, sort) == 0,
{
    lemma_compare_tracks_antisym(a, b, sort);
    lemma_compare_tracks_antisym(a, a, sort);
}

} // verus!
