//! The facets of an artist row of the Local Library's Artists tab: the
//! sources, formats, quality tiers and years of the albums credited to the
//! artist, each listed once and in order, and the latest year.
use vstd::prelude::*;
use crate::text::{
    ascii_lower_seq, chars_equal, chars_lt, chars_of, chars_to_ascii_lower, decimal, lex_lt, lemma_lex_irreflexive,
    lemma_lex_total, lemma_lex_transitive, push_decimal, string_from_chars,
};

verus! {

/// What the facet pass reads of one album credited to the artist: its
/// source badge, the badges of every source it comes from (none when it has
/// one source), its format's name, its quality tier ("" for none) and year.
pub struct FacetAlbum {
    pub source: String,
    pub sources: Vec<String>,
    pub format: String,
    pub tier: String,
    pub year: Option<u32>,
}

/// The facets of an artist row.
pub struct ArtistFacets {
    pub sources: Vec<String>,
    pub formats: Vec<String>,
    pub quality_tiers: Vec<String>,
    pub years: Vec<u32>,
    /// The latest year, as text; "" when no album has one.
    pub year: String,
}

pub open spec fn strings_view(v: Seq<String>) -> Seq<Seq<char>> {
    v.map_values(|s: String| s@)
}

/// Strictly ascending text: in order, each value once.
pub open spec fn text_ascending(s: Seq<Seq<char>>) -> bool {
    forall|i: int, j: int| 0 <= i < j < s.len() ==> lex_lt(#[trigger] s[i], #[trigger] s[j])
}

/// Strictly ascending numbers.
pub open spec fn years_ascending(s: Seq<u32>) -> bool {
    forall|i: int, j: int| 0 <= i < j < s.len() ==> #[trigger] s[i] < #[trigger] s[j]
}

/// The source badges of an album: every source it comes from, else its own.
pub open spec fn album_sources(a: FacetAlbum) -> Seq<Seq<char>> {
    if a.sources@.len() == 0 {
        seq![a.source@]
    } else {
        strings_view(a.sources@)
    }
}

/// The values some album offers, for a facet that gives each album a set of
/// values.
pub open spec fn facet_set<T>(albums: Seq<FacetAlbum>, f: spec_fn(FacetAlbum) -> Set<T>) -> Set<T> {
    Set::new(|w: T| exists|i: int| 0 <= i < albums.len() && #[trigger] f(albums[i]).contains(w))
}

/// Every source badge of the albums.
pub open spec fn all_sources(albums: Seq<FacetAlbum>) -> Set<Seq<char>> {
    facet_set(albums, |a: FacetAlbum| album_sources(a).to_set())
}

/// Every format of the albums, lower-cased.
pub open spec fn all_formats(albums: Seq<FacetAlbum>) -> Set<Seq<char>> {
    facet_set(albums, |a: FacetAlbum| set![ascii_lower_seq(a.format@)])
}

/// Every quality tier of the albums that has one.
pub open spec fn all_tiers(albums: Seq<FacetAlbum>) -> Set<Seq<char>> {
    facet_set(
        albums,
        |a: FacetAlbum|
            if a.tier@.len() > 0 {
                set![a.tier@]
            } else {
                Set::empty()
            },
    )
}

/// Every year of the albums that has one.
pub open spec fn all_years(albums: Seq<FacetAlbum>) -> Set<u32> {
    facet_set(
        albums,
        |a: FacetAlbum|
            match a.year {
                Some(y) => set![y],
                None => Set::empty(),
            },
    )
}

/// One more album adds its values to a facet.
proof fn lemma_facet_step<T>(s: Seq<FacetAlbum>, i: int, f: spec_fn(FacetAlbum) -> Set<T>)
    requires
        0 <= i < s.len(),
    ensures
        facet_set(s.take(i + 1), f) == facet_set(s.take(i), f).union(f(s[i])),
{
    let a = s.take(i + 1);
    let b = s.take(i);
    assert forall|w: T| #[trigger] facet_set(a, f).contains(w) == facet_set(b, f).union(f(s[i])).contains(w) by {
        if facet_set(a, f).contains(w) {
            let k = choose|k: int| 0 <= k < a.len() && #[trigger] f(a[k]).contains(w);
            if k < i {
                assert(b[k] == a[k]);
                assert(f(b[k]).contains(w));
            } else {
                assert(a[k] == s[i]);
            }
        }
        if facet_set(b, f).contains(w) {
            let k = choose|k: int| 0 <= k < b.len() && #[trigger] f(b[k]).contains(w);
            assert(a[k] == b[k]);
            assert(f(a[k]).contains(w));
        }
        if f(s[i]).contains(w) {
            assert(a[i] == s[i]);
            assert(f(a[i]).contains(w));
        }
    }
    assert(facet_set(a, f) =~= facet_set(b, f).union(f(s[i])));
}

proof fn lemma_facet_empty<T>(s: Seq<FacetAlbum>, f: spec_fn(FacetAlbum) -> Set<T>)
    ensures
        facet_set(s.take(0), f) == Set::<T>::empty(),
{
    assert(facet_set(s.take(0), f) =~= Set::<T>::empty());
}

/// Add `x` to strictly ascending text, unless it is there.
fn add_text(v: &mut Vec<String>, x: String)
    requires
        text_ascending(strings_view(old(v)@)),
    ensures
        text_ascending(strings_view(final(v)@)),
        strings_view(final(v)@).to_set() == strings_view(old(v)@).to_set().insert(x@),
{
    let ghost s = strings_view(v@);
    let xc = chars_of(x.as_str());
    let mut j: usize = 0;
    while j < v.len() && chars_lt(&chars_of(v[j].as_str()), &xc)
        invariant
            0 <= j <= v@.len(),
            s == strings_view(v@),
            xc@ == x@,
            forall|k: int| 0 <= k < j ==> lex_lt(#[trigger] s[k], x@),
        decreases v@.len() - j,
    {
        j = j + 1;
    }
    let same = if j < v.len() {
        let vj = chars_of(v[j].as_str());
        chars_equal(&vj, &xc)
    } else {
        false
    };
    if same {
        proof {
            assert(s[j as int] == x@);
            assert(s.to_set().insert(x@) =~= s.to_set()) by {
                assert(s.contains(x@));
            }
        }
        return;
    }
    proof {
        if j < s.len() {
            assert(!lex_lt(s[j as int], x@));
            assert(s[j as int] != x@);
            if !lex_lt(x@, s[j as int]) {
                lemma_lex_total(x@, s[j as int], 0);
            }
        }
    }
    v.insert(j, x);
    proof {
        let t = strings_view(v@);
        assert(t =~= s.insert(j as int, xc@));
        assert forall|a: int, b: int| 0 <= a < b < t.len() implies lex_lt(#[trigger] t[a], #[trigger] t[b]) by {
            if b < j {
                assert(t[a] == s[a] && t[b] == s[b]);
            } else if b == j {
                assert(t[a] == s[a]);
            } else if a < j {
                assert(t[a] == s[a] && t[b] == s[b - 1]);
                assert(lex_lt(s[a], x@));
                if b - 1 > j {
                    assert(lex_lt(s[j as int], s[b - 1]));
                    lemma_lex_transitive(x@, s[j as int], s[b - 1], 0);
                }
                lemma_lex_transitive(s[a], x@, s[b - 1], 0);
            } else if a == j {
                assert(t[b] == s[b - 1]);
                if b - 1 > j {
                    assert(lex_lt(s[j as int], s[b - 1]));
                    lemma_lex_transitive(x@, s[j as int], s[b - 1], 0);
                }
            } else {
                assert(t[a] == s[a - 1] && t[b] == s[b - 1]);
            }
        }
        assert(t.to_set() =~= s.to_set().insert(x@)) by {
            assert forall|w: Seq<char>| #[trigger] t.to_set().contains(w) == s.to_set().insert(x@).contains(w) by {
                if t.contains(w) {
                    let k = t.index_of(w);
                    if k < j {
                        assert(t[k] == s[k]);
                    } else if k > j {
                        assert(t[k] == s[k - 1]);
                    }
                }
                if s.contains(w) {
                    let k = s.index_of(w);
                    if k < j {
                        assert(t[k] == s[k]);
                    } else {
                        assert(t[k + 1] == s[k]);
                    }
                }
                if w == x@ {
                    assert(t[j as int] == x@);
                }
            }
        }
    }
}

/// Add `y` to strictly ascending years, unless it is there.
fn add_year(v: &mut Vec<u32>, y: u32)
    requires
        years_ascending(old(v)@),
    ensures
        years_ascending(final(v)@),
        final(v)@.to_set() == old(v)@.to_set().insert(y),
{
    let ghost s = v@;
    let mut j: usize = 0;
    while j < v.len() && v[j] < y
        invariant
            0 <= j <= v@.len(),
            s == v@,
            forall|k: int| 0 <= k < j ==> #[trigger] s[k] < y,
        decreases v@.len() - j,
    {
        j = j + 1;
    }
    if j < v.len() && v[j] == y {
        proof {
            assert(s.contains(y));
            assert(s.to_set().insert(y) =~= s.to_set());
        }
        return;
    }
    v.insert(j, y);
    proof {
        let t = v@;
        assert forall|a: int, b: int| 0 <= a < b < t.len() implies #[trigger] t[a] < #[trigger] t[b] by {
            if b < j {
                assert(t[a] == s[a] && t[b] == s[b]);
            } else if b == j {
                assert(t[a] == s[a]);
            } else if a < j {
                assert(t[a] == s[a] && t[b] == s[b - 1]);
                if b - 1 > j {
                    assert(s[j as int] < s[b - 1]);
                }
            } else if a == j {
                assert(t[b] == s[b - 1]);
                if b - 1 > j {
                    assert(s[j as int] < s[b - 1]);
                }
            } else {
                assert(t[a] == s[a - 1] && t[b] == s[b - 1]);
            }
        }
        assert(t.to_set() =~= s.to_set().insert(y)) by {
            assert forall|w: u32| #[trigger] t.to_set().contains(w) == s.to_set().insert(y).contains(w) by {
                if t.contains(w) {
                    let k = t.index_of(w);
                    if k < j {
                        assert(t[k] == s[k]);
                    } else if k > j {
                        assert(t[k] == s[k - 1]);
                    }
                }
                if s.contains(w) {
                    let k = s.index_of(w);
                    if k < j {
                        assert(t[k] == s[k]);
                    } else {
                        assert(t[k + 1] == s[k]);
                    }
                }
                if w == y {
                    assert(t[j as int] == y);
                }
            }
        }
    }
}

/// The largest of strictly ascending years is the last one.
pub open spec fn latest_year_text(years: Seq<u32>) -> Seq<char> {
    if years.len() == 0 {
        Seq::empty()
    } else {
        decimal(years.last() as nat)
    }
}

/// The facets of an artist row
/// over the albums credited to the artist: the source badges, the formats
/// lower-cased, the quality tiers that are known, and the years, each
/// listed once in ascending order, and the latest year as text.
pub fn artist_facets(albums: &Vec<FacetAlbum>) -> (f: ArtistFacets)
    ensures
        text_ascending(strings_view(f.sources@)),
        strings_view(f.sources@).to_set() == all_sources(albums@),
        text_ascending(strings_view(f.formats@)),
        strings_view(f.formats@).to_set() == all_formats(albums@),
        text_ascending(strings_view(f.quality_tiers@)),
        strings_view(f.quality_tiers@).to_set() == all_tiers(albums@),
        years_ascending(f.years@),
        f.years@.to_set() == all_years(albums@),
        f.year@ == latest_year_text(f.years@),
{
    let ghost fs = |a: FacetAlbum| album_sources(a).to_set();
    let ghost ff = |a: FacetAlbum| set![ascii_lower_seq(a.format@)];
    let ghost ft = |a: FacetAlbum|
        if a.tier@.len() > 0 {
            set![a.tier@]
        } else {
            Set::empty()
        };
    let ghost fy = |a: FacetAlbum|
        match a.year {
            Some(y) => set![y],
            None => Set::empty(),
        };
    let mut sources: Vec<String> = Vec::new();
    let mut formats: Vec<String> = Vec::new();
    let mut tiers: Vec<String> = Vec::new();
    let mut years: Vec<u32> = Vec::new();
    proof {
        lemma_facet_empty(albums@, fs);
        lemma_facet_empty(albums@, ff);
        lemma_facet_empty(albums@, ft);
        lemma_facet_empty(albums@, fy);
        assert(strings_view(sources@).to_set() =~= Set::<Seq<char>>::empty());
        assert(strings_view(formats@).to_set() =~= Set::<Seq<char>>::empty());
        assert(strings_view(tiers@).to_set() =~= Set::<Seq<char>>::empty());
        assert(years@.to_set() =~= Set::<u32>::empty());
    }
    let mut i: usize = 0;
    while i < albums.len()
        invariant
            0 <= i <= albums@.len(),
            text_ascending(strings_view(sources@)),
            strings_view(sources@).to_set() == facet_set(albums@.take(i as int), fs),
            text_ascending(strings_view(formats@)),
            strings_view(formats@).to_set() == facet_set(albums@.take(i as int), ff),
            text_ascending(strings_view(tiers@)),
            strings_view(tiers@).to_set() == facet_set(albums@.take(i as int), ft),
            years_ascending(years@),
            years@.to_set() == facet_set(albums@.take(i as int), fy),
            fs == (|a: FacetAlbum| album_sources(a).to_set()),
            ff == (|a: FacetAlbum| set![ascii_lower_seq(a.format@)]),
            ft == (|a: FacetAlbum|
                if a.tier@.len() > 0 {
                    set![a.tier@]
                } else {
                    Set::empty()
                }),
            fy == (|a: FacetAlbum|
                match a.year {
                    Some(y) => set![y],
                    None => Set::empty(),
                }),
        decreases albums@.len() - i,
    {
        let a = &albums[i];
        proof {
            lemma_facet_step(albums@, i as int, fs);
            lemma_facet_step(albums@, i as int, ff);
            lemma_facet_step(albums@, i as int, ft);
            lemma_facet_step(albums@, i as int, fy);
        }
        let ghost before = strings_view(sources@).to_set();
        if a.sources.len() == 0 {
            add_text(&mut sources, a.source.clone());
            proof {
                Seq::<Seq<char>>::empty().lemma_push_to_set_commute(a.source@);
                assert(seq![a.source@] =~= Seq::<Seq<char>>::empty().push(a.source@));
                assert(Seq::<Seq<char>>::empty().to_set() =~= Set::<Seq<char>>::empty());
                assert(album_sources(*a).to_set() =~= set![a.source@]);
                assert(before.insert(a.source@) =~= before.union(set![a.source@]));
            }
        } else {
            let mut k: usize = 0;
            while k < a.sources.len()
                invariant
                    0 <= k <= a.sources@.len(),
                    text_ascending(strings_view(sources@)),
                    strings_view(sources@).to_set() == before.union(
                        strings_view(a.sources@.take(k as int)).to_set(),
                    ),
                decreases a.sources@.len() - k,
            {
                let w = a.sources[k].clone();
                let ghost mid = strings_view(sources@).to_set();
                add_text(&mut sources, w);
                proof {
                    assert(strings_view(a.sources@.take(k + 1)) =~= strings_view(
                        a.sources@.take(k as int),
                    ).push(a.sources@[k as int]@));
                    strings_view(a.sources@.take(k as int)).lemma_push_to_set_commute(
                        a.sources@[k as int]@,
                    );
                    assert(strings_view(a.sources@.take(k + 1)).to_set() =~= strings_view(
                        a.sources@.take(k as int),
                    ).to_set().insert(a.sources@[k as int]@));
                    assert(strings_view(sources@).to_set() =~= before.union(
                        strings_view(a.sources@.take(k + 1)).to_set(),
                    ));
                }
                k = k + 1;
            }
            proof {
                assert(a.sources@.take(k as int) =~= a.sources@);
                assert(album_sources(*a) == strings_view(a.sources@));
            }
        }
        let lower = chars_to_ascii_lower(&chars_of(a.format.as_str()));
        let ghost fbefore = strings_view(formats@).to_set();
        add_text(&mut formats, string_from_chars(&lower));
        proof {
            assert(fbefore.insert(ascii_lower_seq(a.format@)) =~= fbefore.union(
                set![ascii_lower_seq(a.format@)],
            ));
        }
        let ghost tbefore = strings_view(tiers@).to_set();
        if chars_of(a.tier.as_str()).len() > 0 {
            add_text(&mut tiers, a.tier.clone());
            proof {
                assert(tbefore.insert(a.tier@) =~= tbefore.union(set![a.tier@]));
            }
        } else {
            proof {
                assert(tbefore =~= tbefore.union(Set::empty()));
            }
        }
        let ghost ybefore = years@.to_set();
        match a.year {
            Some(y) => {
                add_year(&mut years, y);
                proof {
                    assert(ybefore.insert(y) =~= ybefore.union(set![y]));
                }
            },
            None => {
                proof {
                    assert(ybefore =~= ybefore.union(Set::empty()));
                }
            },
        }
        i = i + 1;
    }
    proof {
        assert(albums@.take(i as int) =~= albums@);
    }
    let mut year = String::new();
    if years.len() > 0 {
        push_decimal(&mut year, years[years.len() - 1] as u64);
        assert(year@ =~= decimal(years@.last() as nat));
    }
    ArtistFacets { sources, formats, quality_tiers: tiers, years, year }
}

} // verus!
