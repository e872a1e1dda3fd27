//! The credits and genres of the header of a local album copy: who the copy
//! is by, every artist its tracks credit, and its genres.
use vstd::prelude::*;
use crate::text::{
    chars_eq_ignore_ascii_case, chars_lt, chars_of, eq_ignore_ascii_case, lex_lt, lowercase,
    str_equals, string_from_chars, to_lowercase, trim, trimmed_chars,
};

verus! {

/// What the header reads of one track of the copy.
pub struct HeaderTrack {
    pub artist: String,
    pub album_artist: Option<String>,
    pub genres: Vec<String>,
}

/// The artist a track is filed under: its album artist, else its artist.
pub open spec fn filed_artist(t: HeaderTrack) -> Seq<char> {
    match t.album_artist {
        Some(a) => a@,
        None => t.artist@,
    }
}

/// Who the copy is by: the artist every track is filed
/// under when they agree, else `various`.
pub open spec fn spec_header_artist(tracks: Seq<HeaderTrack>, various: Seq<char>) -> Seq<char> {
    let lead = filed_artist(tracks[0]);
    if forall|i: int| 0 <= i < tracks.len() ==> filed_artist(#[trigger] tracks[i]) == lead {
        lead
    } else {
        various
    }
}

fn filed_artist_of(t: &HeaderTrack) -> (r: String)
    ensures
        r@ == filed_artist(*t),
{
    match &t.album_artist {
        Some(a) => a.clone(),
        None => t.artist.clone(),
    }
}

pub fn header_artist(tracks: &Vec<HeaderTrack>, various: &str) -> (r: String)
    requires
        tracks@.len() > 0,
    ensures
        r@ == spec_header_artist(tracks@, various@),
{
    let lead = filed_artist_of(&tracks[0]);
    let mut i: usize = 0;
    while i < tracks.len()
        invariant
            0 <= i <= tracks@.len(),
            tracks@.len() > 0,
            lead@ == filed_artist(tracks@[0]),
            forall|k: int| 0 <= k < i ==> filed_artist(#[trigger] tracks@[k]) == lead@,
        decreases tracks@.len() - i,
    {
        let a = filed_artist_of(&tracks[i]);
        if !str_equals(a.as_str(), lead.as_str()) {
            return String::from_str(various);
        }
        i = i + 1;
    }
    lead
}

/// The artists the tracks credit, trimmed, each once, in the order they
/// first appear; a blank credit counts for none.
pub open spec fn credited_artists(tracks: Seq<HeaderTrack>) -> Seq<Seq<char>>
    decreases tracks.len(),
{
    if tracks.len() == 0 {
        Seq::empty()
    } else {
        let d = credited_artists(tracks.drop_last());
        let a = trim(tracks.last().artist@);
        if a.len() > 0 && !d.contains(a) {
            d.push(a)
        } else {
            d
        }
    }
}

/// The parts joined with `sep` between them.
pub open spec fn joined(parts: Seq<Seq<char>>, sep: Seq<char>) -> Seq<char>
    decreases parts.len(),
{
    if parts.len() == 0 {
        Seq::empty()
    } else if parts.len() == 1 {
        parts[0]
    } else {
        joined(parts.drop_last(), sep) + sep + parts.last()
    }
}

pub open spec fn texts_view(v: Seq<Vec<char>>) -> Seq<Seq<char>> {
    v.map_values(|c: Vec<char>| c@)
}

fn contains_text(v: &Vec<Vec<char>>, x: &Vec<char>) -> (r: bool)
    ensures
        r == texts_view(v@).contains(x@),
{
    let mut i: usize = 0;
    while i < v.len()
        invariant
            0 <= i <= v@.len(),
            forall|k: int| 0 <= k < i ==> (#[trigger] v@[k])@ != x@,
        decreases v@.len() - i,
    {
        if crate::text::chars_equal(&v[i], x) {
            assert(texts_view(v@)[i as int] == x@);
            return true;
        }
        i = i + 1;
    }
    proof {
        if texts_view(v@).contains(x@) {
            let k = texts_view(v@).index_of(x@);
            assert(v@[k]@ == x@);
        }
    }
    false
}

/// Every artist the copy's tracks credit, joined by ", " (the header's
/// "+N more artists" list).
pub fn header_all_artists(tracks: &Vec<HeaderTrack>) -> (r: String)
    ensures
        r@ == joined(credited_artists(tracks@), ", "@),
{
    let mut names: Vec<Vec<char>> = Vec::new();
    let mut i: usize = 0;
    while i < tracks.len()
        invariant
            0 <= i <= tracks@.len(),
            texts_view(names@) == credited_artists(tracks@.take(i as int)),
        decreases tracks@.len() - i,
    {
        let a = trimmed_chars(tracks[i].artist.as_str());
        proof {
            assert(tracks@.take(i + 1).drop_last() =~= tracks@.take(i as int));
            assert(tracks@.take(i + 1).last() == tracks@[i as int]);
        }
        if a.len() > 0 && !contains_text(&names, &a) {
            let ghost before = texts_view(names@);
            names.push(a);
            proof {
                assert(texts_view(names@) =~= before.push(trim(tracks@[i as int].artist@)));
            }
        }
        i = i + 1;
    }
    proof {
        assert(tracks@.take(i as int) =~= tracks@);
    }
    let mut out: Vec<char> = Vec::new();
    let mut k: usize = 0;
    let ghost parts = texts_view(names@);
    while k < names.len()
        invariant
            0 <= k <= names@.len(),
            parts == texts_view(names@),
            out@ == joined(parts.take(k as int), ", "@),
        decreases names@.len() - k,
    {
        let ghost before = out@;
        if k > 0 {
            out.push(',');
            out.push(' ');
        }
        let part = &names[k];
        let mut m: usize = 0;
        let ghost mid = out@;
        while m < part.len()
            invariant
                0 <= m <= part@.len(),
                out@ == mid + part@.take(m as int),
            decreases part@.len() - m,
        {
            out.push(part[m]);
            proof {
                assert(out@ =~= mid + part@.take(m + 1));
            }
            m = m + 1;
        }
        proof {
            assert(part@.take(m as int) =~= part@);
            assert(parts.take(k + 1).drop_last() =~= parts.take(k as int));
            assert(parts.take(k + 1).last() == part@);
            reveal_strlit(", ");
            if k == 0 {
                assert(parts.take(1).len() == 1);
                assert(out@ =~= parts.take(1)[0]);
            } else {
                assert(mid =~= before + ", "@);
                assert(out@ =~= joined(parts.take(k as int), ", "@) + ", "@ + part@);
            }
        }
        k = k + 1;
    }
    proof {
        assert(parts.take(k as int) =~= parts);
    }
    string_from_chars(&out)
}

/// Every genre of the tracks, track by track.
pub open spec fn all_genres(tracks: Seq<HeaderTrack>) -> Seq<Seq<char>>
    decreases tracks.len(),
{
    if tracks.len() == 0 {
        Seq::empty()
    } else {
        all_genres(tracks.drop_last()) + texts_of(tracks.last().genres@)
    }
}

pub open spec fn texts_of(v: Seq<String>) -> Seq<Seq<char>> {
    v.map_values(|g: String| g@)
}

/// `x` inserted from the back after every genre whose lower-cased text is
/// not above its own (the stable `sort_by_key` on lower-cased text).
pub open spec fn insert_genre(s: Seq<Seq<char>>, x: Seq<char>) -> Seq<Seq<char>>
    decreases s.len(),
{
    if s.len() == 0 {
        seq![x]
    } else if lex_lt(lowercase(x), lowercase(s.last())) {
        insert_genre(s.drop_last(), x).push(s.last())
    } else {
        s.push(x)
    }
}

pub open spec fn sorted_genres(s: Seq<Seq<char>>) -> Seq<Seq<char>>
    decreases s.len(),
{
    if s.len() == 0 {
        s
    } else {
        insert_genre(sorted_genres(s.drop_last()), s.last())
    }
}

/// A genre that repeats the one kept before it, up to ASCII case, left out
/// (`dedup_by` with `eq_ignore_ascii_case`).
pub open spec fn dedup_genres(s: Seq<Seq<char>>) -> Seq<Seq<char>>
    decreases s.len(),
{
    if s.len() == 0 {
        s
    } else {
        let d = dedup_genres(s.drop_last());
        if d.len() > 0 && eq_ignore_ascii_case(d.last(), s.last()) {
            d
        } else {
            d.push(s.last())
        }
    }
}

/// The genres of the copy's header.
pub open spec fn spec_header_genres(tracks: Seq<HeaderTrack>) -> Seq<Seq<char>> {
    dedup_genres(sorted_genres(all_genres(tracks)))
}

proof fn lemma_insert_genre_at(s: Seq<Seq<char>>, x: Seq<char>, j: int)
    requires
        0 <= j <= s.len(),
        forall|k: int| j <= k < s.len() ==> lex_lt(lowercase(x), lowercase(#[trigger] s[k])),
        j == 0 || !lex_lt(lowercase(x), lowercase(s[j - 1])),
    ensures
        insert_genre(s, x) == s.take(j).push(x) + s.skip(j),
    decreases s.len(),
{
    if s.len() == 0 {
        assert(s.take(j).push(x) + s.skip(j) =~= seq![x]);
    } else if j == s.len() {
        assert(s.take(j) =~= s);
        assert(s.take(j).push(x) + s.skip(j) =~= s.push(x));
    } else {
        let t = s.drop_last();
        assert(lex_lt(lowercase(x), lowercase(s[s.len() - 1])));
        assert forall|k: int| j <= k < t.len() implies lex_lt(lowercase(x), lowercase(#[trigger] t[k])) by {
            assert(t[k] == s[k]);
        }
        if j > 0 {
            assert(t[j - 1] == s[j - 1]);
        }
        lemma_insert_genre_at(t, x, j);
        assert((t.take(j).push(x) + t.skip(j)).push(s.last()) =~= s.take(j).push(x) + s.skip(j));
    }
}

pub fn header_genres(tracks: &Vec<HeaderTrack>) -> (r: Vec<String>)
    ensures
        texts_of(r@) == spec_header_genres(tracks@),
{
    // every genre, track by track
    let mut all: Vec<String> = Vec::new();
    let mut i: usize = 0;
    while i < tracks.len()
        invariant
            0 <= i <= tracks@.len(),
            texts_of(all@) == all_genres(tracks@.take(i as int)),
        decreases tracks@.len() - i,
    {
        let gs = &tracks[i].genres;
        let ghost base = texts_of(all@);
        let mut k: usize = 0;
        while k < gs.len()
            invariant
                0 <= k <= gs@.len(),
                texts_of(all@) == base + texts_of(gs@.take(k as int)),
            decreases gs@.len() - k,
        {
            let g = gs[k].clone();
            let ghost prev = all@;
            all.push(g);
            proof {
                assert(texts_of(all@) =~= texts_of(prev).push(gs@[k as int]@));
                assert(texts_of(gs@.take(k + 1)) =~= texts_of(gs@.take(k as int)).push(gs@[k as int]@));
                assert(texts_of(all@) =~= base + texts_of(gs@.take(k + 1)));
            }
            k = k + 1;
        }
        proof {
            assert(gs@.take(k as int) =~= gs@);
            assert(tracks@.take(i + 1).drop_last() =~= tracks@.take(i as int));
            assert(tracks@.take(i + 1).last() == tracks@[i as int]);
        }
        i = i + 1;
    }
    proof {
        assert(tracks@.take(i as int) =~= tracks@);
    }
    merge_genres(&all)
}

/// A list of genres merged (as the album header and the album merge do):
/// in a stable sort by lower-cased text, with a genre that repeats the one
/// kept before it, up to ASCII case, left out.
pub fn merge_genres(all: &Vec<String>) -> (r: Vec<String>)
    ensures
        texts_of(r@) == dedup_genres(sorted_genres(texts_of(all@))),
{
    let ghost view = texts_of(all@);
    // the stable sort by lower-cased text
    let mut sorted: Vec<String> = Vec::new();
    let mut keys: Vec<Vec<char>> = Vec::new();
    let mut n: usize = 0;
    while n < all.len()
        invariant
            0 <= n <= all@.len(),
            view == texts_of(all@),
            texts_of(sorted@) == sorted_genres(view.take(n as int)),
            keys@.len() == sorted@.len(),
            forall|q: int| 0 <= q < keys@.len() ==> (#[trigger] keys@[q])@ == lowercase(sorted@[q]@),
        decreases all@.len() - n,
    {
        let x = all[n].clone();
        let xk = chars_of(to_lowercase(x.as_str()).as_str());
        let ghost sv = texts_of(sorted@);
        let mut j: usize = sorted.len();
        loop
            invariant
                0 <= j <= sorted@.len(),
                keys@.len() == sorted@.len(),
                sv == texts_of(sorted@),
                forall|q: int| 0 <= q < keys@.len() ==> (#[trigger] keys@[q])@ == lowercase(sorted@[q]@),
                xk@ == lowercase(x@),
                forall|q: int| j <= q < sv.len() ==> lex_lt(lowercase(x@), lowercase(#[trigger] sv[q])),
            ensures
                0 <= j <= sorted@.len(),
                forall|q: int| j <= q < sv.len() ==> lex_lt(lowercase(x@), lowercase(#[trigger] sv[q])),
                j == 0 || !lex_lt(lowercase(x@), lowercase(sv[j - 1])),
            decreases j,
        {
            if j == 0 {
                break;
            }
            assert(keys@[j - 1]@ == lowercase(sv[j - 1]));
            if !chars_lt(&xk, &keys[j - 1]) {
                break;
            }
            j = j - 1;
        }
        proof {
            lemma_insert_genre_at(sv, x@, j as int);
            assert(view.take(n + 1).drop_last() =~= view.take(n as int));
            assert(view.take(n + 1).last() == x@);
        }
        let ghost ks = keys@;
        let ghost ss = sorted@;
        sorted.insert(j, x);
        keys.insert(j, xk);
        proof {
            assert(texts_of(sorted@) =~= sv.take(j as int).push(x@) + sv.skip(j as int));
            assert forall|q: int| 0 <= q < keys@.len() implies (#[trigger] keys@[q])@ == lowercase(sorted@[q]@) by {
                if q < j {
                    assert(keys@[q] == ks[q] && sorted@[q] == ss[q]);
                } else if q > j {
                    assert(keys@[q] == ks[q - 1] && sorted@[q] == ss[q - 1]);
                }
            }
        }
        n = n + 1;
    }
    proof {
        assert(view.take(n as int) =~= view);
    }
    // repeats up to ASCII case left out
    let ghost sv = texts_of(sorted@);
    let mut out: Vec<String> = Vec::new();
    let mut m: usize = 0;
    while m < sorted.len()
        invariant
            0 <= m <= sorted@.len(),
            sv == texts_of(sorted@),
            texts_of(out@) == dedup_genres(sv.take(m as int)),
        decreases sorted@.len() - m,
    {
        let x = sorted[m].clone();
        proof {
            assert(sv.take(m + 1).drop_last() =~= sv.take(m as int));
            assert(sv.take(m + 1).last() == x@);
        }
        let repeat = if out.len() > 0 {
            let a = chars_of(out[out.len() - 1].as_str());
            let b = chars_of(x.as_str());
            chars_eq_ignore_ascii_case(&a, &b)
        } else {
            false
        };
        if !repeat {
            let ghost before = texts_of(out@);
            out.push(x);
            proof {
                assert(texts_of(out@) =~= before.push(sv[m as int]));
            }
        }
        m = m + 1;
    }
    proof {
        assert(sv.take(m as int) =~= sv);
    }
    out
}

} // verus!
