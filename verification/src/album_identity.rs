use vstd::prelude::*;
use crate::album_credits::{credit_names, credit_names_of, dedup_credits, join_with_commas, merge_credits, sorted_credits};
use crate::album_header::{dedup_genres, joined, merge_genres, sorted_genres, texts_of};
use crate::local_names::{logical_title, name_key, spec_name_key, spec_strip_edition};
use crate::text::{chars_lt, chars_of, lex_lt, str_equals};
use vstd::utf8::encode_utf8;

verus! {

// ---------------------------------------------------------------------------
// Source precedence
// ---------------------------------------------------------------------------

/// The precedence of a copy's source: the user's own files first, then
/// purchases and downloads, then Plex, Jellyfin, the Subsonic family, and
/// anything else last.
pub open spec fn spec_source_order(source: Seq<char>) -> u8 {
    if source == "user"@ || source == "local"@ {
        0
    } else if source == "qobuz_purchase"@ || source == "qobuz_download"@ || source == "offline"@ {
        1
    } else if source == "plex"@ {
        2
    } else if source == "jellyfin"@ {
        3
    } else if source == "subsonic"@ || source == "navidrome"@ || source == "gonic"@ || source
        == "airsonic"@ || source == "astiga"@ {
        4
    } else {
        5
    }
}

pub fn source_order(source: &str) -> (r: u8)
    ensures
        r == spec_source_order(source@),
{
    if str_equals(source, "user") || str_equals(source, "local") {
        0
    } else if str_equals(source, "qobuz_purchase") || str_equals(source, "qobuz_download")
        || str_equals(source, "offline") {
        1
    } else if str_equals(source, "plex") {
        2
    } else if str_equals(source, "jellyfin") {
        3
    } else if str_equals(source, "subsonic") || str_equals(source, "navidrome") || str_equals(
        source,
        "gonic",
    ) || str_equals(source, "airsonic") || str_equals(source, "astiga") {
        4
    } else {
        5
    }
}

// ---------------------------------------------------------------------------
// Content evidence: do two copies hold the same album?
// ---------------------------------------------------------------------------

/// One track of a copy, as the identity check sees it.
#[derive(Clone, Debug, PartialEq, Eq)]
pub struct TrackEvidence {
    pub title: String,
    pub duration_secs: u64,
}

/// The matching key of a track title.
pub open spec fn title_key(t: TrackEvidence) -> Seq<char> {
    spec_name_key(spec_strip_edition(t.title@))
}

pub open spec fn close_durations(a: u64, b: u64) -> bool {
    if a >= b {
        a - b <= 5
    } else {
        b - a <= 5
    }
}

/// The first unused right-hand track at or after `i` with the same title key
/// and a duration within five seconds, or -1.
pub open spec fn first_match_from(
    keys: Seq<Seq<char>>,
    right: Seq<TrackEvidence>,
    used: Seq<bool>,
    key: Seq<char>,
    duration: u64,
    i: int,
) -> int
    decreases right.len() - i,
{
    if i < 0 || i >= right.len() {
        -1
    } else if !used[i] && keys[i] == key && close_durations(duration, right[i].duration_secs) {
        i
    } else {
        first_match_from(keys, right, used, key, duration, i + 1)
    }
}

/// The right-hand title keys.
pub open spec fn keys_of(right: Seq<TrackEvidence>) -> Seq<Seq<char>> {
    Seq::new(right.len(), |i: int| title_key(right[i]))
}

/// The greedy one-to-one matching of `track_overlap`: each left track, in
/// order, takes the first free right track that matches it (untitled tracks
/// never match). The result is the used flags and the number of matches.
pub open spec fn greedy_overlap(left: Seq<TrackEvidence>, right: Seq<TrackEvidence>) -> (
    Seq<bool>,
    nat,
)
    decreases left.len(),
{
    if left.len() == 0 {
        (Seq::new(right.len(), |i: int| false), 0)
    } else {
        let (used, m) = greedy_overlap(left.drop_last(), right);
        let c = left.last();
        let key = title_key(c);
        if key.len() == 0 {
            (used, m)
        } else {
            let k = first_match_from(keys_of(right), right, used, key, c.duration_secs, 0);
            if k < 0 {
                (used, m)
            } else {
                (used.update(k, true), m + 1)
            }
        }
    }
}

proof fn lemma_first_match(
    keys: Seq<Seq<char>>,
    right: Seq<TrackEvidence>,
    used: Seq<bool>,
    key: Seq<char>,
    duration: u64,
    i: int,
)
    requires
        0 <= i,
    ensures
        first_match_from(keys, right, used, key, duration, i) == -1 || i <= first_match_from(
            keys,
            right,
            used,
            key,
            duration,
            i,
        ) < right.len(),
    decreases right.len() - i,
{
    if i < right.len() {
        lemma_first_match(keys, right, used, key, duration, i + 1);
    }
}

proof fn lemma_greedy_shape(left: Seq<TrackEvidence>, right: Seq<TrackEvidence>)
    ensures
        greedy_overlap(left, right).0.len() == right.len(),
        greedy_overlap(left, right).1 <= left.len(),
    decreases left.len(),
{
    if left.len() > 0 {
        lemma_greedy_shape(left.drop_last(), right);
        let (used, m) = greedy_overlap(left.drop_last(), right);
        let c = left.last();
        lemma_first_match(keys_of(right), right, used, title_key(c), c.duration_secs, 0);
    }
}

fn title_keys(right: &Vec<TrackEvidence>) -> (keys: Vec<String>)
    ensures
        keys@.len() == right@.len(),
        forall|i: int| 0 <= i < right@.len() ==> (#[trigger] keys@[i])@ == title_key(right@[i]),
{
    let mut keys: Vec<String> = Vec::new();
    let mut i: usize = 0;
    while i < right.len()
        invariant
            0 <= i <= right@.len(),
            keys@.len() == i,
            forall|k: int| 0 <= k < i ==> (#[trigger] keys@[k])@ == title_key(right@[k]),
        decreases right@.len() - i,
    {
        keys.push(logical_title(right[i].title.as_str()));
        i = i + 1;
    }
    keys
}

/// `track_overlap`: how many left tracks find a distinct right-hand partner
/// with the same logical title and a duration within five seconds.
pub fn track_overlap(left: &Vec<TrackEvidence>, right: &Vec<TrackEvidence>) -> (m: usize)
    ensures
        m == greedy_overlap(left@, right@).1,
        m <= left@.len(),
{
    let keys = title_keys(right);
    let ghost kv = keys_of(right@);
    proof {
        assert forall|i: int| 0 <= i < right@.len() implies keys@[i]@ == kv[i] by {}
    }
    let mut used: Vec<bool> = Vec::new();
    let mut j: usize = 0;
    while j < right.len()
        invariant
            0 <= j <= right@.len(),
            used@ == Seq::new(j as nat, |i: int| false),
        decreases right@.len() - j,
    {
        used.push(false);
        proof {
            assert(used@ =~= Seq::new((j + 1) as nat, |i: int| false));
        }
        j = j + 1;
    }
    let mut matched: usize = 0;
    let mut i: usize = 0;
    while i < left.len()
        invariant
            0 <= i <= left@.len(),
            keys@.len() == right@.len(),
            forall|k: int| 0 <= k < right@.len() ==> (#[trigger] keys@[k])@ == kv[k],
            kv == keys_of(right@),
            (used@, matched as nat) == greedy_overlap(left@.take(i as int), right@),
            matched <= i,
        decreases left@.len() - i,
    {
        proof {
            assert(left@.take(i + 1).drop_last() =~= left@.take(i as int));
            assert(left@.take(i + 1).last() == left@[i as int]);
            lemma_greedy_shape(left@.take(i as int), right@);
        }
        let title = logical_title(left[i].title.as_str());
        let d = left[i].duration_secs;
        let tl = crate::text::chars_of(title.as_str());
        if tl.len() > 0 {
            let mut k: usize = 0;
            let ghost start = used@;
            let mut found = false;
            while k < right.len() && !found
                invariant
                    0 <= k <= right@.len(),
                    used@ == start,
                    used@.len() == right@.len(),
                    keys@.len() == right@.len(),
                    forall|q: int| 0 <= q < right@.len() ==> (#[trigger] keys@[q])@ == kv[q],
                    !found ==> first_match_from(kv, right@, start, title@, d, 0)
                        == first_match_from(kv, right@, start, title@, d, k as int),
                    found ==> k >= 1 && first_match_from(kv, right@, start, title@, d, 0) == k - 1,
                decreases right@.len() - k + (if found { 0int } else { 1int }),
            {
                let close = if d >= right[k].duration_secs {
                    d - right[k].duration_secs <= 5
                } else {
                    right[k].duration_secs - d <= 5
                };
                if !used[k] && keys[k] == title && close {
                    found = true;
                }
                k = k + 1;
            }
            if found {
                used.set(k - 1, true);
                matched = matched + 1;
            }
        }
        i = i + 1;
    }
    proof {
        assert(left@.take(i as int) =~= left@);
    }
    matched
}

/// How many matched tracks make two copies the same album: the single track
/// of a one-track copy, else at least 80% of the smaller copy (rounded up)
/// and never fewer than three (or the whole copy when it is shorter).
pub open spec fn required_matches(smaller: nat) -> nat {
    if smaller == 1 {
        1
    } else {
        let at_least = if smaller < 3 { smaller } else { 3 };
        let share = (smaller * 4 + 4) / 5;
        if at_least >= share { at_least } else { share }
    }
}

/// `copies_match`: content evidence, never title and artist alone.
pub open spec fn spec_copies_match(left: Seq<TrackEvidence>, right: Seq<TrackEvidence>) -> bool {
    let smaller = if left.len() <= right.len() { left.len() } else { right.len() };
    smaller > 0 && greedy_overlap(left, right).1 >= required_matches(smaller)
}

pub fn copies_match(left: &Vec<TrackEvidence>, right: &Vec<TrackEvidence>) -> (r: bool)
    ensures
        r == spec_copies_match(left@, right@),
{
    let smaller = if left.len() <= right.len() {
        left.len()
    } else {
        right.len()
    };
    if smaller == 0 {
        return false;
    }
    let matched = track_overlap(left, right);
    let required: u128 = if smaller == 1 {
        1
    } else {
        let s = smaller as u128;
        let at_least: u128 = if s < 3 {
            s
        } else {
            3
        };
        let share: u128 = (s * 4 + 4) / 5;
        if at_least >= share {
            at_least
        } else {
            share
        }
    };
    (matched as u128) >= required
}

// ---------------------------------------------------------------------------
// The logical album id
// ---------------------------------------------------------------------------

/// `s` inserted into sorted text from the back (`sort` on strings).
pub open spec fn insert_sorted_text(s: Seq<Seq<char>>, x: Seq<char>) -> Seq<Seq<char>>
    decreases s.len(),
{
    if s.len() == 0 {
        seq![x]
    } else if lex_lt(x, s.last()) {
        insert_sorted_text(s.drop_last(), x).push(s.last())
    } else {
        s.push(x)
    }
}

/// The ids in text order.
pub open spec fn sorted_text(s: Seq<Seq<char>>) -> Seq<Seq<char>>
    decreases s.len(),
{
    if s.len() == 0 {
        s
    } else {
        insert_sorted_text(sorted_text(s.drop_last()), s.last())
    }
}

proof fn lemma_insert_text_at(s: Seq<Seq<char>>, x: Seq<char>, j: int)
    requires
        0 <= j <= s.len(),
        forall|k: int| j <= k < s.len() ==> lex_lt(x, #[trigger] s[k]),
        j == 0 || !lex_lt(x, s[j - 1]),
    ensures
        insert_sorted_text(s, x) == s.take(j).push(x) + s.skip(j),
    decreases s.len(),
{
    if s.len() == 0 {
        assert(s.take(j).push(x) + s.skip(j) =~= seq![x]);
    } else if j == s.len() {
        assert(s.take(j) =~= s);
        assert(s.take(j).push(x) + s.skip(j) =~= s.push(x));
    } else {
        let t = s.drop_last();
        assert(lex_lt(x, s[s.len() - 1]));
        assert forall|k: int| j <= k < t.len() implies lex_lt(x, #[trigger] t[k]) by {
            assert(t[k] == s[k]);
        }
        if j > 0 {
            assert(t[j - 1] == s[j - 1]);
        }
        lemma_insert_text_at(t, x, j);
        assert((t.take(j).push(x) + t.skip(j)).push(s.last()) =~= s.take(j).push(x) + s.skip(j));
    }
}

pub open spec fn strings_view(v: Seq<String>) -> Seq<Seq<char>> {
    Seq::new(v.len(), |i: int| v[i]@)
}

fn sort_ids(ids: &Vec<String>) -> (out: Vec<String>)
    ensures
        strings_view(out@) == sorted_text(strings_view(ids@)),
{
    let mut out: Vec<String> = Vec::new();
    let ghost view = strings_view(ids@);
    let mut i: usize = 0;
    while i < ids.len()
        invariant
            0 <= i <= ids@.len(),
            view == strings_view(ids@),
            strings_view(out@) == sorted_text(view.take(i as int)),
        decreases ids@.len() - i,
    {
        let x = ids[i].clone();
        let xc = chars_of(x.as_str());
        let ghost ov = strings_view(out@);
        let mut j: usize = out.len();
        loop
            invariant
                0 <= j <= out@.len(),
                ov == strings_view(out@),
                xc@ == x@,
                forall|k: int| j <= k < out@.len() ==> lex_lt(x@, #[trigger] ov[k]),
            ensures
                0 <= j <= out@.len(),
                forall|k: int| j <= k < out@.len() ==> lex_lt(x@, #[trigger] ov[k]),
                j == 0 || !lex_lt(x@, ov[j - 1]),
            decreases j,
        {
            if j == 0 {
                break;
            }
            let yc = chars_of(out[j - 1].as_str());
            if !chars_lt(&xc, &yc) {
                break;
            }
            j = j - 1;
        }
        proof {
            assert(j == 0 || !lex_lt(x@, ov[j - 1]));
            lemma_insert_text_at(ov, x@, j as int);
            assert(view.take(i + 1).drop_last() =~= view.take(i as int));
            assert(view.take(i + 1).last() == x@);
        }
        out.insert(j, x);
        proof {
            assert(strings_view(out@) =~= ov.take(j as int).push(x@) + ov.skip(j as int));
        }
        i = i + 1;
    }
    proof {
        assert(view.take(i as int) =~= view);
    }
    out
}

/// The eight little-endian bytes of `n` (`u64::to_le_bytes`).
pub open spec fn le_bytes(n: u64) -> Seq<u8> {
    Seq::new(8, |k: int| ((n >> (8 * k) as u64) & 0xff) as u8)
}

/// The bytes hashed for one id: its UTF-8 length, then its UTF-8 bytes.
pub open spec fn id_bytes(id: Seq<char>) -> Seq<u8> {
    le_bytes(encode_utf8(id).len() as u64) + encode_utf8(id)
}

pub open spec fn ids_bytes(ids: Seq<Seq<char>>) -> Seq<u8>
    decreases ids.len(),
{
    if ids.len() == 0 {
        Seq::empty()
    } else {
        ids_bytes(ids.drop_last()) + id_bytes(ids.last())
    }
}

pub const FNV_OFFSET: u64 = 0xcbf29ce484222325;

pub const FNV_PRIME: u64 = 0x100000001b3;

/// One FNV-1a step: xor the byte in, multiply by the prime, wrapping.
pub open spec fn fnv_step(h: u64, b: u8) -> u64 {
    (((h ^ (b as u64)) as nat * FNV_PRIME as nat) % 0x1_0000_0000_0000_0000) as u64
}

pub open spec fn fnv(h: u64, bytes: Seq<u8>) -> u64
    decreases bytes.len(),
{
    if bytes.len() == 0 {
        h
    } else {
        fnv_step(fnv(h, bytes.drop_last()), bytes.last())
    }
}

pub open spec fn hex_digit(v: u64) -> char {
    (if v < 10 {
        48 + v
    } else {
        87 + v
    }) as u8 as char
}

/// Sixteen lower-case hex digits, most significant first (`{:016x}`).
pub open spec fn hex16(h: u64) -> Seq<char> {
    Seq::new(16, |k: int| hex_digit((h >> (4 * (15 - k)) as u64) & 0xf))
}

/// `logical_album_id`: "logical:" and the FNV-1a hash of the sorted,
/// length-delimited ids.
pub open spec fn spec_logical_album_id(ids: Seq<Seq<char>>) -> Seq<char> {
    "logical:"@ + hex16(fnv(FNV_OFFSET, ids_bytes(sorted_text(ids))))
}

fn hash_bytes(h: u64, bytes: &[u8]) -> (r: u64)
    ensures
        r == fnv(h, bytes@),
{
    let mut acc = h;
    let mut i: usize = 0;
    while i < bytes.len()
        invariant
            0 <= i <= bytes@.len(),
            acc == fnv(h, bytes@.take(i as int)),
        decreases bytes@.len() - i,
    {
        proof {
            assert(bytes@.take(i + 1).drop_last() =~= bytes@.take(i as int));
        }
        acc = (acc ^ (bytes[i] as u64)).wrapping_mul(FNV_PRIME);
        i = i + 1;
    }
    proof {
        assert(bytes@.take(i as int) =~= bytes@);
    }
    acc
}

proof fn lemma_fnv_concat(h: u64, a: Seq<u8>, b: Seq<u8>)
    ensures
        fnv(h, a + b) == fnv(fnv(h, a), b),
    decreases b.len(),
{
    if b.len() == 0 {
        assert(a + b =~= a);
    } else {
        lemma_fnv_concat(h, a, b.drop_last());
        assert((a + b).drop_last() =~= a + b.drop_last());
    }
}

fn le_bytes_of(n: u64) -> (r: Vec<u8>)
    ensures
        r@ == le_bytes(n),
{
    let mut r: Vec<u8> = Vec::new();
    let mut k: u64 = 0;
    while k < 8
        invariant
            0 <= k <= 8,
            r@ == le_bytes(n).take(k as int),
        decreases 8 - k,
    {
        r.push(((n >> (8 * k)) & 0xff) as u8);
        proof {
            assert(le_bytes(n).take(k + 1) =~= le_bytes(n).take(k as int).push(
                ((n >> (8 * k) as u64) & 0xff) as u8,
            ));
        }
        k = k + 1;
    }
    proof {
        assert(le_bytes(n).take(8) =~= le_bytes(n));
    }
    r
}

fn hex16_of(h: u64) -> (r: Vec<char>)
    ensures
        r@ == hex16(h),
{
    let mut r: Vec<char> = Vec::new();
    let mut k: u64 = 0;
    while k < 16
        invariant
            0 <= k <= 16,
            r@ == hex16(h).take(k as int),
        decreases 16 - k,
    {
        let shift: u64 = 4 * (15 - k);
        let v = (h >> shift) & 0xf;
        assert(v <= 0xf) by (bit_vector)
            requires
                v == (h >> shift) & 0xf,
        ;
        let c = if v < 10 {
            (48 + v) as u8 as char
        } else {
            (87 + v) as u8 as char
        };
        r.push(c);
        proof {
            assert(hex16(h).take(k + 1) =~= hex16(h).take(k as int).push(c));
        }
        k = k + 1;
    }
    proof {
        assert(hex16(h).take(16) =~= hex16(h));
    }
    r
}

/// `logical_album_id`: the id of a card that stands for several copies.
pub fn logical_album_id(ids: &Vec<String>) -> (r: String)
    ensures
        r@ == spec_logical_album_id(strings_view(ids@)),
{
    let sorted = sort_ids(ids);
    let ghost sv = strings_view(sorted@);
    let mut h: u64 = FNV_OFFSET;
    let mut i: usize = 0;
    while i < sorted.len()
        invariant
            0 <= i <= sorted@.len(),
            sv == strings_view(sorted@),
            h == fnv(FNV_OFFSET, ids_bytes(sv.take(i as int))),
        decreases sorted@.len() - i,
    {
        let bytes = sorted[i].as_str().as_bytes();
        let len_bytes = le_bytes_of(bytes.len() as u64);
        let h1 = hash_bytes(h, len_bytes.as_slice());
        let h2 = hash_bytes(h1, bytes);
        proof {
            assert(sv.take(i + 1).drop_last() =~= sv.take(i as int));
            assert(sv.take(i + 1).last() == sorted@[i as int]@);
            lemma_fnv_concat(FNV_OFFSET, ids_bytes(sv.take(i as int)), id_bytes(sorted@[i as int]@));
            lemma_fnv_concat(h, le_bytes(bytes@.len() as u64), bytes@);
        }
        h = h2;
        i = i + 1;
    }
    proof {
        assert(sv.take(i as int) =~= sv);
    }
    let hex = hex16_of(h);
    let mut out = String::from_str("logical:");
    let tail = crate::text::string_from_chars(&hex);
    out.append(tail.as_str());
    proof {
        reveal_strlit("logical:");
    }
    out
}

// ---------------------------------------------------------------------------
// Grouping the copies of one album
// ---------------------------------------------------------------------------

/// One source album, as the identity pass reads it.
pub struct AlbumCopy {
    pub id: String,
    pub title: String,
    pub artist: String,
    pub identity_tracks: Vec<TrackEvidence>,
    /// The copy's own source, and every source it is available from.
    pub source: String,
    pub sources: Vec<String>,
    /// The audio quality rank: tier, bit depth, sample rate, then track count.
    pub quality_tier: u8,
    pub bit_depth: u32,
    pub sample_rate: u64,
    pub track_count: u32,
    /// The cover, and the source that can resolve it when it is not the
    /// copy's own.
    pub artwork_path: Option<String>,
    pub artwork_source: Option<String>,
    pub genres: Vec<String>,
    /// Every artist the copy credits, joined by commas.
    pub all_artists: String,
}

/// The artist key of a copy.
pub open spec fn copy_artist_key(a: AlbumCopy) -> Seq<char> {
    spec_name_key(a.artist@)
}

/// The title key of a copy.
pub open spec fn copy_title_key(a: AlbumCopy) -> Seq<char> {
    spec_name_key(spec_strip_edition(a.title@))
}

/// A copy that is never merged: no usable title or artist, a placeholder
/// name, or no track evidence.
pub open spec fn is_single(a: AlbumCopy) -> bool {
    let t = copy_title_key(a);
    let r = copy_artist_key(a);
    t.len() == 0 || r.len() == 0 || t == "unknown album"@ || r == "unknown artist"@
        || a.identity_tracks@.len() == 0
}

/// The candidate bucket: artist key, a unit separator, title key.
pub open spec fn bucket_key(a: AlbumCopy) -> Seq<char> {
    copy_artist_key(a) + seq!['\u{1f}'] + copy_title_key(a)
}

/// Index `x` goes before index `y` when `key` orders it strictly first.
pub open spec fn insert_by_key(s: Seq<int>, x: int, key: spec_fn(int) -> Seq<char>) -> Seq<int>
    decreases s.len(),
{
    if s.len() == 0 {
        seq![x]
    } else if lex_lt(key(x), key(s.last())) {
        insert_by_key(s.drop_last(), x, key).push(s.last())
    } else {
        s.push(x)
    }
}

/// The stable sort of indices by a text key.
pub open spec fn sorted_by_key(s: Seq<int>, key: spec_fn(int) -> Seq<char>) -> Seq<int>
    decreases s.len(),
{
    if s.len() == 0 {
        s
    } else {
        insert_by_key(sorted_by_key(s.drop_last(), key), s.last(), key)
    }
}

proof fn lemma_insert_by_key_at(s: Seq<int>, x: int, key: spec_fn(int) -> Seq<char>, j: int)
    requires
        0 <= j <= s.len(),
        forall|k: int| j <= k < s.len() ==> lex_lt(key(x), key(#[trigger] s[k])),
        j == 0 || !lex_lt(key(x), key(s[j - 1])),
    ensures
        insert_by_key(s, x, key) == s.take(j).push(x) + s.skip(j),
    decreases s.len(),
{
    if s.len() == 0 {
        assert(s.take(j).push(x) + s.skip(j) =~= seq![x]);
    } else if j == s.len() {
        assert(s.take(j) =~= s);
        assert(s.take(j).push(x) + s.skip(j) =~= s.push(x));
    } else {
        let t = s.drop_last();
        assert(lex_lt(key(x), key(s[s.len() - 1])));
        assert forall|k: int| j <= k < t.len() implies lex_lt(key(x), key(#[trigger] t[k])) by {
            assert(t[k] == s[k]);
        }
        if j > 0 {
            assert(t[j - 1] == s[j - 1]);
        }
        lemma_insert_by_key_at(t, x, key, j);
        assert((t.take(j).push(x) + t.skip(j)).push(s.last()) =~= s.take(j).push(x) + s.skip(j));
    }
}

/// Sort indices `order` stably by `keys[i]`.
fn sort_indices(order: &Vec<usize>, keys: &Vec<Vec<char>>, key: Ghost<spec_fn(int) -> Seq<char>>) -> (r: Vec<usize>)
    requires
        forall|k: int| 0 <= k < order@.len() ==> (#[trigger] order@[k]) < keys@.len(),
        forall|i: int| 0 <= i < keys@.len() ==> (#[trigger] keys@[i])@ == key@(i),
    ensures
        r@.len() == order@.len(),
        forall|k: int| 0 <= k < r@.len() ==> (#[trigger] r@[k]) < keys@.len(),
        Seq::new(r@.len(), |k: int| r@[k] as int) == sorted_by_key(
            Seq::new(order@.len(), |k: int| order@[k] as int),
            key@,
        ),
{
    let ghost o = Seq::new(order@.len(), |k: int| order@[k] as int);
    let mut out: Vec<usize> = Vec::new();
    let mut i: usize = 0;
    while i < order.len()
        invariant
            0 <= i <= order@.len(),
            o == Seq::new(order@.len(), |k: int| order@[k] as int),
            forall|k: int| 0 <= k < order@.len() ==> (#[trigger] order@[k]) < keys@.len(),
            forall|q: int| 0 <= q < keys@.len() ==> (#[trigger] keys@[q])@ == key@(q),
            out@.len() == i,
            forall|k: int| 0 <= k < out@.len() ==> (#[trigger] out@[k]) < keys@.len(),
            Seq::new(out@.len(), |k: int| out@[k] as int) == sorted_by_key(o.take(i as int), key@),
        decreases order@.len() - i,
    {
        let x = order[i];
        let ghost ov = Seq::new(out@.len(), |k: int| out@[k] as int);
        let mut j: usize = out.len();
        while j > 0 && chars_lt(&keys[x], &keys[out[j - 1]])
            invariant
                0 <= j <= out@.len(),
                x < keys@.len(),
                ov == Seq::new(out@.len(), |k: int| out@[k] as int),
                forall|k: int| 0 <= k < out@.len() ==> (#[trigger] out@[k]) < keys@.len(),
                forall|q: int| 0 <= q < keys@.len() ==> (#[trigger] keys@[q])@ == key@(q),
                forall|k: int| j <= k < out@.len() ==> lex_lt(key@(x as int), key@(#[trigger] ov[k])),
            decreases j,
        {
            assert(ov[j - 1] == out@[j - 1] as int);
            j = j - 1;
        }
        proof {
            if j > 0 {
                assert(ov[j - 1] == out@[j - 1] as int);
            }
            lemma_insert_by_key_at(ov, x as int, key@, j as int);
            assert(o.take(i + 1).drop_last() =~= o.take(i as int));
            assert(o.take(i + 1).last() == x as int);
        }
        out.insert(j, x);
        proof {
            assert(Seq::new(out@.len(), |k: int| out@[k] as int) =~= ov.take(j as int).push(x as int)
                + ov.skip(j as int));
        }
        i = i + 1;
    }
    proof {
        assert(o.take(i as int) =~= o);
    }
    out
}

/// Copy `x` may join `group`: same bucket, and every copy already in the
/// group matches it on content.
pub open spec fn fits(albums: Seq<AlbumCopy>, group: Seq<int>, x: int) -> bool {
    &&& bucket_key(albums[group[0]]) == bucket_key(albums[x])
    &&& forall|k: int|
        0 <= k < group.len() ==> spec_copies_match(
            albums[#[trigger] group[k]].identity_tracks@,
            albums[x].identity_tracks@,
        )
}

/// The first group at or after `i` that `x` fits, or -1.
pub open spec fn fit_index(albums: Seq<AlbumCopy>, groups: Seq<Seq<int>>, x: int, i: int) -> int
    decreases groups.len() - i,
{
    if i < 0 || i >= groups.len() {
        -1
    } else if fits(albums, groups[i], x) {
        i
    } else {
        fit_index(albums, groups, x, i + 1)
    }
}

/// First fit: each copy, in order, joins the first group it fits, else
/// starts a new one.
pub open spec fn first_fit(albums: Seq<AlbumCopy>, order: Seq<int>) -> Seq<Seq<int>>
    decreases order.len(),
{
    if order.len() == 0 {
        Seq::empty()
    } else {
        let g = first_fit(albums, order.drop_last());
        let x = order.last();
        let k = fit_index(albums, g, x, 0);
        if k < 0 {
            g.push(seq![x])
        } else {
            g.update(k, g[k].push(x))
        }
    }
}

proof fn lemma_fit_index_range(albums: Seq<AlbumCopy>, groups: Seq<Seq<int>>, x: int, i: int)
    requires
        0 <= i,
    ensures
        fit_index(albums, groups, x, i) == -1 || i <= fit_index(albums, groups, x, i) < groups.len(),
    decreases groups.len() - i,
{
    if i < groups.len() {
        lemma_fit_index_range(albums, groups, x, i + 1);
    }
}

/// Every group holds at least one copy.
proof fn lemma_first_fit_nonempty(albums: Seq<AlbumCopy>, order: Seq<int>)
    ensures
        forall|g: int| 0 <= g < first_fit(albums, order).len() ==> (#[trigger] first_fit(
            albums,
            order,
        )[g]).len() > 0,
    decreases order.len(),
{
    if order.len() > 0 {
        lemma_first_fit_nonempty(albums, order.drop_last());
        let g = first_fit(albums, order.drop_last());
        lemma_fit_index_range(albums, g, order.last(), 0);
    }
}

/// Within a group every copy shares the bucket of the first one, and each
/// copy matches every copy that joined before it on content: a title and
/// artist alone never merge two copies.
pub open spec fn content_agreed(albums: Seq<AlbumCopy>, g: Seq<int>) -> bool {
    &&& forall|i: int| 0 <= i < g.len() ==> bucket_key(albums[#[trigger] g[i]]) == bucket_key(albums[g[0]])
    &&& forall|i: int, j: int|
        0 <= i < j < g.len() ==> spec_copies_match(
            albums[#[trigger] g[i]].identity_tracks@,
            albums[#[trigger] g[j]].identity_tracks@,
        )
}

proof fn lemma_fit_index_fits(albums: Seq<AlbumCopy>, groups: Seq<Seq<int>>, x: int, i: int)
    requires
        0 <= i,
        fit_index(albums, groups, x, i) >= 0,
    ensures
        fits(albums, groups[fit_index(albums, groups, x, i)], x),
    decreases groups.len() - i,
{
    if i < groups.len() && !fits(albums, groups[i], x) {
        lemma_fit_index_fits(albums, groups, x, i + 1);
    }
}

/// Every first-fit group is content-agreed.
pub proof fn lemma_first_fit_groups_agree(albums: Seq<AlbumCopy>, order: Seq<int>)
    ensures
        forall|g: int|
            0 <= g < first_fit(albums, order).len() ==> content_agreed(
                albums,
                #[trigger] first_fit(albums, order)[g],
            ),
    decreases order.len(),
{
    if order.len() > 0 {
        let t = order.drop_last();
        lemma_first_fit_groups_agree(albums, t);
        lemma_first_fit_nonempty(albums, t);
        let gs = first_fit(albums, t);
        let x = order.last();
        let k = fit_index(albums, gs, x, 0);
        lemma_fit_index_range(albums, gs, x, 0);
        if k >= 0 {
            lemma_fit_index_fits(albums, gs, x, 0);
            let old_g = gs[k];
            let new_g = old_g.push(x);
            assert(content_agreed(albums, old_g));
            assert(old_g.len() > 0);
            assert(new_g[0] == old_g[0]);
            assert forall|i: int| 0 <= i < new_g.len() implies bucket_key(albums[#[trigger] new_g[i]])
                == bucket_key(albums[new_g[0]]) by {
                if i < old_g.len() {
                    assert(new_g[i] == old_g[i]);
                }
            }
            assert forall|i: int, j: int| 0 <= i < j < new_g.len() implies spec_copies_match(
                albums[#[trigger] new_g[i]].identity_tracks@,
                albums[#[trigger] new_g[j]].identity_tracks@,
            ) by {
                assert(new_g[i] == old_g[i]);
                if j < old_g.len() {
                    assert(new_g[j] == old_g[j]);
                }
            }
        } else {
            let new_g = seq![x];
            assert(content_agreed(albums, new_g));
        }
    }
}

pub open spec fn index_view(v: Vec<usize>) -> Seq<int> {
    Seq::new(v@.len(), |k: int| v@[k] as int)
}

pub open spec fn groups_view(v: Seq<Vec<usize>>) -> Seq<Seq<int>> {
    Seq::new(v.len(), |g: int| index_view(v[g]))
}

fn group_fits(
    albums: &Vec<AlbumCopy>,
    bucket_keys: &Vec<Vec<char>>,
    group: &Vec<usize>,
    x: usize,
) -> (r: bool)
    requires
        group@.len() > 0,
        bucket_keys@.len() == albums@.len(),
        x < albums@.len(),
        forall|k: int| 0 <= k < group@.len() ==> (#[trigger] group@[k]) < albums@.len(),
        forall|i: int| 0 <= i < albums@.len() ==> (#[trigger] bucket_keys@[i])@ == bucket_key(
            albums@[i],
        ),
    ensures
        r == fits(albums@, index_view(*group), x as int),
{
    let ghost gv = index_view(*group);
    if !crate::text::chars_equal(&bucket_keys[group[0]], &bucket_keys[x]) {
        return false;
    }
    let mut k: usize = 0;
    while k < group.len()
        invariant
            gv == index_view(*group),
            0 <= k <= group@.len(),
            x < albums@.len(),
            forall|q: int| 0 <= q < group@.len() ==> (#[trigger] group@[q]) < albums@.len(),
            forall|q: int|
                0 <= q < k ==> spec_copies_match(
                    albums@[#[trigger] gv[q]].identity_tracks@,
                    albums@[x as int].identity_tracks@,
                ),
        decreases group@.len() - k,
    {
        let m = group[k];
        assert(gv[k as int] == m as int);
        if !copies_match(&albums[m].identity_tracks, &albums[x].identity_tracks) {
            return false;
        }
        k = k + 1;
    }
    true
}

/// First-fit grouping of the copies in `order`.
fn first_fit_groups(
    albums: &Vec<AlbumCopy>,
    bucket_keys: &Vec<Vec<char>>,
    order: &Vec<usize>,
) -> (r: Vec<Vec<usize>>)
    requires
        bucket_keys@.len() == albums@.len(),
        forall|k: int| 0 <= k < order@.len() ==> (#[trigger] order@[k]) < albums@.len(),
        forall|i: int| 0 <= i < albums@.len() ==> (#[trigger] bucket_keys@[i])@ == bucket_key(
            albums@[i],
        ),
    ensures
        groups_view(r@) == first_fit(albums@, index_view(*order)),
        forall|g: int, k: int|
            0 <= g < r@.len() && 0 <= k < r@[g]@.len() ==> (#[trigger] r@[g]@[k]) < albums@.len(),
{
    let ghost ov = index_view(*order);
    let mut groups: Vec<Vec<usize>> = Vec::new();
    let mut i: usize = 0;
    while i < order.len()
        invariant
            0 <= i <= order@.len(),
            ov == index_view(*order),
            bucket_keys@.len() == albums@.len(),
            forall|k: int| 0 <= k < order@.len() ==> (#[trigger] order@[k]) < albums@.len(),
            forall|q: int| 0 <= q < albums@.len() ==> (#[trigger] bucket_keys@[q])@ == bucket_key(
                albums@[q],
            ),
            groups_view(groups@) == first_fit(albums@, ov.take(i as int)),
            forall|g: int, k: int|
                0 <= g < groups@.len() && 0 <= k < groups@[g]@.len() ==> (#[trigger] groups@[g]@[k])
                    < albums@.len(),
        decreases order@.len() - i,
    {
        let x = order[i];
        let ghost gv = groups_view(groups@);
        proof {
            lemma_first_fit_nonempty(albums@, ov.take(i as int));
            assert(ov.take(i + 1).drop_last() =~= ov.take(i as int));
            assert(ov.take(i + 1).last() == x as int);
        }
        let mut k: usize = 0;
        let mut found = false;
        while k < groups.len() && !found
            invariant
                0 <= k <= groups@.len(),
                gv == groups_view(groups@),
                x < albums@.len(),
                bucket_keys@.len() == albums@.len(),
                forall|q: int| 0 <= q < albums@.len() ==> (#[trigger] bucket_keys@[q])@ == bucket_key(
                    albums@[q],
                ),
                forall|g: int| 0 <= g < gv.len() ==> (#[trigger] gv[g]).len() > 0,
                forall|g: int, m: int|
                    0 <= g < groups@.len() && 0 <= m < groups@[g]@.len() ==> (#[trigger] groups@[g]@[m])
                        < albums@.len(),
                !found ==> fit_index(albums@, gv, x as int, 0) == fit_index(albums@, gv, x as int, k as int),
                found ==> k >= 1 && fit_index(albums@, gv, x as int, 0) == k - 1,
            decreases groups@.len() - k + (if found { 0int } else { 1int }),
        {
            assert(gv[k as int] == index_view(groups@[k as int]));
            assert(gv[k as int].len() > 0);
            if group_fits(albums, bucket_keys, &groups[k], x) {
                found = true;
            }
            k = k + 1;
        }
        if found {
            let mut g = groups.remove(k - 1);
            g.push(x);
            groups.insert(k - 1, g);
            proof {
                assert(groups_view(groups@) =~= gv.update(
                    (k - 1) as int,
                    gv[(k - 1) as int].push(x as int),
                )) by {
                    assert(index_view(g) =~= gv[(k - 1) as int].push(x as int));
                }
            }
        } else {
            proof {
                lemma_fit_index_range(albums@, gv, x as int, 0);
            }
            let mut g: Vec<usize> = Vec::new();
            g.push(x);
            groups.push(g);
            proof {
                assert(index_view(g) =~= seq![x as int]);
                assert(groups_view(groups@) =~= gv.push(seq![x as int]));
            }
        }
        i = i + 1;
    }
    proof {
        assert(ov.take(i as int) =~= ov);
    }
    groups
}

pub open spec fn id_key(albums: Seq<AlbumCopy>) -> spec_fn(int) -> Seq<char> {
    |i: int| albums[i].id@
}

pub open spec fn bucket_key_of(albums: Seq<AlbumCopy>) -> spec_fn(int) -> Seq<char> {
    |i: int| bucket_key(albums[i])
}

pub open spec fn mergeable(albums: Seq<AlbumCopy>) -> spec_fn(int) -> bool {
    |i: int| !is_single(albums[i])
}

pub open spec fn unmergeable(albums: Seq<AlbumCopy>) -> spec_fn(int) -> bool {
    |i: int| is_single(albums[i])
}

/// The copy groups of `coalesce_album_versions`, as indices into `albums`:
/// copies in id order; the mergeable ones bucketed by artist and title key
/// (buckets in key order) and grouped first-fit on content evidence; then
/// every unmergeable copy alone.
pub open spec fn spec_copy_groups(albums: Seq<AlbumCopy>) -> Seq<Seq<int>> {
    let ids = sorted_by_key(Seq::new(albums.len(), |i: int| i), id_key(albums));
    let multi = ids.filter(mergeable(albums));
    let singles = ids.filter(unmergeable(albums));
    first_fit(albums, sorted_by_key(multi, bucket_key_of(albums))) + singles.map_values(
        |i: int| seq![i],
    )
}

/// Every group of the identity pass is content-agreed: copies merge only on
/// track evidence within one title-and-artist bucket.
pub proof fn lemma_copy_groups_agree(albums: Seq<AlbumCopy>)
    ensures
        forall|g: int|
            0 <= g < spec_copy_groups(albums).len() ==> content_agreed(
                albums,
                #[trigger] spec_copy_groups(albums)[g],
            ),
{
    let ids = sorted_by_key(Seq::new(albums.len(), |i: int| i), id_key(albums));
    let multi = ids.filter(mergeable(albums));
    let singles = ids.filter(unmergeable(albums));
    let head = first_fit(albums, sorted_by_key(multi, bucket_key_of(albums)));
    let tail = singles.map_values(|i: int| seq![i]);
    lemma_first_fit_groups_agree(albums, sorted_by_key(multi, bucket_key_of(albums)));
    assert forall|g: int| 0 <= g < spec_copy_groups(albums).len() implies content_agreed(
        albums,
        #[trigger] spec_copy_groups(albums)[g],
    ) by {
        if g < head.len() {
            assert(spec_copy_groups(albums)[g] == head[g]);
        } else {
            assert(spec_copy_groups(albums)[g] == tail[g - head.len()]);
            assert(tail[g - head.len()].len() == 1);
        }
    }
}

fn is_single_exec(a: &AlbumCopy, artist_key: &Vec<char>, title_key: &Vec<char>) -> (r: bool)
    requires
        artist_key@ == copy_artist_key(*a),
        title_key@ == copy_title_key(*a),
    ensures
        r == is_single(*a),
{
    let ua = chars_of("unknown album");
    let ur = chars_of("unknown artist");
    title_key.len() == 0 || artist_key.len() == 0 || crate::text::chars_equal(title_key, &ua)
        || crate::text::chars_equal(artist_key, &ur) || a.identity_tracks.len() == 0
}

fn filter_indices(ids: &Vec<usize>, flags: &Vec<bool>, want: bool, p: Ghost<spec_fn(int) -> bool>) -> (r: Vec<usize>)
    requires
        forall|k: int| 0 <= k < ids@.len() ==> (#[trigger] ids@[k]) < flags@.len(),
        forall|i: int| 0 <= i < flags@.len() ==> (#[trigger] flags@[i] == want) == p@(i),
    ensures
        index_view(r) == index_view(*ids).filter(p@),
        forall|k: int| 0 <= k < r@.len() ==> (#[trigger] r@[k]) < flags@.len(),
{
    let ghost iv = index_view(*ids);
    let mut out: Vec<usize> = Vec::new();
    let mut i: usize = 0;
    while i < ids.len()
        invariant
            iv == index_view(*ids),
            0 <= i <= ids@.len(),
            forall|k: int| 0 <= k < ids@.len() ==> (#[trigger] ids@[k]) < flags@.len(),
            forall|q: int| 0 <= q < flags@.len() ==> (#[trigger] flags@[q] == want) == p@(q),
            index_view(out) == iv.take(i as int).filter(p@),
            forall|k: int| 0 <= k < out@.len() ==> (#[trigger] out@[k]) < flags@.len(),
        decreases ids@.len() - i,
    {
        let x = ids[i];
        proof {
            assert(iv.take(i + 1).drop_last() =~= iv.take(i as int));
            assert(iv.take(i + 1).last() == x as int);
            reveal(Seq::filter);
        }
        if flags[x] == want {
            out.push(x);
            proof {
                assert(index_view(out) =~= iv.take(i as int).filter(p@).push(x as int));
            }
        }
        i = i + 1;
    }
    proof {
        assert(iv.take(i as int) =~= iv);
    }
    out
}

/// Group the copies that hold the same album (the grouping step of
/// `coalesce_album_versions`), as index lists into `albums`.
pub fn copy_groups(albums: &Vec<AlbumCopy>) -> (r: Vec<Vec<usize>>)
    ensures
        groups_view(r@) == spec_copy_groups(albums@),
        forall|g: int| 0 <= g < r@.len() ==> (#[trigger] r@[g])@.len() > 0,
        forall|g: int, k: int|
            0 <= g < r@.len() && 0 <= k < r@[g]@.len() ==> (#[trigger] r@[g]@[k]) < albums@.len(),
{
    let n = albums.len();
    let mut id_keys: Vec<Vec<char>> = Vec::new();
    let mut bucket_keys: Vec<Vec<char>> = Vec::new();
    let mut singles: Vec<bool> = Vec::new();
    let mut order0: Vec<usize> = Vec::new();
    let mut i: usize = 0;
    while i < n
        invariant
            n == albums@.len(),
            0 <= i <= n,
            id_keys@.len() == i,
            bucket_keys@.len() == i,
            singles@.len() == i,
            order0@.len() == i,
            forall|q: int| 0 <= q < i ==> (#[trigger] id_keys@[q])@ == albums@[q].id@,
            forall|q: int| 0 <= q < i ==> (#[trigger] bucket_keys@[q])@ == bucket_key(albums@[q]),
            forall|q: int| 0 <= q < i ==> (#[trigger] singles@[q]) == is_single(albums@[q]),
            forall|q: int| 0 <= q < i ==> (#[trigger] order0@[q]) == q,
        decreases n - i,
    {
        let a = &albums[i];
        id_keys.push(chars_of(a.id.as_str()));
        let ak = name_key(a.artist.as_str());
        let tk = logical_title(a.title.as_str());
        let akc = chars_of(ak.as_str());
        let tkc = chars_of(tk.as_str());
        let mut b: Vec<char> = akc.clone();
        b.push('\u{1f}');
        let mut m: usize = 0;
        while m < tkc.len()
            invariant
                0 <= m <= tkc@.len(),
                b@ == akc@ + seq!['\u{1f}'] + tkc@.take(m as int),
            decreases tkc@.len() - m,
        {
            b.push(tkc[m]);
            proof {
                assert(tkc@.take(m + 1) =~= tkc@.take(m as int).push(tkc@[m as int]));
            }
            m = m + 1;
        }
        proof {
            assert(tkc@.take(m as int) =~= tkc@);
        }
        bucket_keys.push(b);
        singles.push(is_single_exec(a, &akc, &tkc));
        order0.push(i);
        i = i + 1;
    }
    proof {
        assert(index_view(order0) =~= Seq::new(albums@.len(), |q: int| q));
    }
    let ids = sort_indices(&order0, &id_keys, Ghost(id_key(albums@)));
    let multi = filter_indices(&ids, &singles, false, Ghost(mergeable(albums@)));
    let alone = filter_indices(&ids, &singles, true, Ghost(unmergeable(albums@)));
    let buckets = sort_indices(&multi, &bucket_keys, Ghost(bucket_key_of(albums@)));
    proof {
        assert(index_view(ids) =~= Seq::new(ids@.len(), |k: int| ids@[k] as int));
        assert(index_view(buckets) =~= Seq::new(buckets@.len(), |k: int| buckets@[k] as int));
    }
    let mut groups = first_fit_groups(albums, &bucket_keys, &buckets);
    let ghost head = groups_view(groups@);
    proof {
        lemma_first_fit_nonempty(albums@, index_view(buckets));
        assert forall|g: int| 0 <= g < groups@.len() implies (#[trigger] groups@[g])@.len() > 0 by {
            assert(head[g] == index_view(groups@[g]));
        }
    }
    let ghost av = index_view(alone);
    let mut k: usize = 0;
    while k < alone.len()
        invariant
            av == index_view(alone),
            0 <= k <= alone@.len(),
            singles@.len() == albums@.len(),
            forall|q: int| 0 <= q < alone@.len() ==> (#[trigger] alone@[q]) < singles@.len(),
            groups_view(groups@) == head + av.take(k as int).map_values(|i: int| seq![i]),
            forall|g: int| 0 <= g < groups@.len() ==> (#[trigger] groups@[g])@.len() > 0,
            forall|g: int, q: int|
                0 <= g < groups@.len() && 0 <= q < groups@[g]@.len() ==> (#[trigger] groups@[g]@[q])
                    < albums@.len(),
        decreases alone@.len() - k,
    {
        let mut g: Vec<usize> = Vec::new();
        g.push(alone[k]);
        let ghost before = groups_view(groups@);
        groups.push(g);
        proof {
            assert(index_view(g) =~= seq![av[k as int]]);
            assert(groups_view(groups@) =~= before.push(index_view(g)));
            assert(av.take(k + 1).map_values(|i: int| seq![i]) =~= av.take(k as int).map_values(
                |i: int| seq![i],
            ).push(seq![av[k as int]]));
            assert(groups_view(groups@) =~= head + av.take(k + 1).map_values(|i: int| seq![i]));
        }
        k = k + 1;
    }
    proof {
        assert(av.take(k as int) =~= av);
    }
    groups
}

// ---------------------------------------------------------------------------
// One card per group
// ---------------------------------------------------------------------------

/// `x` inserted into `s` from the back under a strict "before" relation.
pub open spec fn insert_before(s: Seq<int>, x: int, before: spec_fn(int, int) -> bool) -> Seq<int>
    decreases s.len(),
{
    if s.len() == 0 {
        seq![x]
    } else if before(x, s.last()) {
        insert_before(s.drop_last(), x, before).push(s.last())
    } else {
        s.push(x)
    }
}

/// The stable sort of indices under `before`.
pub open spec fn sorted_before(s: Seq<int>, before: spec_fn(int, int) -> bool) -> Seq<int>
    decreases s.len(),
{
    if s.len() == 0 {
        s
    } else {
        insert_before(sorted_before(s.drop_last(), before), s.last(), before)
    }
}

proof fn lemma_insert_before_at(s: Seq<int>, x: int, before: spec_fn(int, int) -> bool, j: int)
    requires
        0 <= j <= s.len(),
        forall|k: int| j <= k < s.len() ==> before(x, #[trigger] s[k]),
        j == 0 || !before(x, s[j - 1]),
    ensures
        insert_before(s, x, before) == s.take(j).push(x) + s.skip(j),
    decreases s.len(),
{
    if s.len() == 0 {
        assert(s.take(j).push(x) + s.skip(j) =~= seq![x]);
    } else if j == s.len() {
        assert(s.take(j) =~= s);
        assert(s.take(j).push(x) + s.skip(j) =~= s.push(x));
    } else {
        let t = s.drop_last();
        assert(before(x, s[s.len() - 1]));
        assert forall|k: int| j <= k < t.len() implies before(x, #[trigger] t[k]) by {
            assert(t[k] == s[k]);
        }
        if j > 0 {
            assert(t[j - 1] == s[j - 1]);
        }
        lemma_insert_before_at(t, x, before, j);
        assert((t.take(j).push(x) + t.skip(j)).push(s.last()) =~= s.take(j).push(x) + s.skip(j));
    }
}

/// Copy `a` has a strictly better audio rank than copy `b`.
pub open spec fn quality_better(a: AlbumCopy, b: AlbumCopy) -> bool {
    a.quality_tier > b.quality_tier || (a.quality_tier == b.quality_tier && (a.bit_depth > b.bit_depth
        || (a.bit_depth == b.bit_depth && (a.sample_rate > b.sample_rate || (a.sample_rate
        == b.sample_rate && a.track_count > b.track_count)))))
}

pub open spec fn quality_equal(a: AlbumCopy, b: AlbumCopy) -> bool {
    a.quality_tier == b.quality_tier && a.bit_depth == b.bit_depth && a.sample_rate == b.sample_rate
        && a.track_count == b.track_count
}

/// Best audio first, then by id.
pub open spec fn copy_before(albums: Seq<AlbumCopy>) -> spec_fn(int, int) -> bool {
    |i: int, j: int|
        quality_better(albums[i], albums[j]) || (quality_equal(albums[i], albums[j]) && lex_lt(
            albums[i].id@,
            albums[j].id@,
        ))
}

fn copy_before_exec(albums: &Vec<AlbumCopy>, i: usize, j: usize) -> (r: bool)
    requires
        i < albums@.len(),
        j < albums@.len(),
    ensures
        r == copy_before(albums@)(i as int, j as int),
{
    let a = &albums[i];
    let b = &albums[j];
    if a.quality_tier != b.quality_tier {
        return a.quality_tier > b.quality_tier;
    }
    if a.bit_depth != b.bit_depth {
        return a.bit_depth > b.bit_depth;
    }
    if a.sample_rate != b.sample_rate {
        return a.sample_rate > b.sample_rate;
    }
    if a.track_count != b.track_count {
        return a.track_count > b.track_count;
    }
    let x = chars_of(a.id.as_str());
    let y = chars_of(b.id.as_str());
    chars_lt(&x, &y)
}

fn order_group(albums: &Vec<AlbumCopy>, group: &Vec<usize>) -> (r: Vec<usize>)
    requires
        forall|k: int| 0 <= k < group@.len() ==> (#[trigger] group@[k]) < albums@.len(),
    ensures
        index_view(r) == sorted_before(index_view(*group), copy_before(albums@)),
        r@.len() == group@.len(),
        forall|k: int| 0 <= k < r@.len() ==> (#[trigger] r@[k]) < albums@.len(),
{
    let ghost gv = index_view(*group);
    let ghost before = copy_before(albums@);
    let mut out: Vec<usize> = Vec::new();
    let mut i: usize = 0;
    while i < group.len()
        invariant
            gv == index_view(*group),
            before == copy_before(albums@),
            0 <= i <= group@.len(),
            forall|k: int| 0 <= k < group@.len() ==> (#[trigger] group@[k]) < albums@.len(),
            out@.len() == i,
            forall|k: int| 0 <= k < out@.len() ==> (#[trigger] out@[k]) < albums@.len(),
            index_view(out) == sorted_before(gv.take(i as int), before),
        decreases group@.len() - i,
    {
        let x = group[i];
        let ghost ov = index_view(out);
        let mut j: usize = out.len();
        while j > 0 && copy_before_exec(albums, x, out[j - 1])
            invariant
                0 <= j <= out@.len(),
                x < albums@.len(),
                ov == index_view(out),
                before == copy_before(albums@),
                forall|k: int| 0 <= k < out@.len() ==> (#[trigger] out@[k]) < albums@.len(),
                forall|k: int| j <= k < out@.len() ==> before(x as int, #[trigger] ov[k]),
            decreases j,
        {
            assert(ov[j - 1] == out@[j - 1] as int);
            j = j - 1;
        }
        proof {
            if j > 0 {
                assert(ov[j - 1] == out@[j - 1] as int);
            }
            lemma_insert_before_at(ov, x as int, before, j as int);
            assert(gv.take(i + 1).drop_last() =~= gv.take(i as int));
            assert(gv.take(i + 1).last() == x as int);
        }
        out.insert(j, x);
        proof {
            assert(index_view(out) =~= ov.take(j as int).push(x as int) + ov.skip(j as int));
        }
        i = i + 1;
    }
    proof {
        assert(gv.take(i as int) =~= gv);
    }
    out
}

// --- sources ---------------------------------------------------------------

/// Sources in precedence order, then by name.
pub open spec fn source_before(x: Seq<char>, y: Seq<char>) -> bool {
    spec_source_order(x) < spec_source_order(y) || (spec_source_order(x) == spec_source_order(y)
        && lex_lt(x, y))
}

pub open spec fn insert_source(s: Seq<Seq<char>>, x: Seq<char>) -> Seq<Seq<char>>
    decreases s.len(),
{
    if s.len() == 0 {
        seq![x]
    } else if source_before(x, s.last()) {
        insert_source(s.drop_last(), x).push(s.last())
    } else {
        s.push(x)
    }
}

pub open spec fn sorted_sources(s: Seq<Seq<char>>) -> Seq<Seq<char>>
    decreases s.len(),
{
    if s.len() == 0 {
        s
    } else {
        insert_source(sorted_sources(s.drop_last()), s.last())
    }
}

/// Consecutive repeats removed (`Vec::dedup`).
pub open spec fn dedup_adjacent(s: Seq<Seq<char>>) -> Seq<Seq<char>>
    decreases s.len(),
{
    if s.len() == 0 {
        s
    } else {
        let r = dedup_adjacent(s.drop_last());
        if r.len() > 0 && r.last() == s.last() {
            r
        } else {
            r.push(s.last())
        }
    }
}

/// A copy's sources, ordered and without repeats.
pub open spec fn normalized_sources(a: AlbumCopy) -> Seq<Seq<char>> {
    dedup_adjacent(sorted_sources(strings_view(a.sources@)))
}

proof fn lemma_insert_source_at(s: Seq<Seq<char>>, x: Seq<char>, j: int)
    requires
        0 <= j <= s.len(),
        forall|k: int| j <= k < s.len() ==> source_before(x, #[trigger] s[k]),
        j == 0 || !source_before(x, s[j - 1]),
    ensures
        insert_source(s, x) == s.take(j).push(x) + s.skip(j),
    decreases s.len(),
{
    if s.len() == 0 {
        assert(s.take(j).push(x) + s.skip(j) =~= seq![x]);
    } else if j == s.len() {
        assert(s.take(j) =~= s);
        assert(s.take(j).push(x) + s.skip(j) =~= s.push(x));
    } else {
        let t = s.drop_last();
        assert(source_before(x, s[s.len() - 1]));
        assert forall|k: int| j <= k < t.len() implies source_before(x, #[trigger] t[k]) by {
            assert(t[k] == s[k]);
        }
        if j > 0 {
            assert(t[j - 1] == s[j - 1]);
        }
        lemma_insert_source_at(t, x, j);
        assert((t.take(j).push(x) + t.skip(j)).push(s.last()) =~= s.take(j).push(x) + s.skip(j));
    }
}

fn source_before_exec(x: &String, y: &String) -> (r: bool)
    ensures
        r == source_before(x@, y@),
{
    let ox = source_order(x.as_str());
    let oy = source_order(y.as_str());
    if ox != oy {
        return ox < oy;
    }
    let a = chars_of(x.as_str());
    let b = chars_of(y.as_str());
    chars_lt(&a, &b)
}

/// Sort the sources by precedence and name, and drop repeats.
fn sort_dedup_sources(words: &Vec<String>) -> (r: Vec<String>)
    ensures
        strings_view(r@) == dedup_adjacent(sorted_sources(strings_view(words@))),
{
    let ghost wv = strings_view(words@);
    let mut out: Vec<String> = Vec::new();
    let mut i: usize = 0;
    while i < words.len()
        invariant
            wv == strings_view(words@),
            0 <= i <= words@.len(),
            strings_view(out@) == sorted_sources(wv.take(i as int)),
        decreases words@.len() - i,
    {
        let x = words[i].clone();
        let ghost ov = strings_view(out@);
        let mut j: usize = out.len();
        while j > 0 && source_before_exec(&x, &out[j - 1])
            invariant
                0 <= j <= out@.len(),
                ov == strings_view(out@),
                forall|k: int| j <= k < out@.len() ==> source_before(x@, #[trigger] ov[k]),
            decreases j,
        {
            j = j - 1;
        }
        proof {
            lemma_insert_source_at(ov, x@, j as int);
            assert(wv.take(i + 1).drop_last() =~= wv.take(i as int));
            assert(wv.take(i + 1).last() == x@);
        }
        out.insert(j, x);
        proof {
            assert(strings_view(out@) =~= ov.take(j as int).push(x@) + ov.skip(j as int));
        }
        i = i + 1;
    }
    proof {
        assert(wv.take(i as int) =~= wv);
    }
    let ghost sv = strings_view(out@);
    let mut kept: Vec<String> = Vec::new();
    let mut k: usize = 0;
    while k < out.len()
        invariant
            sv == strings_view(out@),
            0 <= k <= out@.len(),
            strings_view(kept@) == dedup_adjacent(sv.take(k as int)),
        decreases out@.len() - k,
    {
        proof {
            assert(sv.take(k + 1).drop_last() =~= sv.take(k as int));
            assert(sv.take(k + 1).last() == out@[k as int]@);
        }
        let repeat = kept.len() > 0 && kept[kept.len() - 1] == out[k];
        if !repeat {
            let ghost kv = strings_view(kept@);
            kept.push(out[k].clone());
            proof {
                assert(strings_view(kept@) =~= kv.push(out@[k as int]@));
            }
        }
        k = k + 1;
    }
    proof {
        assert(sv.take(k as int) =~= sv);
    }
    kept
}

/// The words one copy contributes to a merged card: its sources, or its own
/// source when it lists none.
pub open spec fn copy_words(a: AlbumCopy) -> Seq<Seq<char>> {
    if a.sources@.len() == 0 {
        seq![a.source@]
    } else {
        normalized_sources(a)
    }
}

pub open spec fn group_words(albums: Seq<AlbumCopy>, order: Seq<int>) -> Seq<Seq<char>>
    decreases order.len(),
{
    if order.len() == 0 {
        Seq::empty()
    } else {
        group_words(albums, order.drop_last()) + copy_words(albums[order.last()])
    }
}

// --- the plain title ---------------------------------------------------------

/// Among the copies with no edition descriptor, the first one with the
/// shortest title (in UTF-8 bytes), if any.
pub open spec fn plain_title(albums: Seq<AlbumCopy>, order: Seq<int>) -> Option<Seq<char>>
    decreases order.len(),
{
    if order.len() == 0 {
        None
    } else {
        let best = plain_title(albums, order.drop_last());
        let t = albums[order.last()].title@;
        if crate::local_names::spec_edition_descriptor(t).len() == 0 && (best is None
            || encode_utf8(t).len() < encode_utf8(best->0).len()) {
            Some(t)
        } else {
            best
        }
    }
}

/// One visible card for a group of copies.
pub struct MergedCopy {
    /// The copy whose audio represents the card: the best one.
    pub representative: usize,
    /// The logical id of a merged card, else the copy's own id.
    pub id: String,
    pub title: String,
    pub sources: Vec<String>,
    /// The ids of every copy of a merged card, best first; empty otherwise.
    pub version_ids: Vec<String>,
    /// The cover of the best copy that has one, with the source that
    /// resolves it.
    pub artwork: Option<(String, String)>,
    /// The genres of every copy, merged.
    pub genres: Vec<String>,
    /// The artists every copy credits, merged and joined by commas.
    pub all_artists: String,
}

/// The names a copy credits: its artist, then its credit list.
pub open spec fn copy_credits(a: AlbumCopy) -> Seq<Seq<char>> {
    seq![a.artist@] + credit_names(a.all_artists@)
}

/// The credited names of the copies, best copy first.
pub open spec fn group_credits(albums: Seq<AlbumCopy>, order: Seq<int>) -> Seq<Seq<char>>
    decreases order.len(),
{
    if order.len() == 0 {
        Seq::empty()
    } else {
        group_credits(albums, order.drop_last()) + copy_credits(albums[order.last()])
    }
}

/// The genres of the copies, best copy first.
pub open spec fn group_genres(albums: Seq<AlbumCopy>, order: Seq<int>) -> Seq<Seq<char>>
    decreases order.len(),
{
    if order.len() == 0 {
        Seq::empty()
    } else {
        group_genres(albums, order.drop_last()) + texts_of(albums[order.last()].genres@)
    }
}

/// The first copy at or after `i` in `order` that has a cover: its path, and
/// its cover source (else its own source).
pub open spec fn best_artwork_from(albums: Seq<AlbumCopy>, order: Seq<int>, i: int) -> Option<(Seq<char>, Seq<char>)>
    decreases order.len() - i,
{
    if i < 0 || i >= order.len() {
        None
    } else {
        let a = albums[order[i]];
        match a.artwork_path {
            Some(p) => if p@.len() > 0 {
                Some(
                    (
                        p@,
                        match a.artwork_source {
                            Some(src) => src@,
                            None => a.source@,
                        },
                    ),
                )
            } else {
                best_artwork_from(albums, order, i + 1)
            },
            None => best_artwork_from(albums, order, i + 1),
        }
    }
}

pub open spec fn artwork_view(a: Option<(String, String)>) -> Option<(Seq<char>, Seq<char>)> {
    match a {
        Some((p, s)) => Some((p@, s@)),
        None => None,
    }
}

/// The card of a group (per group): the copies
/// ordered best audio first, the best one represents the card; a card of
/// several copies gets a logical id, the union of their sources and the
/// plainest title.
pub open spec fn merged_card_ok(albums: Seq<AlbumCopy>, group: Seq<int>, m: MergedCopy) -> bool {
    let order = sorted_before(group, copy_before(albums));
    let rep = albums[order[0]];
    let ids = Seq::new(order.len(), |k: int| albums[order[k]].id@);
    &&& m.representative == order[0]
    &&& artwork_view(m.artwork) == best_artwork_from(albums, order, 0)
    &&& texts_of(m.genres@) == dedup_genres(sorted_genres(group_genres(albums, order)))
    &&& m.all_artists@ == joined(dedup_credits(sorted_credits(group_credits(albums, order))), ","@)
    &&& order.len() > 1 ==> {
        &&& m.id@ == spec_logical_album_id(ids)
        &&& strings_view(m.version_ids@) == ids
        &&& strings_view(m.sources@) == dedup_adjacent(sorted_sources(group_words(albums, order)))
        &&& m.title@ == match plain_title(albums, order) {
            Some(t) => t,
            None => rep.title@,
        }
    }
    &&& order.len() == 1 ==> {
        &&& m.id@ == rep.id@
        &&& m.version_ids@.len() == 0
        &&& strings_view(m.sources@) == copy_words(rep)
        &&& m.title@ == rep.title@
    }
}

proof fn lemma_sorted_before_len(s: Seq<int>, before: spec_fn(int, int) -> bool)
    ensures
        sorted_before(s, before).len() == s.len(),
    decreases s.len(),
{
    if s.len() > 0 {
        lemma_sorted_before_len(s.drop_last(), before);
        lemma_insert_before_len(sorted_before(s.drop_last(), before), s.last(), before);
    }
}

proof fn lemma_insert_before_len(s: Seq<int>, x: int, before: spec_fn(int, int) -> bool)
    ensures
        insert_before(s, x, before).len() == s.len() + 1,
    decreases s.len(),
{
    if s.len() > 0 {
        lemma_insert_before_len(s.drop_last(), x, before);
    }
}

fn copy_words_exec(a: &AlbumCopy) -> (r: Vec<String>)
    ensures
        strings_view(r@) == copy_words(*a),
{
    if a.sources.len() == 0 {
        let mut r: Vec<String> = Vec::new();
        r.push(a.source.clone());
        proof {
            assert(strings_view(r@) =~= seq![a.source@]);
        }
        r
    } else {
        sort_dedup_sources(&a.sources)
    }
}

/// The card of one group of copies.
fn genres_of(albums: &Vec<AlbumCopy>, order: &Vec<usize>) -> (r: Vec<String>)
    requires
        forall|q: int| 0 <= q < order@.len() ==> (#[trigger] order@[q]) < albums@.len(),
    ensures
        texts_of(r@) == dedup_genres(sorted_genres(group_genres(albums@, index_view(*order)))),
{
    let ghost ov = index_view(*order);
    let mut all: Vec<String> = Vec::new();
    let mut i: usize = 0;
    while i < order.len()
        invariant
            ov == index_view(*order),
            0 <= i <= order@.len(),
            forall|q: int| 0 <= q < order@.len() ==> (#[trigger] order@[q]) < albums@.len(),
            texts_of(all@) == group_genres(albums@, ov.take(i as int)),
        decreases order@.len() - i,
    {
        let x = order[i];
        proof {
            assert(ov[i as int] == x as int);
            assert(ov.take(i + 1).drop_last() =~= ov.take(i as int));
            assert(ov.take(i + 1).last() == x as int);
        }
        let gs = &albums[x].genres;
        let ghost base = texts_of(all@);
        let mut k: usize = 0;
        while k < gs.len()
            invariant
                0 <= k <= gs@.len(),
                texts_of(all@) == base + texts_of(gs@.take(k as int)),
            decreases gs@.len() - k,
        {
            let g = gs[k].clone();
            let ghost prev = all@;
            all.push(g);
            proof {
                assert(texts_of(all@) =~= texts_of(prev).push(gs@[k as int]@));
                assert(texts_of(gs@.take(k + 1)) =~= texts_of(gs@.take(k as int)).push(gs@[k as int]@));
                assert(texts_of(all@) =~= base + texts_of(gs@.take(k + 1)));
            }
            k = k + 1;
        }
        proof {
            assert(gs@.take(k as int) =~= gs@);
        }
        i = i + 1;
    }
    proof {
        assert(ov.take(i as int) =~= ov);
    }
    merge_genres(&all)
}

fn credits_of(albums: &Vec<AlbumCopy>, order: &Vec<usize>) -> (r: String)
    requires
        forall|q: int| 0 <= q < order@.len() ==> (#[trigger] order@[q]) < albums@.len(),
    ensures
        r@ == joined(dedup_credits(sorted_credits(group_credits(albums@, index_view(*order)))), ","@),
{
    let ghost ov = index_view(*order);
    let mut all: Vec<String> = Vec::new();
    let mut i: usize = 0;
    while i < order.len()
        invariant
            ov == index_view(*order),
            0 <= i <= order@.len(),
            forall|q: int| 0 <= q < order@.len() ==> (#[trigger] order@[q]) < albums@.len(),
            texts_of(all@) == group_credits(albums@, ov.take(i as int)),
        decreases order@.len() - i,
    {
        let x = order[i];
        proof {
            assert(ov[i as int] == x as int);
            assert(ov.take(i + 1).drop_last() =~= ov.take(i as int));
            assert(ov.take(i + 1).last() == x as int);
        }
        let ghost base = texts_of(all@);
        all.push(albums[x].artist.clone());
        let names = credit_names_of(albums[x].all_artists.as_str());
        let ghost mid = texts_of(all@);
        proof {
            assert(mid =~= base.push(albums@[x as int].artist@));
        }
        let mut k: usize = 0;
        while k < names.len()
            invariant
                0 <= k <= names@.len(),
                texts_of(all@) == mid + texts_of(names@.take(k as int)),
            decreases names@.len() - k,
        {
            let g = names[k].clone();
            let ghost prev = all@;
            all.push(g);
            proof {
                assert(texts_of(all@) =~= texts_of(prev).push(names@[k as int]@));
                assert(texts_of(names@.take(k + 1)) =~= texts_of(names@.take(k as int)).push(names@[k as int]@));
                assert(texts_of(all@) =~= mid + texts_of(names@.take(k + 1)));
            }
            k = k + 1;
        }
        proof {
            assert(names@.take(k as int) =~= names@);
            assert(texts_of(all@) =~= base + copy_credits(albums@[x as int]));
        }
        i = i + 1;
    }
    proof {
        assert(ov.take(i as int) =~= ov);
    }
    let merged = merge_credits(&all);
    join_with_commas(&merged)
}

pub fn merge_group(albums: &Vec<AlbumCopy>, group: &Vec<usize>) -> (m: MergedCopy)
    requires
        group@.len() > 0,
        forall|k: int| 0 <= k < group@.len() ==> (#[trigger] group@[k]) < albums@.len(),
    ensures
        merged_card_ok(albums@, index_view(*group), m),
{
    let order = order_group(albums, group);
    let ghost ov = index_view(order);
    proof {
        lemma_sorted_before_len(index_view(*group), copy_before(albums@));
        assert(ov[0] == order@[0] as int);
    }
    let rep = order[0];
    let mut ids: Vec<String> = Vec::new();
    let mut k: usize = 0;
    while k < order.len()
        invariant
            ov == index_view(order),
            0 <= k <= order@.len(),
            forall|q: int| 0 <= q < order@.len() ==> (#[trigger] order@[q]) < albums@.len(),
            strings_view(ids@) == Seq::new(k as nat, |q: int| albums@[ov[q]].id@),
        decreases order@.len() - k,
    {
        let ghost before = strings_view(ids@);
        let idk = albums[order[k]].id.clone();
        assert(idk@ == albums@[ov[k as int]].id@);
        ids.push(idk);
        proof {
            assert(ov[k as int] == order@[k as int] as int);
            assert(strings_view(ids@) =~= before.push(idk@));
            assert(strings_view(ids@) =~= Seq::new((k + 1) as nat, |q: int| albums@[ov[q]].id@));
        }
        k = k + 1;
    }
    let artwork = best_artwork(albums, &order);
    let genres = genres_of(albums, &order);
    let all_artists = credits_of(albums, &order);
    if order.len() == 1 {
        let r = &albums[rep];
        return MergedCopy {
            representative: rep,
            id: r.id.clone(),
            title: r.title.clone(),
            sources: copy_words_exec(r),
            version_ids: Vec::new(),
            artwork,
            genres,
            all_artists,
        };
    }
    let id = logical_album_id(&ids);
    let mut words: Vec<String> = Vec::new();
    let mut best: Option<usize> = None;
    let mut best_len: usize = 0;
    let mut i: usize = 0;
    while i < order.len()
        invariant
            ov == index_view(order),
            0 <= i <= order@.len(),
            forall|q: int| 0 <= q < order@.len() ==> (#[trigger] order@[q]) < albums@.len(),
            strings_view(words@) == group_words(albums@, ov.take(i as int)),
            match best {
                Some(b) => b < albums@.len() && plain_title(albums@, ov.take(i as int)) == Some(
                    albums@[b as int].title@,
                ) && best_len == encode_utf8(albums@[b as int].title@).len(),
                None => plain_title(albums@, ov.take(i as int)) is None,
            },
        decreases order@.len() - i,
    {
        let x = order[i];
        proof {
            assert(ov[i as int] == x as int);
            assert(ov.take(i + 1).drop_last() =~= ov.take(i as int));
            assert(ov.take(i + 1).last() == x as int);
        }
        let ghost wb = strings_view(words@);
        let cw = copy_words_exec(&albums[x]);
        let mut q: usize = 0;
        while q < cw.len()
            invariant
                0 <= q <= cw@.len(),
                strings_view(words@) == wb + strings_view(cw@).take(q as int),
            decreases cw@.len() - q,
        {
            let ghost w0 = strings_view(words@);
            words.push(cw[q].clone());
            proof {
                assert(strings_view(words@) =~= w0.push(cw@[q as int]@));
                assert(strings_view(cw@).take(q + 1) =~= strings_view(cw@).take(q as int).push(
                    cw@[q as int]@,
                ));
            }
            q = q + 1;
        }
        proof {
            assert(strings_view(cw@).take(q as int) =~= strings_view(cw@));
        }
        let d = crate::local_names::edition_descriptor(albums[x].title.as_str());
        let dl = chars_of(d.as_str());
        if dl.len() == 0 {
            let bl = albums[x].title.as_str().as_bytes().len();
            let better = match best {
                None => true,
                Some(_) => bl < best_len,
            };
            if better {
                best = Some(x);
                best_len = bl;
            }
        }
        i = i + 1;
    }
    proof {
        assert(ov.take(i as int) =~= ov);
    }
    let sources = sort_dedup_sources(&words);
    let title = match best {
        Some(b) => albums[b].title.clone(),
        None => albums[rep].title.clone(),
    };
    MergedCopy { representative: rep, id, title, sources, version_ids: ids, artwork, genres, all_artists }
}

fn best_artwork(albums: &Vec<AlbumCopy>, order: &Vec<usize>) -> (r: Option<(String, String)>)
    requires
        forall|q: int| 0 <= q < order@.len() ==> (#[trigger] order@[q]) < albums@.len(),
    ensures
        artwork_view(r) == best_artwork_from(albums@, index_view(*order), 0),
{
    let ghost ov = index_view(*order);
    let mut i: usize = 0;
    while i < order.len()
        invariant
            ov == index_view(*order),
            0 <= i <= order@.len(),
            forall|q: int| 0 <= q < order@.len() ==> (#[trigger] order@[q]) < albums@.len(),
            best_artwork_from(albums@, ov, 0) == best_artwork_from(albums@, ov, i as int),
        decreases order@.len() - i,
    {
        let a = &albums[order[i]];
        assert(ov[i as int] == order@[i as int] as int);
        match &a.artwork_path {
            Some(p) => {
                if chars_of(p.as_str()).len() > 0 {
                    let src = match &a.artwork_source {
                        Some(s) => s.clone(),
                        None => a.source.clone(),
                    };
                    return Some((p.clone(), src));
                }
            },
            None => {},
        }
        i = i + 1;
    }
    None
}

// ---------------------------------------------------------------------------
// The whole identity pass
// ---------------------------------------------------------------------------

/// The sort key of a group's card: the representative's artist key, the
/// card title's logical key, then the card id.
pub open spec fn group_card_key(albums: Seq<AlbumCopy>, g: Seq<int>) -> (Seq<char>, Seq<char>, Seq<char>) {
    let order = sorted_before(g, copy_before(albums));
    let rep = albums[order[0]];
    let ids = Seq::new(order.len(), |k: int| albums[order[k]].id@);
    let title = if order.len() > 1 {
        match plain_title(albums, order) {
            Some(t) => t,
            None => rep.title@,
        }
    } else {
        rep.title@
    };
    let id = if order.len() > 1 {
        spec_logical_album_id(ids)
    } else {
        rep.id@
    };
    (spec_name_key(rep.artist@), spec_name_key(spec_strip_edition(title)), id)
}

pub open spec fn key3_lt(a: (Seq<char>, Seq<char>, Seq<char>), b: (Seq<char>, Seq<char>, Seq<char>)) -> bool {
    lex_lt(a.0, b.0) || (a.0 == b.0 && (lex_lt(a.1, b.1) || (a.1 == b.1 && lex_lt(a.2, b.2))))
}

/// Group `i`'s card sorts before group `j`'s.
pub open spec fn group_before(albums: Seq<AlbumCopy>, groups: Seq<Seq<int>>) -> spec_fn(int, int) -> bool {
    |i: int, j: int| key3_lt(group_card_key(albums, groups[i]), group_card_key(albums, groups[j]))
}

/// The order of the cards: groups sorted stably by their card keys.
pub open spec fn card_order(albums: Seq<AlbumCopy>) -> Seq<int> {
    let groups = spec_copy_groups(albums);
    sorted_before(Seq::new(groups.len(), |g: int| g), group_before(albums, groups))
}

pub type Keyed = (Vec<char>, Vec<char>, Vec<char>, MergedCopy, usize);

pub open spec fn keyed_gidx(v: Seq<Keyed>) -> Seq<int> {
    Seq::new(v.len(), |k: int| v[k].4 as int)
}

fn key3_lt_exec(a: &Keyed, b: &Keyed) -> (r: bool)
    ensures
        r == key3_lt((a.0@, a.1@, a.2@), (b.0@, b.1@, b.2@)),
{
    if chars_lt(&a.0, &b.0) {
        return true;
    }
    if !crate::text::chars_equal(&a.0, &b.0) {
        return false;
    }
    if chars_lt(&a.1, &b.1) {
        return true;
    }
    if !crate::text::chars_equal(&a.1, &b.1) {
        return false;
    }
    chars_lt(&a.2, &b.2)
}

/// `coalesce_album_versions`: one card per group of copies, the cards in
/// artist, title and id order.
pub fn coalesce_album_versions(albums: &Vec<AlbumCopy>) -> (r: Vec<MergedCopy>)
    ensures
        r@.len() == spec_copy_groups(albums@).len(),
        forall|k: int|
            0 <= k < r@.len() ==> merged_card_ok(
                albums@,
                spec_copy_groups(albums@)[card_order(albums@)[k]],
                #[trigger] r@[k],
            ),
{
    let groups = copy_groups(albums);
    let ghost gv = groups_view(groups@);
    let ghost before = group_before(albums@, gv);
    let ghost gidx = Seq::new(gv.len(), |g: int| g);
    proof {
        assert forall|g: int| 0 <= g < gv.len() implies (#[trigger] gv[g]).len() > 0 by {
            assert(gv[g] == index_view(groups@[g]));
        }
        assert forall|g: int, k: int| 0 <= g < gv.len() && 0 <= k < gv[g].len() implies 0
            <= #[trigger] gv[g][k] < albums@.len() by {
            assert(gv[g] == index_view(groups@[g]));
            assert(gv[g][k] == groups@[g]@[k] as int);
        }
    }
    let mut out: Vec<Keyed> = Vec::new();
    let mut i: usize = 0;
    while i < groups.len()
        invariant
            gv == groups_view(groups@),
            gv == spec_copy_groups(albums@),
            before == group_before(albums@, gv),
            gidx == Seq::new(gv.len(), |g: int| g),
            forall|g: int| 0 <= g < gv.len() ==> (#[trigger] gv[g]).len() > 0,
            forall|g: int, k: int|
                0 <= g < gv.len() && 0 <= k < gv[g].len() ==> 0 <= #[trigger] gv[g][k] < albums@.len(),
            0 <= i <= groups@.len(),
            keyed_gidx(out@) == sorted_before(gidx.take(i as int), before),
            forall|k: int|
                0 <= k < out@.len() ==> {
                    let e = #[trigger] out@[k];
                    &&& e.4 < gv.len()
                    &&& (e.0@, e.1@, e.2@) == group_card_key(albums@, gv[e.4 as int])
                    &&& merged_card_ok(albums@, gv[e.4 as int], e.3)
                },
        decreases groups@.len() - i,
    {
        proof {
            assert(gv[i as int] == index_view(groups@[i as int]));
            assert forall|k: int| 0 <= k < groups@[i as int]@.len() implies (#[trigger] groups@[i as int]@[k])
                < albums@.len() by {
                assert(gv[i as int][k] == groups@[i as int]@[k] as int);
            }
        }
        let card = merge_group(albums, &groups[i]);
        let rep = card.representative;
        proof {
            lemma_sorted_before_len(gv[i as int], copy_before(albums@));
            assert(index_view(groups@[i as int]) == gv[i as int]);
            lemma_order_in_range(albums@, gv[i as int]);
        }
        let k0 = chars_of(name_key(albums[rep].artist.as_str()).as_str());
        let k1 = chars_of(logical_title(card.title.as_str()).as_str());
        let k2 = chars_of(card.id.as_str());
        let x: Keyed = (k0, k1, k2, card, i);
        let ghost ov = keyed_gidx(out@);
        let mut j: usize = out.len();
        while j > 0 && key3_lt_exec(&x, &out[j - 1])
            invariant
                0 <= j <= out@.len(),
                ov == keyed_gidx(out@),
                gv == spec_copy_groups(albums@),
                before == group_before(albums@, gv),
                x.4 == i,
                i < gv.len(),
                (x.0@, x.1@, x.2@) == group_card_key(albums@, gv[i as int]),
                forall|k: int|
                    0 <= k < out@.len() ==> {
                        let e = #[trigger] out@[k];
                        &&& e.4 < gv.len()
                        &&& (e.0@, e.1@, e.2@) == group_card_key(albums@, gv[e.4 as int])
                    },
                forall|k: int| j <= k < out@.len() ==> before(i as int, #[trigger] ov[k]),
            decreases j,
        {
            assert(ov[j - 1] == out@[j - 1].4 as int);
            j = j - 1;
        }
        proof {
            if j > 0 {
                assert(ov[j - 1] == out@[j - 1].4 as int);
            }
            lemma_insert_before_at(ov, i as int, before, j as int);
            assert(gidx.take(i + 1).drop_last() =~= gidx.take(i as int));
            assert(gidx.take(i + 1).last() == i as int);
        }
        out.insert(j, x);
        proof {
            assert(keyed_gidx(out@) =~= ov.take(j as int).push(i as int) + ov.skip(j as int));
        }
        i = i + 1;
    }
    proof {
        assert(gidx.take(i as int) =~= gidx);
        lemma_sorted_before_len(gidx, before);
    }
    let ghost ko = keyed_gidx(out@);
    let mut rest = out;
    let mut cards: Vec<MergedCopy> = Vec::new();
    let ghost mut done: nat = 0;
    while rest.len() > 0
        invariant
            done + rest@.len() == ko.len(),
            ko.len() == gv.len(),
            gv == spec_copy_groups(albums@),
            ko == card_order(albums@),
            forall|k: int| 0 <= k < rest@.len() ==> {
                let e = #[trigger] rest@[k];
                &&& e.4 as int == ko[done + k]
                &&& e.4 < gv.len()
                &&& merged_card_ok(albums@, gv[e.4 as int], e.3)
            },
            cards@.len() == done,
            forall|k: int|
                0 <= k < cards@.len() ==> merged_card_ok(albums@, gv[ko[k]], #[trigger] cards@[k]),
        decreases rest@.len(),
    {
        let ghost rb = rest@;
        let e = rest.remove(0);
        proof {
            assert(e == rb[0]);
            assert forall|k: int| 0 <= k < rest@.len() implies {
                let f = #[trigger] rest@[k];
                &&& f.4 as int == ko[done + 1 + k]
                &&& f.4 < gv.len()
                &&& merged_card_ok(albums@, gv[f.4 as int], f.3)
            } by {
                assert(rest@[k] == rb[k + 1]);
            }
        }
        let (_, _, _, card, _) = e;
        cards.push(card);
        proof {
            done = done + 1;
        }
    }
    cards
}

proof fn lemma_order_in_range(albums: Seq<AlbumCopy>, g: Seq<int>)
    requires
        g.len() > 0,
        forall|k: int| 0 <= k < g.len() ==> 0 <= #[trigger] g[k] < albums.len(),
    ensures
        0 <= sorted_before(g, copy_before(albums))[0] < albums.len(),
{
    lemma_sorted_before_elems(g, copy_before(albums));
    lemma_sorted_before_len(g, copy_before(albums));
    let o = sorted_before(g, copy_before(albums));
    assert(o.to_multiset().count(o[0]) > 0) by {
        o.to_multiset_ensures();
        assert(o.contains(o[0]));
    }
    g.to_multiset_ensures();
    assert(g.contains(o[0]));
}

proof fn lemma_insert_before_elems(s: Seq<int>, x: int, before: spec_fn(int, int) -> bool)
    ensures
        insert_before(s, x, before).to_multiset() == s.to_multiset().insert(x),
    decreases s.len(),
{
    s.to_multiset_ensures();
    if s.len() == 0 {
        assert(seq![x] =~= s.push(x));
    } else if before(x, s.last()) {
        let t = s.drop_last();
        assert(t.push(s.last()) =~= s);
        t.to_multiset_ensures();
        lemma_insert_before_elems(t, x, before);
        insert_before(t, x, before).to_multiset_ensures();
        assert(t.to_multiset().insert(x).insert(s.last()) =~= t.to_multiset().insert(s.last()).insert(
            x,
        ));
    } else {
        assert(s.push(x).to_multiset() =~= s.to_multiset().insert(x));
    }
}

/// Sorting indices keeps every index exactly as often.
pub proof fn lemma_sorted_before_elems(s: Seq<int>, before: spec_fn(int, int) -> bool)
    ensures
        sorted_before(s, before).to_multiset() == s.to_multiset(),
    decreases s.len(),
{
    s.to_multiset_ensures();
    if s.len() > 0 {
        let t = s.drop_last();
        assert(t.push(s.last()) =~= s);
        t.to_multiset_ensures();
        lemma_sorted_before_elems(t, before);
        lemma_insert_before_elems(sorted_before(t, before), s.last(), before);
    }
}

} // verus!
