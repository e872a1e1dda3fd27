//! The media variants of an album card: every (source, quality tier, format)
//! that one of the physical copies behind the card offers, each once and in
//! order of source, then tier, then format.
use vstd::prelude::*;
use crate::text::{
    ascii_upper_seq, chars_equal, chars_lt, chars_of, lex_lt, lemma_lex_irreflexive, lemma_lex_total,
    lemma_lex_transitive, str_is_empty, str_to_ascii_upper, trim, trimmed_chars,
};

verus! {

/// One way an album can be played: from which source, at which quality tier,
/// in which format.
#[derive(Debug, PartialEq, Eq)]
pub struct MediaVariant {
    pub quality_tier: String,
    pub format: String,
    pub source: String,
}

impl MediaVariant {
    pub fn duplicate(&self) -> (r: MediaVariant)
        ensures
            r == *self,
    {
        MediaVariant {
            quality_tier: self.quality_tier.clone(),
            format: self.format.clone(),
            source: self.source.clone(),
        }
    }
}

/// The media of one physical album id.
pub struct PhysicalMedia {
    pub id: String,
    pub variants: Vec<MediaVariant>,
}

/// What a variant is ordered by: its source, then its tier, then its format.
pub type VariantKey = (Seq<char>, Seq<char>, Seq<char>);

pub open spec fn variant_key(v: MediaVariant) -> VariantKey {
    (v.source@, v.quality_tier@, v.format@)
}

pub open spec fn key_lt(a: VariantKey, b: VariantKey) -> bool {
    ||| lex_lt(a.0, b.0)
    ||| a.0 == b.0 && lex_lt(a.1, b.1)
    ||| a.0 == b.0 && a.1 == b.1 && lex_lt(a.2, b.2)
}

pub open spec fn keys_of(v: Seq<MediaVariant>) -> Seq<VariantKey> {
    v.map_values(|m: MediaVariant| variant_key(m))
}

/// In order, each key once.
pub open spec fn keys_ascending(s: Seq<VariantKey>) -> bool {
    forall|i: int, j: int| 0 <= i < j < s.len() ==> key_lt(#[trigger] s[i], #[trigger] s[j])
}

/// The media of the first entry for `id` from position `k` on.
pub open spec fn lookup_from(m: Seq<PhysicalMedia>, id: Seq<char>, k: int) -> Option<Seq<MediaVariant>>
    decreases m.len() - k,
{
    if k < 0 || k >= m.len() {
        None
    } else if m[k].id@ == id {
        Some(m[k].variants@)
    } else {
        lookup_from(m, id, k + 1)
    }
}

/// The media recorded for a physical album id, if any.
pub open spec fn media_lookup(m: Seq<PhysicalMedia>, id: Seq<char>) -> Option<Seq<MediaVariant>> {
    lookup_from(m, id, 0)
}

/// The keys of the media recorded for any of the version ids.
pub open spec fn version_keys(m: Seq<PhysicalMedia>, ids: Seq<Seq<char>>) -> Set<VariantKey> {
    Set::new(
        |k: VariantKey|
            exists|i: int, j: int|
                0 <= i < ids.len() && #[trigger] media_lookup(m, ids[i]) is Some && 0 <= j < media_lookup(
                    m,
                    ids[i],
                )->0.len() && variant_key(#[trigger] media_lookup(m, ids[i])->0[j]) == k,
    )
}

/// The version ids as text.
pub open spec fn ids_view(version_ids: Option<&Vec<String>>) -> Option<Seq<Seq<char>>> {
    match version_ids {
        Some(ids) => Some(ids@.map_values(|s: String| s@)),
        None => None,
    }
}

/// The keys a card offers: those of its versions' media; when they offer
/// none, those recorded for the card's own id; when none are recorded,
/// those of its own media.
pub open spec fn card_keys(
    album_id: Seq<char>,
    version_ids: Option<Seq<Seq<char>>>,
    m: Seq<PhysicalMedia>,
    own: Seq<MediaVariant>,
) -> Set<VariantKey> {
    let from_versions = match version_ids {
        Some(ids) => version_keys(m, ids),
        None => Set::empty(),
    };
    if from_versions != Set::<VariantKey>::empty() {
        from_versions
    } else {
        match media_lookup(m, album_id) {
            Some(vs) => keys_of(vs).to_set(),
            None => keys_of(own).to_set(),
        }
    }
}

proof fn lemma_key_lt_irreflexive(a: VariantKey)
    ensures
        !key_lt(a, a),
{
    lemma_lex_irreflexive(a.0, 0);
    lemma_lex_irreflexive(a.1, 0);
    lemma_lex_irreflexive(a.2, 0);
}

proof fn lemma_key_lt_transitive(a: VariantKey, b: VariantKey, c: VariantKey)
    requires
        key_lt(a, b),
        key_lt(b, c),
    ensures
        key_lt(a, c),
{
    if lex_lt(a.0, b.0) && lex_lt(b.0, c.0) {
        lemma_lex_transitive(a.0, b.0, c.0, 0);
    }
    if a.0 == b.0 && b.0 == c.0 {
        if lex_lt(a.1, b.1) && lex_lt(b.1, c.1) {
            lemma_lex_transitive(a.1, b.1, c.1, 0);
        }
        if a.1 == b.1 && b.1 == c.1 && lex_lt(a.2, b.2) && lex_lt(b.2, c.2) {
            lemma_lex_transitive(a.2, b.2, c.2, 0);
        }
    }
}

proof fn lemma_key_lt_total(a: VariantKey, b: VariantKey)
    requires
        !key_lt(a, b),
        !key_lt(b, a),
    ensures
        a == b,
{
    lemma_lex_total(a.0, b.0, 0);
    lemma_lex_total(a.1, b.1, 0);
    lemma_lex_total(a.2, b.2, 0);
}

/// Two ascending key lists that hold the same keys are the same list: the
/// order and the set together fix the variants of a card.
pub proof fn lemma_ascending_keys_unique(a: Seq<VariantKey>, b: Seq<VariantKey>)
    requires
        keys_ascending(a),
        keys_ascending(b),
        a.to_set() == b.to_set(),
    ensures
        a == b,
    decreases a.len(),
{
    if a.len() == 0 {
        if b.len() > 0 {
            assert(b.to_set().contains(b[0]));
        }
        assert(a =~= b);
    } else if b.len() == 0 {
        assert(a.to_set().contains(a[0]));
    } else {
        assert(b.to_set().contains(a[0]));
        assert(a.to_set().contains(b[0]));
        let i = choose|i: int| 0 <= i < b.len() && b[i] == a[0];
        let j = choose|j: int| 0 <= j < a.len() && a[j] == b[0];
        if i > 0 {
            assert(key_lt(b[0], b[i]));
            if j > 0 {
                assert(key_lt(a[0], a[j]));
                lemma_key_lt_transitive(a[0], b[0], a[0]);
                lemma_key_lt_irreflexive(a[0]);
            } else {
                lemma_key_lt_irreflexive(a[0]);
            }
        }
        assert(a[0] == b[0]);
        let ra = a.drop_first();
        let rb = b.drop_first();
        assert forall|x: VariantKey| ra.to_set().contains(x) <==> rb.to_set().contains(x) by {
            if ra.to_set().contains(x) {
                let p = choose|p: int| 0 <= p < ra.len() && ra[p] == x;
                assert(a[p + 1] == x);
                assert(key_lt(a[0], x));
                lemma_key_lt_irreflexive(x);
                assert(a.to_set().contains(x));
                let q = choose|q: int| 0 <= q < b.len() && b[q] == x;
                assert(q != 0);
                assert(rb[q - 1] == x);
            }
            if rb.to_set().contains(x) {
                let p = choose|p: int| 0 <= p < rb.len() && rb[p] == x;
                assert(b[p + 1] == x);
                assert(key_lt(b[0], x));
                lemma_key_lt_irreflexive(x);
                assert(b.to_set().contains(x));
                let q = choose|q: int| 0 <= q < a.len() && a[q] == x;
                assert(q != 0);
                assert(ra[q - 1] == x);
            }
        }
        assert(ra.to_set() =~= rb.to_set());
        lemma_ascending_keys_unique(ra, rb);
        assert(a =~= seq![a[0]] + ra);
        assert(b =~= seq![b[0]] + rb);
    }
}

fn key_less(a: &MediaVariant, b: &MediaVariant) -> (r: bool)
    ensures
        r == key_lt(variant_key(*a), variant_key(*b)),
{
    let (asrc, bsrc) = (chars_of(a.source.as_str()), chars_of(b.source.as_str()));
    if chars_lt(&asrc, &bsrc) {
        return true;
    }
    if !chars_equal(&asrc, &bsrc) {
        return false;
    }
    let (at, bt) = (chars_of(a.quality_tier.as_str()), chars_of(b.quality_tier.as_str()));
    if chars_lt(&at, &bt) {
        return true;
    }
    if !chars_equal(&at, &bt) {
        return false;
    }
    let (af, bf) = (chars_of(a.format.as_str()), chars_of(b.format.as_str()));
    chars_lt(&af, &bf)
}

/// Adds a variant to an ascending list, unless one with its key is there.
fn add_variant(v: &mut Vec<MediaVariant>, x: MediaVariant)
    requires
        keys_ascending(keys_of(old(v)@)),
    ensures
        keys_ascending(keys_of(final(v)@)),
        keys_of(final(v)@).to_set() == keys_of(old(v)@).to_set().insert(variant_key(x)),
{
    let ghost s = keys_of(v@);
    let ghost xk = variant_key(x);
    let mut j: usize = 0;
    while j < v.len() && key_less(&v[j], &x)
        invariant
            0 <= j <= v@.len(),
            s == keys_of(v@),
            xk == variant_key(x),
            forall|k: int| 0 <= k < j ==> key_lt(#[trigger] s[k], xk),
        decreases v@.len() - j,
    {
        j = j + 1;
    }
    let same = j < v.len() && !key_less(&x, &v[j]);
    if same {
        proof {
            assert(!key_lt(s[j as int], xk));
            lemma_key_lt_total(s[j as int], xk);
            assert(s.to_set().insert(xk) =~= s.to_set()) by {
                assert(s.contains(xk));
            }
        }
        return;
    }
    proof {
        if j < s.len() {
            assert(key_lt(xk, s[j as int]));
        }
    }
    v.insert(j, x);
    proof {
        let t = keys_of(v@);
        assert(t =~= s.insert(j as int, xk));
        assert forall|a: int, b: int| 0 <= a < b < t.len() implies key_lt(#[trigger] t[a], #[trigger] t[b]) by {
            if b < j {
                assert(t[a] == s[a] && t[b] == s[b]);
            } else if b == j {
                assert(t[a] == s[a]);
            } else if a < j {
                assert(t[a] == s[a] && t[b] == s[b - 1]);
                if b - 1 > j {
                    assert(key_lt(s[j as int], s[b - 1]));
                    lemma_key_lt_transitive(xk, s[j as int], s[b - 1]);
                }
                lemma_key_lt_transitive(s[a], xk, s[b - 1]);
            } else if a == j {
                assert(t[b] == s[b - 1]);
                if b - 1 > j {
                    assert(key_lt(s[j as int], s[b - 1]));
                    lemma_key_lt_transitive(xk, s[j as int], s[b - 1]);
                }
            } else {
                assert(t[a] == s[a - 1] && t[b] == s[b - 1]);
            }
        }
        assert(t.to_set() =~= s.to_set().insert(xk)) by {
            assert forall|y: VariantKey| t.to_set().contains(y) <==> s.to_set().insert(xk).contains(y) by {
                if t.to_set().contains(y) {
                    let p = choose|p: int| 0 <= p < t.len() && t[p] == y;
                    if p < j {
                        assert(s[p] == y);
                    } else if p > j {
                        assert(s[p - 1] == y);
                    }
                }
                if s.to_set().contains(y) {
                    let p = choose|p: int| 0 <= p < s.len() && s[p] == y;
                    if p < j {
                        assert(t[p] == y);
                    } else {
                        assert(t[p + 1] == y);
                    }
                }
                if y == xk {
                    assert(t[j as int] == y);
                }
            }
        }
    }
}

/// Adds every variant of a list.
fn add_all(v: &mut Vec<MediaVariant>, xs: &Vec<MediaVariant>)
    requires
        keys_ascending(keys_of(old(v)@)),
    ensures
        keys_ascending(keys_of(final(v)@)),
        keys_of(final(v)@).to_set() == keys_of(old(v)@).to_set().union(keys_of(xs@).to_set()),
{
    let ghost start = keys_of(v@).to_set();
    let mut j: usize = 0;
    while j < xs.len()
        invariant
            0 <= j <= xs@.len(),
            keys_ascending(keys_of(v@)),
            keys_of(v@).to_set() == start.union(keys_of(xs@.take(j as int)).to_set()),
        decreases xs@.len() - j,
    {
        let x = xs[j].duplicate();
        add_variant(v, x);
        proof {
            assert(keys_of(xs@.take(j + 1)) =~= keys_of(xs@.take(j as int)).push(variant_key(xs@[j as int])));
            keys_of(xs@.take(j as int)).lemma_push_to_set_commute(variant_key(xs@[j as int]));
        }
        j = j + 1;
    }
    proof {
        assert(xs@.take(j as int) =~= xs@);
    }
}

/// The position of the first entry for `id`, if any.
fn find_media(m: &Vec<PhysicalMedia>, id: &str) -> (r: Option<usize>)
    ensures
        match r {
            Some(k) => k < m@.len() && media_lookup(m@, id@) == Some(m@[k as int].variants@),
            None => media_lookup(m@, id@) is None,
        },
{
    let idc = chars_of(id);
    let mut k: usize = 0;
    while k < m.len()
        invariant
            0 <= k <= m@.len(),
            idc@ == id@,
            media_lookup(m@, id@) == lookup_from(m@, id@, k as int),
        decreases m@.len() - k,
    {
        let here = chars_of(m[k].id.as_str());
        if chars_equal(&here, &idc) {
            return Some(k);
        }
        k = k + 1;
    }
    None
}

/// The media variants of an album card: those of the physical copies in
/// `version_ids` as `physical` records them; when they offer none, those
/// recorded for the card's own id; when nothing is recorded for it, `own`,
/// the card's own media. Each (source, tier, format) comes once, in order of
/// source, then tier, then format.
pub fn logical_album_media_variants(
    album_id: &str,
    version_ids: Option<&Vec<String>>,
    physical: &Vec<PhysicalMedia>,
    own: &Vec<MediaVariant>,
) -> (r: Vec<MediaVariant>)
    ensures
        keys_ascending(keys_of(r@)),
        keys_of(r@).to_set() == card_keys(album_id@, ids_view(version_ids), physical@, own@),
{
    let mut out: Vec<MediaVariant> = Vec::new();
    let ghost ids_view: Seq<Seq<char>> = match version_ids {
        Some(ids) => ids@.map_values(|s: String| s@),
        None => Seq::empty(),
    };
    proof {
        assert(keys_of(out@).to_set() =~= Set::empty());
    }
    if let Some(ids) = version_ids {
        let mut i: usize = 0;
        while i < ids.len()
            invariant
                0 <= i <= ids@.len(),
                ids_view == ids@.map_values(|s: String| s@),
                keys_ascending(keys_of(out@)),
                keys_of(out@).to_set() == version_keys(physical@, ids_view.take(i as int)),
            decreases ids@.len() - i,
        {
            let found = find_media(physical, ids[i].as_str());
            let ghost before = keys_of(out@).to_set();
            if let Some(k) = found {
                add_all(&mut out, &physical[k].variants);
            }
            proof {
                let p = physical@;
                let t = ids_view.take(i + 1);
                let s = ids_view.take(i as int);
                assert(t[i as int] == ids@[i as int]@);
                assert forall|key: VariantKey|
                    keys_of(out@).to_set().contains(key) <== version_keys(p, t).contains(key) by {
                    if version_keys(p, t).contains(key) {
                        let (a, b) = choose|a: int, b: int|
                            0 <= a < t.len() && #[trigger] media_lookup(p, t[a]) is Some && 0 <= b
                                < media_lookup(p, t[a])->0.len() && variant_key(
                                #[trigger] media_lookup(p, t[a])->0[b],
                            ) == key;
                        if a < i {
                            assert(s[a] == t[a]);
                            assert(version_keys(p, s).contains(key));
                        } else {
                            let k = found.unwrap();
                            assert(keys_of(p[k as int].variants@)[b] == key);
                            assert(keys_of(p[k as int].variants@).to_set().contains(key));
                        }
                    }
                }
                assert forall|key: VariantKey|
                    keys_of(out@).to_set().contains(key) ==> version_keys(p, t).contains(key) by {
                    if keys_of(out@).to_set().contains(key) {
                        if before.contains(key) {
                            let (a, b) = choose|a: int, b: int|
                                0 <= a < s.len() && #[trigger] media_lookup(p, s[a]) is Some && 0 <= b
                                    < media_lookup(p, s[a])->0.len() && variant_key(
                                    #[trigger] media_lookup(p, s[a])->0[b],
                                ) == key;
                            assert(t[a] == s[a]);
                            assert(media_lookup(p, t[a]) is Some);
                        } else {
                            let k = found.unwrap();
                            let vs = p[k as int].variants@;
                            assert(keys_of(vs).to_set().contains(key));
                            let b = choose|b: int| 0 <= b < keys_of(vs).len() && keys_of(vs)[b] == key;
                            assert(media_lookup(p, t[i as int]) == Some(vs));
                            assert(variant_key(media_lookup(p, t[i as int])->0[b]) == key);
                        }
                    }
                }
                assert(keys_of(out@).to_set() =~= version_keys(p, t));
            }
            i = i + 1;
        }
        proof {
            assert(ids_view.take(i as int) =~= ids_view);
        }
    }
    proof {
        if version_ids is None {
            assert(version_keys(physical@, Seq::empty()) =~= Set::empty());
        }
    }
    if out.len() == 0 {
        proof {
            assert(keys_of(out@).to_set() =~= Set::empty());
        }
        match find_media(physical, album_id) {
            Some(k) => add_all(&mut out, &physical[k].variants),
            None => add_all(&mut out, own),
        }
        proof {
            assert(Set::<VariantKey>::empty().union(keys_of(own@).to_set()) =~= keys_of(own@).to_set());
            match media_lookup(physical@, album_id@) {
                Some(vs) => {
                    assert(Set::<VariantKey>::empty().union(keys_of(vs).to_set()) =~= keys_of(vs).to_set());
                },
                None => {},
            }
        }
    } else {
        proof {
            assert(keys_of(out@).to_set().contains(keys_of(out@)[0]));
        }
    }
    out
}


/// The source word of a catalog album: its raw source unless that is blank,
/// else the word of its source kind.
pub fn source_raw_or_kind<'a>(source_raw: &'a str, kind_word: &'a str) -> (r: &'a str)
    ensures
        r@ == (if trim(source_raw@).len() == 0 {
            kind_word@
        } else {
            source_raw@
        }),
{
    if trimmed_chars(source_raw).len() == 0 {
        kind_word
    } else {
        source_raw
    }
}

/// The source a variant of a catalog album names: the `i`th of its sources,
/// or, when it lists none, its raw badge unless that is empty, else its badge.
pub open spec fn catalog_variant_source(sources: Seq<String>, source: Seq<char>, source_raw: Seq<char>, i: int) -> Seq<char> {
    if sources.len() == 0 {
        if source_raw.len() == 0 {
            source
        } else {
            source_raw
        }
    } else {
        sources[i]@
    }
}

/// The media variants of a catalog album card: one per source
/// it comes from, or one for its own badge when it lists none, each with the
/// album's quality tier and its format in upper case.
pub fn catalog_media_variants(
    sources: &Vec<String>,
    source: &str,
    source_raw: &str,
    quality_tier: &str,
    format: &str,
) -> (r: Vec<MediaVariant>)
    ensures
        r@.len() == (if sources@.len() == 0 {
            1
        } else {
            sources@.len()
        }),
        forall|i: int|
            0 <= i < r@.len() ==> {
                &&& (#[trigger] r@[i]).quality_tier@ == quality_tier@
                &&& r@[i].format@ == ascii_upper_seq(format@)
                &&& r@[i].source@ == catalog_variant_source(sources@, source@, source_raw@, i)
            },
{
    let upper = str_to_ascii_upper(format);
    let mut out: Vec<MediaVariant> = Vec::new();
    if sources.len() == 0 {
        let own = if str_is_empty(source_raw) {
            source.to_string()
        } else {
            source_raw.to_string()
        };
        out.push(MediaVariant { quality_tier: quality_tier.to_string(), format: upper, source: own });
        return out;
    }
    let mut i: usize = 0;
    while i < sources.len()
        invariant
            0 <= i <= sources@.len(),
            out@.len() == i,
            upper@ == ascii_upper_seq(format@),
            forall|k: int|
                0 <= k < i ==> {
                    &&& (#[trigger] out@[k]).quality_tier@ == quality_tier@
                    &&& out@[k].format@ == ascii_upper_seq(format@)
                    &&& out@[k].source@ == sources@[k]@
                },
        decreases sources@.len() - i,
    {
        out.push(MediaVariant {
            quality_tier: quality_tier.to_string(),
            format: upper.clone(),
            source: sources[i].clone(),
        });
        i = i + 1;
    }
    out
}

} // verus!
