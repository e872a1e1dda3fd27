//! Looking up an artist portrait remotely, as a sequence of steps: the
//! catalog search under the artist's own name, Last.fm, MusicBrainz for the
//! canonical spelling, the catalog search again under that spelling, then
//! Discogs. Each step's answer decides the next. Names are compared by their
//! artist keys (`name_key`; a Discogs title by `normalize_discogs_artist`),
//! which the constructors below compute.
use vstd::prelude::*;
use crate::local_names::{
    name_key, normalize_discogs_artist, spec_discogs_key, spec_name_key, spec_useful_url, useful_url,
};
use crate::text::str_equals;

verus! {

/// A portrait found, with the provider that serves it and the artist's
/// spelling there.
#[derive(Debug, PartialEq, Eq)]
pub struct PortraitFound {
    pub url: String,
    pub source: String,
    pub canonical_name: String,
}

/// The next thing the lookup needs done.
#[derive(Debug, PartialEq, Eq)]
pub enum ResolveStep {
    /// Search the catalog's artists for `query`; answer with `on_qobuz`.
    SearchQobuz { query: String },
    /// Look the artist up on Last.fm under its own name; answer with
    /// `on_lastfm`.
    LastFm,
    /// Resolve the artist on MusicBrainz under its own name; answer with
    /// `on_musicbrainz` (nothing when MusicBrainz is off).
    MusicBrainz,
    /// Search Discogs for `query`; answer with `on_discogs`.
    Discogs { query: String },
    Found(PortraitFound),
    NotFound,
}

/// A catalog search hit: the artist's name, its key, and its 150 px image.
pub struct QobuzHit {
    pub name: String,
    pub key: String,
    pub image: Option<String>,
}

/// What Last.fm knows of the artist.
pub struct LastFmHit {
    pub name: String,
    pub key: String,
    pub has_mbid: bool,
    pub image: Option<String>,
}

/// What MusicBrainz resolved: the name, its key, and whether the match is
/// exact, high or medium confidence.
pub struct MusicBrainzHit {
    pub name: String,
    pub key: String,
    pub confident: bool,
}

/// A Discogs search hit: its result type, the key of its title (without a
/// numeric disambiguation), its cover and its thumbnail.
pub struct DiscogsHit {
    pub result_type: String,
    pub title_key: String,
    pub cover: Option<String>,
    pub thumb: Option<String>,
}

#[derive(Clone, Copy, Debug, PartialEq, Eq, Structural)]
pub enum ResolvePhase {
    FirstSearch,
    LastFm,
    MusicBrainz,
    SecondSearch,
    Discogs,
    Done,
}

/// The order of the phases: every answer moves the lookup strictly
/// forward, so it ends after at most five answers.
pub open spec fn phase_rank(p: ResolvePhase) -> int {
    match p {
        ResolvePhase::FirstSearch => 0,
        ResolvePhase::LastFm => 1,
        ResolvePhase::MusicBrainz => 2,
        ResolvePhase::SecondSearch => 3,
        ResolvePhase::Discogs => 4,
        ResolvePhase::Done => 5,
    }
}

/// The lookup of one artist.
pub struct PortraitLookup {
    pub phase: ResolvePhase,
    pub name: String,
    pub original_key: String,
    pub canonical_name: String,
    pub canonical_key: String,
    pub has_mbid: bool,
}

/// The first hit whose key is `key`, by position, or -1.
pub open spec fn first_hit(hits: Seq<QobuzHit>, key: Seq<char>) -> int
    decreases hits.len(),
{
    if hits.len() == 0 {
        -1
    } else {
        let k = first_hit(hits.drop_last(), key);
        if k >= 0 {
            k
        } else if hits.last().key@ == key {
            hits.len() - 1
        } else {
            -1
        }
    }
}

/// The first Discogs artist whose title key is `key`, by position, or -1.
pub open spec fn first_discogs(hits: Seq<DiscogsHit>, key: Seq<char>) -> int
    decreases hits.len(),
{
    if hits.len() == 0 {
        -1
    } else {
        let k = first_discogs(hits.drop_last(), key);
        if k >= 0 {
            k
        } else if hits.last().result_type@ == "artist"@ && hits.last().title_key@ == key {
            hits.len() - 1
        } else {
            -1
        }
    }
}

pub open spec fn useful(o: Option<String>) -> bool {
    o matches Some(u) && spec_useful_url(u@)
}

proof fn lemma_first_hit_prefix(hits: Seq<QobuzHit>, key: Seq<char>, n: int)
    requires
        0 <= n <= hits.len(),
        first_hit(hits.take(n), key) >= 0,
    ensures
        first_hit(hits, key) == first_hit(hits.take(n), key),
    decreases hits.len() - n,
{
    if n < hits.len() {
        assert(hits.take(n + 1).drop_last() =~= hits.take(n));
        lemma_first_hit_prefix(hits, key, n + 1);
    } else {
        assert(hits.take(n) =~= hits);
    }
}

proof fn lemma_first_hit_bounds(hits: Seq<QobuzHit>, key: Seq<char>)
    ensures
        -1 <= first_hit(hits, key) < hits.len(),
        first_hit(hits, key) >= 0 ==> hits[first_hit(hits, key)].key@ == key,
    decreases hits.len(),
{
    if hits.len() > 0 {
        lemma_first_hit_bounds(hits.drop_last(), key);
    }
}

proof fn lemma_first_discogs_prefix(hits: Seq<DiscogsHit>, key: Seq<char>, n: int)
    requires
        0 <= n <= hits.len(),
        first_discogs(hits.take(n), key) >= 0,
    ensures
        first_discogs(hits, key) == first_discogs(hits.take(n), key),
    decreases hits.len() - n,
{
    if n < hits.len() {
        assert(hits.take(n + 1).drop_last() =~= hits.take(n));
        lemma_first_discogs_prefix(hits, key, n + 1);
    } else {
        assert(hits.take(n) =~= hits);
    }
}

fn find_hit(hits: &Vec<QobuzHit>, key: &str) -> (r: Option<usize>)
    ensures
        match r {
            Some(i) => i as int == first_hit(hits@, key@) && i < hits@.len(),
            None => first_hit(hits@, key@) == -1,
        },
{
    let mut i: usize = 0;
    while i < hits.len()
        invariant
            0 <= i <= hits@.len(),
            first_hit(hits@.take(i as int), key@) == -1,
        decreases hits@.len() - i,
    {
        proof {
            assert(hits@.take(i + 1).drop_last() =~= hits@.take(i as int));
        }
        if str_equals(hits[i].key.as_str(), key) {
            proof {
                lemma_first_hit_prefix(hits@, key@, i + 1);
            }
            return Some(i);
        }
        i = i + 1;
    }
    proof {
        assert(hits@.take(i as int) =~= hits@);
    }
    None
}

fn find_discogs(hits: &Vec<DiscogsHit>, key: &str) -> (r: Option<usize>)
    ensures
        match r {
            Some(i) => i as int == first_discogs(hits@, key@) && i < hits@.len(),
            None => first_discogs(hits@, key@) == -1,
        },
{
    let mut i: usize = 0;
    while i < hits.len()
        invariant
            0 <= i <= hits@.len(),
            first_discogs(hits@.take(i as int), key@) == -1,
        decreases hits@.len() - i,
    {
        proof {
            assert(hits@.take(i + 1).drop_last() =~= hits@.take(i as int));
        }
        if str_equals(hits[i].result_type.as_str(), "artist") && str_equals(hits[i].title_key.as_str(), key) {
            proof {
                lemma_first_discogs_prefix(hits@, key@, i + 1);
            }
            return Some(i);
        }
        i = i + 1;
    }
    proof {
        assert(hits@.take(i as int) =~= hits@);
    }
    None
}

fn usable(o: &Option<String>) -> (r: bool)
    ensures
        r == useful(*o),
{
    match o {
        Some(u) => useful_url(u.as_str()),
        None => false,
    }
}

impl QobuzHit {
    /// A catalog hit, keyed by the artist key of its name.
    pub fn new(name: String, image: Option<String>) -> (r: QobuzHit)
        ensures
            r.name == name,
            r.key@ == spec_name_key(name@),
            r.image == image,
    {
        let key = name_key(name.as_str());
        QobuzHit { name, key, image }
    }
}

impl LastFmHit {
    /// What Last.fm answered, keyed by the artist key of its name.
    pub fn new(name: String, has_mbid: bool, image: Option<String>) -> (r: LastFmHit)
        ensures
            r.name == name,
            r.key@ == spec_name_key(name@),
            r.has_mbid == has_mbid,
            r.image == image,
    {
        let key = name_key(name.as_str());
        LastFmHit { name, key, has_mbid, image }
    }
}

impl MusicBrainzHit {
    /// What MusicBrainz resolved, keyed by the artist key of its name.
    pub fn new(name: String, confident: bool) -> (r: MusicBrainzHit)
        ensures
            r.name == name,
            r.key@ == spec_name_key(name@),
            r.confident == confident,
    {
        let key = name_key(name.as_str());
        MusicBrainzHit { name, key, confident }
    }
}

impl DiscogsHit {
    /// A Discogs hit, keyed by its title without a numeric disambiguation.
    pub fn new(result_type: String, title: &str, cover: Option<String>, thumb: Option<String>) -> (r: DiscogsHit)
        ensures
            r.result_type == result_type,
            r.title_key@ == spec_discogs_key(title@),
            r.cover == cover,
            r.thumb == thumb,
    {
        let title_key = normalize_discogs_artist(title);
        DiscogsHit { result_type, title_key, cover, thumb }
    }
}

impl PortraitLookup {
    /// A lookup for the artist `name`, keyed by its artist key: the catalog
    /// is searched under the name first.
    pub fn begin(name: String) -> (r: (PortraitLookup, ResolveStep))
        ensures
            r.0.phase == ResolvePhase::FirstSearch,
            r.0.name == name,
            r.0.original_key@ == spec_name_key(name@),
            r.0.canonical_name == name,
            r.0.canonical_key@ == spec_name_key(name@),
            !r.0.has_mbid,
            r.1 == (ResolveStep::SearchQobuz { query: name }),
    {
        let key = name_key(name.as_str());
        PortraitLookup::start(name, key)
    }

    /// A lookup for the artist `name`, whose key is `key`: the catalog is
    /// searched under the name first.
    pub fn start(name: String, key: String) -> (r: (PortraitLookup, ResolveStep))
        ensures
            r.0.phase == ResolvePhase::FirstSearch,
            r.0.name == name,
            r.0.original_key == key,
            r.0.canonical_name == name,
            r.0.canonical_key == key,
            !r.0.has_mbid,
            r.1 == (ResolveStep::SearchQobuz { query: name }),
    {
        let query = name.clone();
        let lookup = PortraitLookup {
            phase: ResolvePhase::FirstSearch,
            canonical_name: name.clone(),
            name,
            canonical_key: key.clone(),
            original_key: key,
            has_mbid: false,
        };
        (lookup, ResolveStep::SearchQobuz { query })
    }

    /// What follows once no catalog or Last.fm portrait was taken: the
    /// catalog again under a different canonical spelling, else Discogs.
    fn after_identity(&mut self) -> (r: ResolveStep)
        ensures
            final(self).name == old(self).name,
            final(self).original_key == old(self).original_key,
            final(self).canonical_name == old(self).canonical_name,
            final(self).canonical_key == old(self).canonical_key,
            final(self).has_mbid == old(self).has_mbid,
            old(self).canonical_name@ != old(self).name@ ==> final(self).phase == ResolvePhase::SecondSearch
                && r == (ResolveStep::SearchQobuz { query: old(self).canonical_name }),
            old(self).canonical_name@ == old(self).name@ ==> final(self).phase == ResolvePhase::Discogs
                && r == (ResolveStep::Discogs { query: old(self).canonical_name }),
    {
        if !str_equals(self.canonical_name.as_str(), self.name.as_str()) {
            self.phase = ResolvePhase::SecondSearch;
            ResolveStep::SearchQobuz { query: self.canonical_name.clone() }
        } else {
            self.phase = ResolvePhase::Discogs;
            ResolveStep::Discogs { query: self.canonical_name.clone() }
        }
    }

    /// The catalog's artists for the last search. The first one of the
    /// searched key decides: its image, when usable, is the portrait;
    /// otherwise the first search goes on to Last.fm and the second to
    /// Discogs.
    pub fn on_qobuz(&mut self, hits: &Vec<QobuzHit>) -> (r: ResolveStep)
        requires
            old(self).phase == ResolvePhase::FirstSearch || old(self).phase == ResolvePhase::SecondSearch,
        ensures
            phase_rank(final(self).phase) > phase_rank(old(self).phase),
            ({
                let key = if old(self).phase == ResolvePhase::FirstSearch {
                    old(self).original_key@
                } else {
                    old(self).canonical_key@
                };
                let k = first_hit(hits@, key);
                &&& k >= 0 && useful(hits@[k].image) ==> final(self).phase == ResolvePhase::Done && r
                    is Found && r->Found_0.url == hits@[k].image->0 && r->Found_0.source@ == "qobuz"@
                    && r->Found_0.canonical_name == hits@[k].name
                &&& !(k >= 0 && useful(hits@[k].image)) && old(self).phase == ResolvePhase::FirstSearch
                    ==> final(self).phase == ResolvePhase::LastFm && r == ResolveStep::LastFm
                &&& !(k >= 0 && useful(hits@[k].image)) && old(self).phase == ResolvePhase::SecondSearch
                    ==> final(self).phase == ResolvePhase::Discogs && r == (ResolveStep::Discogs {
                    query: old(self).canonical_name,
                })
            }),
            final(self).name == old(self).name,
            final(self).original_key == old(self).original_key,
            final(self).canonical_name == old(self).canonical_name,
            final(self).canonical_key == old(self).canonical_key,
            final(self).has_mbid == old(self).has_mbid,
    {
        let first = self.phase == ResolvePhase::FirstSearch;
        let hit = if first {
            find_hit(hits, self.original_key.as_str())
        } else {
            find_hit(hits, self.canonical_key.as_str())
        };
        if let Some(i) = hit {
            if usable(&hits[i].image) {
                let url = match &hits[i].image {
                    Some(u) => u.clone(),
                    None => String::new(),
                };
                self.phase = ResolvePhase::Done;
                return ResolveStep::Found(
                    PortraitFound { url, source: "qobuz".to_string(), canonical_name: hits[i].name.clone() },
                );
            }
        }
        if first {
            self.phase = ResolvePhase::LastFm;
            ResolveStep::LastFm
        } else {
            self.phase = ResolvePhase::Discogs;
            ResolveStep::Discogs { query: self.canonical_name.clone() }
        }
    }

    /// Last.fm's answer. When it names the same artist, its spelling and
    /// MusicBrainz id become the canonical ones, and its usable image is the
    /// portrait. Without an id MusicBrainz is asked next.
    pub fn on_lastfm(&mut self, hit: Option<LastFmHit>) -> (r: ResolveStep)
        requires
            old(self).phase == ResolvePhase::LastFm,
        ensures
            phase_rank(final(self).phase) > phase_rank(old(self).phase),
            ({
                let same = hit matches Some(h) && h.key@ == old(self).original_key@;
                &&& same ==> final(self).canonical_name == hit->0.name && final(self).canonical_key
                    == hit->0.key && final(self).has_mbid == hit->0.has_mbid
                &&& !same ==> final(self).canonical_name == old(self).canonical_name
                    && final(self).canonical_key == old(self).canonical_key && final(self).has_mbid
                    == old(self).has_mbid
                &&& same && useful(hit->0.image) ==> final(self).phase == ResolvePhase::Done && r
                    is Found && r->Found_0.url == hit->0.image->0 && r->Found_0.source@ == "lastfm"@
                    && r->Found_0.canonical_name == hit->0.name
                &&& !(same && useful(hit->0.image)) && !final(self).has_mbid ==> final(self).phase
                    == ResolvePhase::MusicBrainz && r == ResolveStep::MusicBrainz
                &&& !(same && useful(hit->0.image)) && final(self).has_mbid ==> (
                final(self).canonical_name@ != old(self).name@ ==> final(self).phase
                    == ResolvePhase::SecondSearch && r == (ResolveStep::SearchQobuz {
                    query: final(self).canonical_name,
                })) && (final(self).canonical_name@ == old(self).name@ ==> final(self).phase
                    == ResolvePhase::Discogs && r == (ResolveStep::Discogs {
                    query: final(self).canonical_name,
                }))
            }),
            final(self).name == old(self).name,
            final(self).original_key == old(self).original_key,
    {
        if let Some(h) = hit {
            if str_equals(h.key.as_str(), self.original_key.as_str()) {
                let good = usable(&h.image);
                self.canonical_name = h.name;
                self.canonical_key = h.key;
                self.has_mbid = h.has_mbid;
                if good {
                    let url = match h.image {
                        Some(u) => u,
                        None => String::new(),
                    };
                    self.phase = ResolvePhase::Done;
                    return ResolveStep::Found(
                        PortraitFound {
                            url,
                            source: "lastfm".to_string(),
                            canonical_name: self.canonical_name.clone(),
                        },
                    );
                }
            }
        }
        if !self.has_mbid {
            self.phase = ResolvePhase::MusicBrainz;
            return ResolveStep::MusicBrainz;
        }
        self.after_identity()
    }

    /// MusicBrainz's answer (none when it is off or found nothing): a
    /// confident match of the same artist gives the canonical spelling.
    pub fn on_musicbrainz(&mut self, hit: Option<MusicBrainzHit>) -> (r: ResolveStep)
        requires
            old(self).phase == ResolvePhase::MusicBrainz,
        ensures
            phase_rank(final(self).phase) > phase_rank(old(self).phase),
            ({
                let taken = hit matches Some(h) && h.confident && h.key@ == old(self).original_key@;
                &&& taken ==> final(self).canonical_name == hit->0.name && final(self).canonical_key
                    == hit->0.key && final(self).has_mbid
                &&& !taken ==> final(self).canonical_name == old(self).canonical_name
                    && final(self).canonical_key == old(self).canonical_key && final(self).has_mbid
                    == old(self).has_mbid
                &&& final(self).canonical_name@ != old(self).name@ ==> final(self).phase
                    == ResolvePhase::SecondSearch && r == (ResolveStep::SearchQobuz {
                    query: final(self).canonical_name,
                })
                &&& final(self).canonical_name@ == old(self).name@ ==> final(self).phase
                    == ResolvePhase::Discogs && r == (ResolveStep::Discogs { query: final(self).canonical_name })
            }),
            final(self).name == old(self).name,
            final(self).original_key == old(self).original_key,
    {
        if let Some(h) = hit {
            if h.confident && str_equals(h.key.as_str(), self.original_key.as_str()) {
                self.canonical_name = h.name;
                self.canonical_key = h.key;
                self.has_mbid = true;
            }
        }
        self.after_identity()
    }

    /// Discogs' answer: the first artist of the canonical key gives its
    /// cover, or, without a cover, its thumbnail, when usable; otherwise no
    /// portrait is found.
    pub fn on_discogs(&mut self, hits: &Vec<DiscogsHit>) -> (r: ResolveStep)
        requires
            old(self).phase == ResolvePhase::Discogs,
        ensures
            phase_rank(final(self).phase) > phase_rank(old(self).phase),
            final(self).phase == ResolvePhase::Done,
            ({
                let k = first_discogs(hits@, old(self).canonical_key@);
                let image = if k >= 0 {
                    if hits@[k].cover is Some {
                        hits@[k].cover
                    } else {
                        hits@[k].thumb
                    }
                } else {
                    None
                };
                &&& useful(image) ==> r is Found && r->Found_0.url == image->0 && r->Found_0.source@
                    == "discogs"@ && r->Found_0.canonical_name == old(self).canonical_name
                &&& !useful(image) ==> r == ResolveStep::NotFound
            }),
            final(self).name == old(self).name,
            final(self).canonical_name == old(self).canonical_name,
            final(self).canonical_key == old(self).canonical_key,
    {
        self.phase = ResolvePhase::Done;
        match find_discogs(hits, self.canonical_key.as_str()) {
            Some(i) => {
                let image = if hits[i].cover.is_some() {
                    &hits[i].cover
                } else {
                    &hits[i].thumb
                };
                if usable(image) {
                    let url = match image {
                        Some(u) => u.clone(),
                        None => String::new(),
                    };
                    ResolveStep::Found(
                        PortraitFound {
                            url,
                            source: "discogs".to_string(),
                            canonical_name: self.canonical_name.clone(),
                        },
                    )
                } else {
                    ResolveStep::NotFound
                }
            },
            None => ResolveStep::NotFound,
        }
    }
}

} // verus!
