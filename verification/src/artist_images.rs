//! The artist portraits of the Local Library's Artists tab: the portraits
//! already cached for the profile, the rows registered for a possible
//! remote lookup, and which of the rows on screen to look up, each artist
//! at most once per profile.
use vstd::prelude::*;
use crate::text::{str_equals, str_is_empty, trim, trimmed_chars};

verus! {

/// At most this many artists are looked up remotely per run of the program.
pub const MAX_REMOTE_ARTISTS_PER_PROCESS: usize = 50;

/// A lookup that found nothing is not repeated for a week.
pub const NEGATIVE_TTL_SECS: i64 = 604800;

/// The pause between two remote lookups, in milliseconds.
pub const BETWEEN_ARTISTS_MS: u64 = 1200;

/// An artist row that may get a portrait: its row key, its name, the name's
/// normalized form, and whether a remote lookup is wanted (no cached
/// portrait and no album or server image to fall back on).
pub struct ImageCandidate {
    pub key: String,
    pub name: String,
    pub normalized: String,
    pub needs_remote: bool,
}

impl ImageCandidate {
    pub fn duplicate(&self) -> (r: ImageCandidate)
        ensures
            r == *self,
    {
        ImageCandidate {
            key: self.key.clone(),
            name: self.name.clone(),
            normalized: self.normalized.clone(),
            needs_remote: self.needs_remote,
        }
    }
}

/// The portraits of one profile and the rows registered under it.
pub struct ArtistImageRegistry {
    pub profile: Option<String>,
    /// Cached portraits: normalized artist name and path; a later entry for
    /// the same name wins.
    pub images: Vec<(String, String)>,
    /// The registered rows; a later registration of the same key replaces
    /// the earlier one.
    pub candidates: Vec<ImageCandidate>,
    /// The (profile, normalized name) pairs already looked up.
    pub attempted: Vec<(String, String)>,
}

/// The cached portrait of a normalized name: the last entry for it.
pub open spec fn image_for(images: Seq<(String, String)>, name: Seq<char>) -> Option<Seq<char>>
    decreases images.len(),
{
    if images.len() == 0 {
        None
    } else if images.last().0@ == name {
        Some(images.last().1@)
    } else {
        image_for(images.drop_last(), name)
    }
}

/// The registered row of key `key`: the last one registered.
pub open spec fn candidate_for(s: Seq<ImageCandidate>, key: Seq<char>) -> Option<ImageCandidate>
    decreases s.len(),
{
    if s.len() == 0 {
        None
    } else if s.last().key@ == key {
        Some(s.last())
    } else {
        candidate_for(s.drop_last(), key)
    }
}

pub open spec fn pair_view(p: (String, String)) -> (Seq<char>, Seq<char>) {
    (p.0@, p.1@)
}

pub open spec fn attempted_set(s: Seq<(String, String)>) -> Set<(Seq<char>, Seq<char>)> {
    s.map_values(|p: (String, String)| pair_view(p)).to_set()
}

/// A cached portrait is kept when its normalized name is not empty and its
/// path is not blank.
pub open spec fn image_kept(p: (String, String)) -> bool {
    p.0@.len() > 0 && trim(p.1@).len() > 0
}

pub open spec fn kept_images(s: Seq<(String, String)>) -> Seq<(String, String)>
    decreases s.len(),
{
    if s.len() == 0 {
        Seq::empty()
    } else if image_kept(s.last()) {
        kept_images(s.drop_last()).push(s.last())
    } else {
        kept_images(s.drop_last())
    }
}

/// The rows of `keys` to look up, in order, and the pairs looked up after
/// them: a row is looked up when it is registered, wants a remote lookup,
/// is not "various artists", and its artist was not looked up yet under the
/// profile.
pub open spec fn visible_lookups(
    cands: Seq<ImageCandidate>,
    attempted: Set<(Seq<char>, Seq<char>)>,
    profile: Seq<char>,
    keys: Seq<String>,
) -> (Seq<ImageCandidate>, Set<(Seq<char>, Seq<char>)>)
    decreases keys.len(),
{
    if keys.len() == 0 {
        (Seq::empty(), attempted)
    } else {
        let (out, att) = visible_lookups(cands, attempted, profile, keys.drop_last());
        match candidate_for(cands, keys.last()@) {
            Some(c) => if c.needs_remote && c.normalized@ != "various artists"@ && !att.contains(
                (profile, c.normalized@),
            ) {
                (out.push(c), att.insert((profile, c.normalized@)))
            } else {
                (out, att)
            },
            None => (out, att),
        }
    }
}

proof fn lemma_candidate_for_update(s: Seq<ImageCandidate>, i: int, c: ImageCandidate, k: Seq<char>)
    requires
        0 <= i < s.len(),
        s[i].key@ == c.key@,
        forall|j: int| i < j < s.len() ==> (#[trigger] s[j]).key@ != c.key@,
    ensures
        candidate_for(s.update(i, c), k) == if k == c.key@ {
            Some(c)
        } else {
            candidate_for(s, k)
        },
    decreases s.len(),
{
    let t = s.update(i, c);
    if i == s.len() - 1 {
        assert(t.drop_last() =~= s.drop_last());
    } else {
        assert(t.drop_last() =~= s.drop_last().update(i, c));
        assert(t.last() == s.last());
        lemma_candidate_for_update(s.drop_last(), i, c, k);
    }
}

proof fn lemma_image_for_none_without_match(images: Seq<(String, String)>, name: Seq<char>)
    requires
        forall|j: int| 0 <= j < images.len() ==> (#[trigger] images[j]).0@ != name,
    ensures
        image_for(images, name) is None,
    decreases images.len(),
{
    if images.len() > 0 {
        lemma_image_for_none_without_match(images.drop_last(), name);
    }
}

impl ArtistImageRegistry {
    pub fn new() -> (r: ArtistImageRegistry)
        ensures
            r.profile is None,
            r.images@.len() == 0,
            r.candidates@.len() == 0,
            r.attempted@.len() == 0,
    {
        ArtistImageRegistry { profile: None, images: Vec::new(), candidates: Vec::new(), attempted: Vec::new() }
    }

    /// Whether registering under `profile` first needs that profile's cached
    /// portraits: it is not the profile the registry holds.
    pub fn needs_images(&self, profile: &str) -> (r: bool)
        ensures
            r == !(self.profile matches Some(p) && p@ == profile@),
    {
        match &self.profile {
            Some(p) => !str_equals(p.as_str(), profile),
            None => true,
        }
    }

    /// The registry moves to `profile` with its cached portraits (named by
    /// normalized name): those with a name and a path are kept, and the rows
    /// registered under the previous profile are forgotten.
    pub fn switch_profile(&mut self, profile: String, images: Vec<(String, String)>)
        ensures
            final(self).profile == Some(profile),
            final(self).images@ == kept_images(images@),
            final(self).candidates@.len() == 0,
            final(self).attempted@ == old(self).attempted@,
    {
        let mut kept: Vec<(String, String)> = Vec::new();
        let rest = images;
        let ghost all = rest@;
        let mut i: usize = 0;
        let n = rest.len();
        while i < n
            invariant
                0 <= i <= n,
                n == all.len(),
                rest@ == all,
                kept@ == kept_images(all.take(i as int)),
            decreases n - i,
        {
            let keep = !str_is_empty(rest[i].0.as_str()) && trimmed_chars(rest[i].1.as_str()).len() > 0;
            proof {
                assert(all.take(i + 1).drop_last() =~= all.take(i as int));
                assert(all.take(i + 1).last() == all[i as int]);
            }
            if keep {
                let p = (rest[i].0.clone(), rest[i].1.clone());
                kept.push(p);
            }
            i = i + 1;
        }
        proof {
            assert(all.take(n as int) =~= all);
        }
        self.profile = Some(profile);
        self.images = kept;
        self.candidates = Vec::new();
    }

    fn cached_image(&self, normalized: &str) -> (r: Option<String>)
        ensures
            match r {
                Some(p) => image_for(self.images@, normalized@) == Some(p@),
                None => image_for(self.images@, normalized@) is None,
            },
    {
        let mut j: usize = self.images.len();
        proof {
            assert(self.images@.take(j as int) =~= self.images@);
        }
        while j > 0
            invariant
                0 <= j <= self.images@.len(),
                image_for(self.images@, normalized@) == image_for(self.images@.take(j as int), normalized@),
            decreases j,
        {
            proof {
                assert(self.images@.take(j as int).drop_last() =~= self.images@.take(j - 1));
                assert(self.images@.take(j as int).last() == self.images@[j - 1]);
            }
            if str_equals(self.images[j - 1].0.as_str(), normalized) {
                return Some(self.images[j - 1].1.clone());
            }
            j = j - 1;
        }
        proof {
            assert(self.images@.take(0) =~= Seq::<(String, String)>::empty());
        }
        None
    }

    /// The last registered row of key `key`, by position.
    fn last_candidate(&self, key: &str) -> (r: Option<usize>)
        ensures
            match r {
                Some(i) => i < self.candidates@.len() && self.candidates@[i as int].key@ == key@ && forall|j: int|
                    i < j < self.candidates@.len() ==> (#[trigger] self.candidates@[j]).key@ != key@,
                None => candidate_for(self.candidates@, key@) is None,
            },
    {
        let ghost s = self.candidates@;
        let mut j: usize = self.candidates.len();
        proof {
            assert(s.take(j as int) =~= s);
        }
        while j > 0
            invariant
                0 <= j <= s.len(),
                s == self.candidates@,
                forall|k: int| j <= k < s.len() ==> (#[trigger] s[k]).key@ != key@,
                candidate_for(s, key@) == candidate_for(s.take(j as int), key@),
            decreases j,
        {
            proof {
                assert(s.take(j as int).drop_last() =~= s.take(j - 1));
                assert(s.take(j as int).last() == s[j - 1]);
            }
            if str_equals(self.candidates[j - 1].key.as_str(), key) {
                return Some(j - 1);
            }
            j = j - 1;
        }
        proof {
            assert(s.take(0) =~= Seq::<ImageCandidate>::empty());
        }
        None
    }

    /// Registers artist row `key` named `name`, whose name
    /// normalizes to `normalized`; `has_fallback` when the row already shows
    /// an album or server image. Returns the cached portrait of the name, if
    /// any. The row wants a remote lookup only without either. A row without
    /// a key or a name, or a registry without a profile, registers nothing.
    pub fn register(&mut self, key: String, name: String, normalized: String, has_fallback: bool) -> (r: Option<String>)
        ensures
            old(self).profile is None || key@.len() == 0 || normalized@.len() == 0 ==> r is None
                && final(self).candidates@ == old(self).candidates@,
            !(old(self).profile is None || key@.len() == 0 || normalized@.len() == 0) ==> {
                &&& match r {
                    Some(p) => image_for(old(self).images@, normalized@) == Some(p@),
                    None => image_for(old(self).images@, normalized@) is None,
                }
                &&& forall|k: Seq<char>| #[trigger] candidate_for(final(self).candidates@, k) == if k == key@ {
                    Some(ImageCandidate { key, name, normalized, needs_remote: r is None && !has_fallback })
                } else {
                    candidate_for(old(self).candidates@, k)
                }
            },
            final(self).profile == old(self).profile,
            final(self).images@ == old(self).images@,
            final(self).attempted@ == old(self).attempted@,
    {
        if self.profile.is_none() || str_is_empty(key.as_str()) || str_is_empty(normalized.as_str()) {
            return None;
        }
        let cached = self.cached_image(normalized.as_str());
        let needs_remote = cached.is_none() && !has_fallback;
        let ghost s = self.candidates@;
        let found = self.last_candidate(key.as_str());
        let c = ImageCandidate { key, name, normalized, needs_remote };
        let ghost cv = c;
        match found {
            Some(i) => {
                self.candidates.set(i, c);
                proof {
                    assert forall|k: Seq<char>| #[trigger] candidate_for(self.candidates@, k) == if k == cv.key@ {
                        Some(cv)
                    } else {
                        candidate_for(s, k)
                    } by {
                        lemma_candidate_for_update(s, i as int, cv, k);
                    }
                }
            },
            None => {
                self.candidates.push(c);
                proof {
                    assert(self.candidates@.drop_last() =~= s);
                }
            },
        }
        cached
    }

    fn was_attempted(&self, profile: &str, normalized: &str) -> (r: bool)
        ensures
            r == attempted_set(self.attempted@).contains((profile@, normalized@)),
    {
        let ghost v = self.attempted@.map_values(|p: (String, String)| pair_view(p));
        let mut j: usize = 0;
        while j < self.attempted.len()
            invariant
                0 <= j <= self.attempted@.len(),
                v == self.attempted@.map_values(|p: (String, String)| pair_view(p)),
                forall|k: int| 0 <= k < j ==> (#[trigger] v[k]) != (profile@, normalized@),
            decreases self.attempted@.len() - j,
        {
            if str_equals(self.attempted[j].0.as_str(), profile) && str_equals(
                self.attempted[j].1.as_str(),
                normalized,
            ) {
                proof {
                    assert(v[j as int] == (profile@, normalized@));
                    assert(v.contains((profile@, normalized@)));
                }
                return true;
            }
            j = j + 1;
        }
        false
    }

    /// The rows of the keys on screen to look up remotely
    ///, in order; each is marked as looked up, so no
    /// artist is looked up twice under a profile. Nothing is looked up while
    /// network folders are excluded, or without a profile.
    pub fn request_visible(&mut self, keys: &Vec<String>, offline: bool) -> (r: Vec<ImageCandidate>)
        ensures
            offline || old(self).profile is None ==> r@.len() == 0 && final(self).attempted@ == old(self).attempted@,
            !offline && old(self).profile is Some ==> {
                let (sent, att) = visible_lookups(
                    old(self).candidates@,
                    attempted_set(old(self).attempted@),
                    old(self).profile->0@,
                    keys@,
                );
                &&& r@ == sent
                &&& attempted_set(final(self).attempted@) == att
            },
            final(self).profile == old(self).profile,
            final(self).images@ == old(self).images@,
            final(self).candidates@ == old(self).candidates@,
    {
        let mut out: Vec<ImageCandidate> = Vec::new();
        if offline {
            return out;
        }
        let profile = match &self.profile {
            Some(p) => p.clone(),
            None => return out,
        };
        let ghost att0 = attempted_set(self.attempted@);
        let mut i: usize = 0;
        while i < keys.len()
            invariant
                0 <= i <= keys@.len(),
                self.profile == old(self).profile,
                self.profile is Some && self.profile->0@ == profile@,
                self.images@ == old(self).images@,
                self.candidates@ == old(self).candidates@,
                att0 == attempted_set(old(self).attempted@),
                (out@, attempted_set(self.attempted@)) == visible_lookups(
                    self.candidates@,
                    att0,
                    profile@,
                    keys@.take(i as int),
                ),
            decreases keys@.len() - i,
        {
            proof {
                assert(keys@.take(i + 1).drop_last() =~= keys@.take(i as int));
                assert(keys@.take(i + 1).last() == keys@[i as int]);
            }
            match self.last_candidate(keys[i].as_str()) {
                Some(k) => {
                    proof {
                        let s = self.candidates@;
                        assert(s.take(k + 1).last() == s[k as int]);
                        lemma_candidate_for_last(s, k as int);
                    }
                    let c = &self.candidates[k];
                    let wanted = c.needs_remote && !str_equals(c.normalized.as_str(), "various artists");
                    if wanted && !self.was_attempted(profile.as_str(), c.normalized.as_str()) {
                        let sent = c.duplicate();
                        let pair = (profile.clone(), c.normalized.clone());
                        let ghost before = self.attempted@;
                        self.attempted.push(pair);
                        proof {
                            assert(self.attempted@.map_values(|p: (String, String)| pair_view(p)) =~= before.map_values(
                                |p: (String, String)| pair_view(p),
                            ).push(pair_view(pair)));
                            before.map_values(|p: (String, String)| pair_view(p)).lemma_push_to_set_commute(
                                pair_view(pair),
                            );
                        }
                        out.push(sent);
                    }
                },
                None => {},
            }
            i = i + 1;
        }
        proof {
            assert(keys@.take(i as int) =~= keys@);
        }
        out
    }
}

/// The keys of the rows of normalized name `n`, in order.
pub open spec fn keys_named(s: Seq<ImageCandidate>, n: Seq<char>) -> Seq<Seq<char>>
    decreases s.len(),
{
    if s.len() == 0 {
        Seq::empty()
    } else if s.last().normalized@ == n {
        keys_named(s.drop_last(), n).push(s.last().key@)
    } else {
        keys_named(s.drop_last(), n)
    }
}

impl ArtistImageRegistry {
    /// A queued lookup was dropped while network folders are excluded: the
    /// artist may be looked up again later.
    pub fn forget_attempt(&mut self, profile: &str, normalized: &str)
        ensures
            attempted_set(final(self).attempted@) == attempted_set(old(self).attempted@).remove((profile@, normalized@)),
            final(self).profile == old(self).profile,
            final(self).images@ == old(self).images@,
            final(self).candidates@ == old(self).candidates@,
    {
        let ghost target = (profile@, normalized@);
        let mut kept: Vec<(String, String)> = Vec::new();
        let ghost all = self.attempted@;
        let mut i: usize = 0;
        while i < self.attempted.len()
            invariant
                0 <= i <= all.len(),
                all == self.attempted@,
                target == (profile@, normalized@),
                attempted_set(kept@) == attempted_set(all.take(i as int)).remove(target),
            decreases all.len() - i,
        {
            let same = str_equals(self.attempted[i].0.as_str(), profile) && str_equals(
                self.attempted[i].1.as_str(),
                normalized,
            );
            let ghost before = kept@;
            proof {
                let t = all.take(i + 1);
                assert(t =~= all.take(i as int).push(all[i as int]));
                assert(t.map_values(|p: (String, String)| pair_view(p)) =~= all.take(i as int).map_values(
                    |p: (String, String)| pair_view(p),
                ).push(pair_view(all[i as int])));
                all.take(i as int).map_values(|p: (String, String)| pair_view(p)).lemma_push_to_set_commute(
                    pair_view(all[i as int]),
                );
            }
            if !same {
                let p = (self.attempted[i].0.clone(), self.attempted[i].1.clone());
                kept.push(p);
                proof {
                    assert(kept@.map_values(|p: (String, String)| pair_view(p)) =~= before.map_values(
                        |p: (String, String)| pair_view(p),
                    ).push(pair_view(p)));
                    before.map_values(|p: (String, String)| pair_view(p)).lemma_push_to_set_commute(pair_view(p));
                    assert(attempted_set(kept@) =~= attempted_set(all.take(i + 1)).remove(target));
                }
            } else {
                proof {
                    assert(pair_view(all[i as int]) == target);
                    assert(attempted_set(kept@) =~= attempted_set(all.take(i + 1)).remove(target));
                }
            }
            i = i + 1;
        }
        proof {
            assert(all.take(i as int) =~= all);
        }
        self.attempted = kept;
    }

    /// A portrait was found for the artist of normalized name `normalized`,
    /// looked up under `candidate_profile`. While that is still
    /// the profile on screen and the registry's, the portrait is cached, the
    /// rows of the artist want no more lookups, and their keys are returned
    /// for their artwork to refresh; otherwise nothing changes.
    pub fn publish(&mut self, candidate_profile: &str, current_profile: Option<&str>, normalized: String, path: String) -> (r: Vec<String>)
        ensures
            ({
                let current = (current_profile matches Some(c) && c@ == candidate_profile@)
                    && (old(self).profile matches Some(p) && p@ == candidate_profile@);
                &&& !current ==> r@.len() == 0 && final(self).images@ == old(self).images@
                    && final(self).candidates@ == old(self).candidates@
                &&& current ==> {
                    &&& final(self).images@ == old(self).images@.push((normalized, path))
                    &&& final(self).candidates@.len() == old(self).candidates@.len()
                    &&& forall|i: int|
                        0 <= i < old(self).candidates@.len() ==> #[trigger] final(self).candidates@[i] == if old(
                            self,
                        ).candidates@[i].normalized@ == normalized@ {
                            ImageCandidate { needs_remote: false, ..old(self).candidates@[i] }
                        } else {
                            old(self).candidates@[i]
                        }
                    &&& r@.map_values(|k: String| k@) == keys_named(old(self).candidates@, normalized@)
                }
            }),
            final(self).profile == old(self).profile,
            final(self).attempted@ == old(self).attempted@,
    {
        let on_screen = match current_profile {
            Some(c) => str_equals(c, candidate_profile),
            None => false,
        };
        let registry_current = match &self.profile {
            Some(p) => str_equals(p.as_str(), candidate_profile),
            None => false,
        };
        let mut keys: Vec<String> = Vec::new();
        if !(on_screen && registry_current) {
            return keys;
        }
        let ghost old_c = self.candidates@;
        let mut i: usize = 0;
        while i < self.candidates.len()
            invariant
                0 <= i <= self.candidates@.len(),
                self.candidates@.len() == old_c.len(),
                self.profile == old(self).profile,
                self.images@ == old(self).images@,
                self.attempted@ == old(self).attempted@,
                forall|k: int| i <= k < old_c.len() ==> #[trigger] self.candidates@[k] == old_c[k],
                forall|k: int|
                    0 <= k < i ==> #[trigger] self.candidates@[k] == if old_c[k].normalized@ == normalized@ {
                        ImageCandidate { needs_remote: false, ..old_c[k] }
                    } else {
                        old_c[k]
                    },
                keys@.map_values(|k: String| k@) == keys_named(old_c.take(i as int), normalized@),
            decreases old_c.len() - i,
        {
            proof {
                assert(old_c.take(i + 1).drop_last() =~= old_c.take(i as int));
                assert(old_c.take(i + 1).last() == old_c[i as int]);
            }
            if str_equals(self.candidates[i].normalized.as_str(), normalized.as_str()) {
                let key = self.candidates[i].key.clone();
                let c = ImageCandidate {
                    key: self.candidates[i].key.clone(),
                    name: self.candidates[i].name.clone(),
                    normalized: self.candidates[i].normalized.clone(),
                    needs_remote: false,
                };
                self.candidates.set(i, c);
                let ghost before = keys@;
                keys.push(key);
                proof {
                    assert(keys@.map_values(|k: String| k@) =~= before.map_values(|k: String| k@).push(
                        old_c[i as int].key@,
                    ));
                }
            }
            i = i + 1;
        }
        proof {
            assert(old_c.take(i as int) =~= old_c);
        }
        self.images.push((normalized, path));
        keys
    }
}

/// What the lookup worker does with a queued artist before reading what is
/// stored for it.
#[derive(Clone, Copy, Debug, PartialEq, Eq, Structural)]
pub enum Admission {
    /// The profile changed since the artist was queued: dropped.
    Stale,
    /// Network folders are excluded: dropped, and the artist may be queued
    /// again (`forget_attempt`).
    Offline,
    /// Its stored portrait is read next.
    Go,
}

/// What the lookup worker does once the stored portrait is read.
#[derive(Debug, PartialEq, Eq)]
pub enum LookupStep {
    /// Nothing: a fresh miss is stored, or the lookup budget is spent.
    Skip,
    /// The stored portrait is shown.
    Publish(String),
    /// A remote lookup runs, after the pause between lookups (`wait`) for
    /// all but the first.
    Resolve { wait: bool },
}

/// The lookup worker's own state: how many remote lookups were asked for,
/// and whether one ran yet.
pub struct LookupWorker {
    pub remote_attempts: usize,
    pub first_remote: bool,
}

impl LookupWorker {
    pub fn new() -> (w: LookupWorker)
        ensures
            w.remote_attempts == 0,
            w.first_remote,
    {
        LookupWorker { remote_attempts: 0, first_remote: true }
    }

    /// Whether a queued artist of `candidate_profile` is handled
    ///: not after a profile change, nor while network folders are
    /// excluded.
    pub fn admission(candidate_profile: &str, current_profile: Option<&str>, offline: bool) -> (r: Admission)
        ensures
            r == (if !(current_profile matches Some(c) && c@ == candidate_profile@) {
                Admission::Stale
            } else if offline {
                Admission::Offline
            } else {
                Admission::Go
            }),
    {
        let same = match current_profile {
            Some(c) => str_equals(c, candidate_profile),
            None => false,
        };
        if !same {
            Admission::Stale
        } else if offline {
            Admission::Offline
        } else {
            Admission::Go
        }
    }

    /// The step after reading the stored portrait (`preferred`, and whether
    /// a miss is still fresh): a stored portrait is shown; a fresh miss is
    /// left alone; otherwise a remote lookup is counted, and runs while the
    /// budget of `MAX_REMOTE_ARTISTS_PER_PROCESS` lasts.
    pub fn after_stored(&mut self, preferred: Option<String>, fresh: bool) -> (r: LookupStep)
        ensures
            preferred is Some ==> r == LookupStep::Publish(preferred->0) && *final(self) == *old(self),
            preferred is None && fresh ==> r == LookupStep::Skip && *final(self) == *old(self),
            preferred is None && !fresh ==> {
                &&& final(self).remote_attempts == if old(self).remote_attempts == usize::MAX {
                    usize::MAX
                } else {
                    (old(self).remote_attempts + 1) as usize
                }
                &&& old(self).remote_attempts >= MAX_REMOTE_ARTISTS_PER_PROCESS ==> r == LookupStep::Skip
                    && final(self).first_remote == old(self).first_remote
                &&& old(self).remote_attempts < MAX_REMOTE_ARTISTS_PER_PROCESS ==> r == (LookupStep::Resolve {
                    wait: !old(self).first_remote,
                }) && !final(self).first_remote
            },
    {
        match preferred {
            Some(path) => LookupStep::Publish(path),
            None => {
                if fresh {
                    return LookupStep::Skip;
                }
                let before = self.remote_attempts;
                self.remote_attempts = self.remote_attempts.saturating_add(1);
                if before >= MAX_REMOTE_ARTISTS_PER_PROCESS {
                    return LookupStep::Skip;
                }
                let wait = !self.first_remote;
                self.first_remote = false;
                LookupStep::Resolve { wait }
            },
        }
    }
}

/// The portrait a remote lookup leaves: what is stored after it (a custom
/// image chosen meanwhile wins), else the URL it found.
pub fn resolved_portrait(stored: Option<String>, found: Option<String>) -> (r: Option<String>)
    ensures
        r == (if stored is Some {
            stored
        } else {
            found
        }),
{
    match stored {
        Some(p) => Some(p),
        None => found,
    }
}

proof fn lemma_candidate_for_last(s: Seq<ImageCandidate>, i: int)
    requires
        0 <= i < s.len(),
        forall|j: int| i < j < s.len() ==> (#[trigger] s[j]).key@ != s[i].key@,
    ensures
        candidate_for(s, s[i].key@) == Some(s[i]),
    decreases s.len(),
{
    if i < s.len() - 1 {
        assert(s.drop_last()[i] == s[i]);
        lemma_candidate_for_last(s.drop_last(), i);
    }
}

/// No artist is looked up twice under a profile: the rows picked for lookup
/// name distinct artists, none looked up before, and each is recorded as
/// looked up; "various artists" is never looked up.
pub proof fn lemma_each_artist_looked_up_once(
    cands: Seq<ImageCandidate>,
    attempted: Set<(Seq<char>, Seq<char>)>,
    profile: Seq<char>,
    keys: Seq<String>,
)
    ensures
        ({
            let (sent, att) = visible_lookups(cands, attempted, profile, keys);
            &&& forall|i: int, j: int|
                0 <= i < j < sent.len() ==> (#[trigger] sent[i]).normalized@ != (#[trigger] sent[j]).normalized@
            &&& forall|i: int| 0 <= i < sent.len() ==> !attempted.contains((profile, (#[trigger] sent[i]).normalized@))
            &&& forall|i: int| 0 <= i < sent.len() ==> att.contains((profile, (#[trigger] sent[i]).normalized@))
            &&& forall|i: int| 0 <= i < sent.len() ==> (#[trigger] sent[i]).normalized@ != "various artists"@
            &&& forall|x: (Seq<char>, Seq<char>)| #[trigger] attempted.contains(x) ==> att.contains(x)
        }),
    decreases keys.len(),
{
    if keys.len() > 0 {
        lemma_each_artist_looked_up_once(cands, attempted, profile, keys.drop_last());
    }
}

/// The portrait an artist's stored image gives:
/// a custom image when one is set, else the image URL; either only when it
/// is not blank. A blank custom image hides the URL.
pub fn preferred_portrait(custom: Option<&str>, url: Option<&str>) -> (r: Option<String>)
    ensures
        match custom {
            Some(c) => if trim(c@).len() > 0 {
                r matches Some(p) && p@ == c@
            } else {
                r is None
            },
            None => match url {
                Some(u) => if trim(u@).len() > 0 {
                    r matches Some(p) && p@ == u@
                } else {
                    r is None
                },
                None => r is None,
            },
        },
{
    let chosen = match custom {
        Some(c) => Some(c),
        None => url,
    };
    match chosen {
        Some(p) => if trimmed_chars(p).len() > 0 {
            Some(p.to_string())
        } else {
            None
        },
        None => None,
    }
}


/// The portrait of an artist row: a cached or
/// custom one, served locally, wins over the image the merge chose; the
/// result is the path and the source that serves it.
pub fn row_portrait(cached: Option<String>, merged_path: String, merged_source: String) -> (r: (String, String))
    ensures
        cached is Some ==> r.0 == cached->0 && r.1@ == "local"@,
        cached is None ==> r.0 == merged_path && r.1 == merged_source,
{
    match cached {
        Some(p) => (p, "local".to_string()),
        None => (merged_path, merged_source),
    }
}

/// The first kept portrait of a normalized name among Plex artists: a name
/// counts only when it is not empty and has a path.
pub open spec fn first_portrait(artists: Seq<(String, Option<String>)>, name: Seq<char>) -> Option<Seq<char>>
    decreases artists.len(),
{
    if artists.len() == 0 {
        None
    } else {
        match first_portrait(artists.drop_last(), name) {
            Some(p) => Some(p),
            None => {
                let (n, path) = artists.last();
                if n@ == name && n@.len() > 0 && (path matches Some(x) && x@.len() > 0) {
                    Some(path->0@)
                } else {
                    None
                }
            },
        }
    }
}

/// The Plex portraits by normalized artist name:
/// for each name the first Plex artist of that name with a portrait gives
/// it. Names come out in the order they first get one.
pub fn plex_portraits(artists: &Vec<(String, Option<String>)>) -> (r: Vec<(String, String)>)
    ensures
        forall|i: int, j: int| 0 <= i < j < r@.len() ==> (#[trigger] r@[i]).0@ != (#[trigger] r@[j]).0@,
        forall|i: int| 0 <= i < r@.len() ==> first_portrait(artists@, (#[trigger] r@[i]).0@) == Some(r@[i].1@),
        forall|n: Seq<char>| #[trigger] first_portrait(artists@, n) is Some ==> exists|i: int| 0 <= i < r@.len() && r@[i].0@ == n,
{
    let mut out: Vec<(String, String)> = Vec::new();
    let mut i: usize = 0;
    while i < artists.len()
        invariant
            0 <= i <= artists@.len(),
            forall|a: int, b: int| 0 <= a < b < out@.len() ==> (#[trigger] out@[a]).0@ != (#[trigger] out@[b]).0@,
            forall|a: int| 0 <= a < out@.len() ==> first_portrait(artists@.take(i as int), (#[trigger] out@[a]).0@) == Some(out@[a].1@),
            forall|n: Seq<char>| #[trigger] first_portrait(artists@.take(i as int), n) is Some ==> exists|a: int| 0 <= a < out@.len() && out@[a].0@ == n,
        decreases artists@.len() - i,
    {
        let ghost t = artists@.take(i as int);
        proof {
            assert(artists@.take(i + 1).drop_last() =~= t);
            assert(artists@.take(i + 1).last() == artists@[i as int]);
        }
        let name = &artists[i].0;
        let usable = !str_is_empty(name.as_str()) && match &artists[i].1 {
            Some(p) => !str_is_empty(p.as_str()),
            None => false,
        };
        if usable {
            let mut seen = false;
            let mut k: usize = 0;
            while k < out.len()
                invariant
                    0 <= k <= out@.len(),
                    seen == exists|a: int| 0 <= a < k && (#[trigger] out@[a]).0@ == name@,
                decreases out@.len() - k,
            {
                if str_equals(out[k].0.as_str(), name.as_str()) {
                    seen = true;
                }
                k = k + 1;
            }
            if !seen {
                let path = match &artists[i].1 {
                    Some(p) => p.clone(),
                    None => String::new(),
                };
                proof {
                    if first_portrait(t, name@) is Some {
                        let a = choose|a: int| 0 <= a < out@.len() && out@[a].0@ == name@;
                        assert(false);
                    }
                }
                let ghost before = out@;
                out.push((name.clone(), path));
                proof {
                    let u = artists@.take(i + 1);
                    assert forall|a: int| 0 <= a < out@.len() implies first_portrait(u, (#[trigger] out@[a]).0@) == Some(out@[a].1@) by {
                        if a < before.len() {
                            assert(out@[a] == before[a]);
                        }
                    }
                    assert forall|n: Seq<char>| #[trigger] first_portrait(u, n) is Some implies exists|a: int| 0 <= a < out@.len() && out@[a].0@ == n by {
                        if first_portrait(t, n) is Some {
                            let a = choose|a: int| 0 <= a < before.len() && before[a].0@ == n;
                            assert(out@[a] == before[a]);
                        } else {
                            assert(out@[out@.len() - 1].0@ == n);
                        }
                    }
                    assert forall|a: int, b: int| 0 <= a < b < out@.len() implies (#[trigger] out@[a]).0@ != (#[trigger] out@[b]).0@ by {
                        if b == out@.len() - 1 {
                            assert(out@[a] == before[a]);
                        } else {
                            assert(out@[a] == before[a] && out@[b] == before[b]);
                        }
                    }
                }
            } else {
                proof {
                    let u = artists@.take(i + 1);
                    let a0 = choose|a: int| 0 <= a < out@.len() && out@[a].0@ == name@;
                    assert(first_portrait(t, name@) is Some);
                    assert forall|n: Seq<char>| #[trigger] first_portrait(u, n) is Some implies exists|a: int| 0 <= a < out@.len() && out@[a].0@ == n by {
                        if first_portrait(t, n) is None {
                            assert(n == name@);
                            assert(out@[a0].0@ == n);
                        }
                    }
                }
            }
        } else {
            proof {
                let u = artists@.take(i + 1);
                assert forall|n: Seq<char>| #[trigger] first_portrait(u, n) == first_portrait(t, n) by {}
            }
        }
        i = i + 1;
    }
    proof {
        assert(artists@.take(i as int) =~= artists@);
    }
    out
}

} // verus!
