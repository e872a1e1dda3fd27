//! What the Genres browser keeps of the albums it has expanded: per album id,
//! the fetched tracks, the copies found among them, the copy on show, the
//! published document and the media filter it was built under, the load
//! under way, and the generation of the last copy switch.
//!
//! A load is answered from the document when the filter matches, joins the
//! load already under way for the same filter, or starts; it publishes only
//! while it is still the album's load. At most `GENRE_RAW_CACHE_LIMIT` albums
//! keep their fetched tracks: a new one pushes out the album with the least id.
use vstd::prelude::*;
use crate::album_versions::{
    copy_rows, disc_rows, versions_info, AlbumVersion, AlbumVersionGroup, DiscRow, VersionTrack,
};
use crate::generation::{wrap_next, wrapping_next};
use crate::text::{chars_lt, chars_of, lex_lt, str_equals};

verus! {

/// How many albums keep their fetched tracks.
pub const GENRE_RAW_CACHE_LIMIT: usize = 32;

/// What is kept of one album.
pub struct GenreSlot {
    /// Every track of the album as fetched.
    pub all_tracks: Option<Vec<VersionTrack>>,
    /// The rows of the copy on show.
    pub selected: Option<Vec<VersionTrack>>,
    /// The copies of the album under the filter of the document.
    pub versions: Option<Vec<AlbumVersionGroup>>,
    /// The published document and the filter it was built under.
    pub doc: Option<String>,
    pub filter: Option<String>,
    /// The filter of the load under way.
    pub request: Option<String>,
    /// The generation of the last load or copy switch.
    pub version_generation: Option<u64>,
}

pub struct GenreEntry {
    pub album_id: String,
    pub slot: GenreSlot,
}

/// The albums kept, by id.
pub struct GenreDetailCache {
    entries: Vec<GenreEntry>,
    raw_count: usize,
}

pub open spec fn empty_slot() -> GenreSlot {
    GenreSlot {
        all_tracks: None,
        selected: None,
        versions: None,
        doc: None,
        filter: None,
        request: None,
        version_generation: None,
    }
}

pub open spec fn key_map(s: Seq<GenreEntry>) -> Map<Seq<char>, GenreSlot>
    decreases s.len(),
{
    if s.len() == 0 {
        Map::empty()
    } else {
        key_map(s.drop_last()).insert(s.last().album_id@, s.last().slot)
    }
}

pub open spec fn ids_unique(s: Seq<GenreEntry>) -> bool {
    forall|i: int, j: int| 0 <= i < j < s.len() ==> (#[trigger] s[i]).album_id@ != (#[trigger] s[j]).album_id@
}

/// The slot of album `id`; an empty one for an album not kept.
pub open spec fn slot_of(m: Map<Seq<char>, GenreSlot>, id: Seq<char>) -> GenreSlot {
    if m.contains_key(id) {
        m[id]
    } else {
        empty_slot()
    }
}

/// The albums that keep their fetched tracks.
pub open spec fn raw_ids(m: Map<Seq<char>, GenreSlot>) -> Set<Seq<char>> {
    m.dom().filter(|k: Seq<char>| m[k].all_tracks is Some)
}

proof fn lemma_key_map(s: Seq<GenreEntry>)
    requires
        ids_unique(s),
    ensures
        forall|k: Seq<char>| #[trigger] key_map(s).contains_key(k) <==> exists|i: int| 0 <= i < s.len() && s[i].album_id@ == k,
        forall|i: int| 0 <= i < s.len() ==> key_map(s)[(#[trigger] s[i]).album_id@] == s[i].slot,
    decreases s.len(),
{
    if s.len() > 0 {
        let t = s.drop_last();
        assert forall|a: int, b: int| 0 <= a < b < t.len() implies (#[trigger] t[a]).album_id@ != (
        #[trigger] t[b]).album_id@ by {
            assert(t[a] == s[a] && t[b] == s[b]);
        }
        lemma_key_map(t);
        assert forall|k: Seq<char>| #[trigger] key_map(s).contains_key(k) <==> exists|i: int|
            0 <= i < s.len() && s[i].album_id@ == k by {
            if key_map(t).contains_key(k) {
                let i = choose|i: int| 0 <= i < t.len() && t[i].album_id@ == k;
                assert(s[i] == t[i]);
            }
            if exists|i: int| 0 <= i < s.len() && s[i].album_id@ == k {
                let i = choose|i: int| 0 <= i < s.len() && s[i].album_id@ == k;
                if i < s.len() - 1 {
                    assert(t[i] == s[i]);
                }
            }
        }
        assert forall|i: int| 0 <= i < s.len() implies key_map(s)[(#[trigger] s[i]).album_id@] == s[i].slot by {
            if i < s.len() - 1 {
                assert(t[i] == s[i]);
                assert(s[i].album_id@ != s[s.len() - 1].album_id@);
            }
        }
    }
}

proof fn lemma_key_map_remove(s: Seq<GenreEntry>, i: int)
    requires
        ids_unique(s),
        0 <= i < s.len(),
    ensures
        ids_unique(s.remove(i)),
        key_map(s.remove(i)) == key_map(s).remove(s[i].album_id@),
{
    let r = s.remove(i);
    assert forall|a: int, b: int| 0 <= a < b < r.len() implies (#[trigger] r[a]).album_id@ != (
    #[trigger] r[b]).album_id@ by {
        let sa = if a < i { a } else { a + 1 };
        let sb = if b < i { b } else { b + 1 };
        assert(r[a] == s[sa] && r[b] == s[sb]);
    }
    lemma_key_map(s);
    lemma_key_map(r);
    let id = s[i].album_id@;
    let want = key_map(s).remove(id);
    assert forall|k: Seq<char>| #[trigger] key_map(r).contains_key(k) <==> want.contains_key(k) by {
        if key_map(r).contains_key(k) {
            let j = choose|j: int| 0 <= j < r.len() && r[j].album_id@ == k;
            let sj = if j < i { j } else { j + 1 };
            assert(r[j] == s[sj]);
            assert(s[sj].album_id@ != s[i].album_id@);
        }
        if want.contains_key(k) {
            let j = choose|j: int| 0 <= j < s.len() && s[j].album_id@ == k;
            assert(j != i);
            if j < i {
                assert(r[j] == s[j]);
            } else {
                assert(r[j - 1] == s[j]);
            }
        }
    }
    assert forall|k: Seq<char>| #[trigger] key_map(r).contains_key(k) implies key_map(r)[k] == want[k] by {
        let j = choose|j: int| 0 <= j < r.len() && r[j].album_id@ == k;
        let sj = if j < i { j } else { j + 1 };
        assert(r[j] == s[sj]);
        assert(key_map(r)[r[j].album_id@] == r[j].slot);
        assert(key_map(s)[s[sj].album_id@] == s[sj].slot);
    }
    assert(key_map(r) =~= want);
}

proof fn lemma_raw_ids_insert(m: Map<Seq<char>, GenreSlot>, id: Seq<char>, s: GenreSlot)
    ensures
        raw_ids(m.insert(id, s)) == if s.all_tracks is Some {
            raw_ids(m).insert(id)
        } else {
            raw_ids(m).remove(id)
        },
{
    assert(raw_ids(m.insert(id, s)) =~= if s.all_tracks is Some {
        raw_ids(m).insert(id)
    } else {
        raw_ids(m).remove(id)
    });
}

proof fn lemma_raw_ids_remove(m: Map<Seq<char>, GenreSlot>, id: Seq<char>)
    ensures
        raw_ids(m.remove(id)) == raw_ids(m).remove(id),
{
    assert(raw_ids(m.remove(id)) =~= raw_ids(m).remove(id));
}

impl GenreDetailCache {
    /// The albums kept, by id.
    pub closed spec fn map(&self) -> Map<Seq<char>, GenreSlot> {
        key_map(self.entries@)
    }

    pub closed spec fn wf(&self) -> bool {
        &&& ids_unique(self.entries@)
        &&& raw_ids(self.map()).finite()
        &&& self.raw_count == raw_ids(self.map()).len()
        &&& self.raw_count <= GENRE_RAW_CACHE_LIMIT
    }

    /// At most `GENRE_RAW_CACHE_LIMIT` albums keep their fetched tracks.
    pub proof fn lemma_bounded(&self)
        requires
            self.wf(),
        ensures
            raw_ids(self.map()).finite(),
            raw_ids(self.map()).len() <= GENRE_RAW_CACHE_LIMIT,
    {
    }

    pub fn new() -> (c: Self)
        ensures
            c.wf(),
            c.map() == Map::<Seq<char>, GenreSlot>::empty(),
    {
        let c = GenreDetailCache { entries: Vec::new(), raw_count: 0 };
        proof {
            assert(raw_ids(c.map()) =~= Set::empty());
        }
        c
    }

    fn position(&self, album_id: &str) -> (r: Option<usize>)
        requires
            ids_unique(self.entries@),
        ensures
            match r {
                Some(i) => i < self.entries@.len() && self.entries@[i as int].album_id@ == album_id@,
                None => !self.map().contains_key(album_id@),
            },
    {
        proof {
            lemma_key_map(self.entries@);
        }
        let mut i: usize = 0;
        while i < self.entries.len()
            invariant
                0 <= i <= self.entries@.len(),
                forall|k: int| 0 <= k < i ==> (#[trigger] self.entries@[k]).album_id@ != album_id@,
            decreases self.entries@.len() - i,
        {
            if str_equals(self.entries[i].album_id.as_str(), album_id) {
                return Some(i);
            }
            i = i + 1;
        }
        None
    }

    /// Takes out the slot of `album_id` (an empty one when none is kept).
    fn take(&mut self, album_id: &str) -> (r: GenreSlot)
        requires
            ids_unique(old(self).entries@),
        ensures
            ids_unique(final(self).entries@),
            final(self).raw_count == old(self).raw_count,
            final(self).map() == old(self).map().remove(album_id@),
            r == slot_of(old(self).map(), album_id@),
    {
        match self.position(album_id) {
            Some(i) => {
                proof {
                    lemma_key_map(self.entries@);
                    lemma_key_map_remove(self.entries@, i as int);
                }
                let e = self.entries.remove(i);
                e.slot
            },
            None => {
                proof {
                    assert(self.map().remove(album_id@) =~= self.map());
                }
                GenreSlot {
                    all_tracks: None,
                    selected: None,
                    versions: None,
                    doc: None,
                    filter: None,
                    request: None,
                    version_generation: None,
                }
            },
        }
    }

    /// Keeps `slot` as the slot of `album_id`, which has none.
    fn put(&mut self, album_id: String, slot: GenreSlot)
        requires
            ids_unique(old(self).entries@),
            !old(self).map().contains_key(album_id@),
        ensures
            ids_unique(final(self).entries@),
            final(self).raw_count == old(self).raw_count,
            final(self).map() == old(self).map().insert(album_id@, slot),
    {
        let ghost s = self.entries@;
        let ghost id = album_id@;
        proof {
            lemma_key_map(s);
        }
        self.entries.push(GenreEntry { album_id, slot });
        proof {
            let t = self.entries@;
            assert(t.drop_last() =~= s);
            assert forall|a: int, b: int| 0 <= a < b < t.len() implies (#[trigger] t[a]).album_id@ != (
            #[trigger] t[b]).album_id@ by {
                if b == t.len() - 1 {
                    assert(t[a] == s[a]);
                    assert(key_map(s).contains_key(s[a].album_id@));
                } else {
                    assert(t[a] == s[a] && t[b] == s[b]);
                }
            }
        }
    }
}


/// How a request for an album's document is answered.
#[derive(Debug, PartialEq, Eq)]
pub enum GenreRequest {
    /// From the document built under the same filter.
    Cached(String),
    /// By the load already under way for the same filter.
    Pending,
    /// By a new load, which the caller runs.
    Spawn,
}

/// The copy picked for a Genres album: its position, the picker's entries,
/// the disc headers and rows of the copy.
pub struct GenreVersionPick {
    pub version_index: usize,
    pub versions: Vec<AlbumVersion>,
    pub discs: Vec<DiscRow>,
    pub selected: Vec<VersionTrack>,
}

pub open spec fn opt_is(o: Option<String>, s: Seq<char>) -> bool {
    o matches Some(x) && x@ == s
}

pub open spec fn generation_of(s: GenreSlot) -> u64 {
    match s.version_generation {
        Some(g) => g,
        None => 0,
    }
}

/// The answer to a request for album `id` under `filter`.
pub open spec fn request_outcome(m: Map<Seq<char>, GenreSlot>, id: Seq<char>, filter: Seq<char>) -> GenreRequest {
    let s = slot_of(m, id);
    if opt_is(s.filter, filter) && s.doc is Some {
        GenreRequest::Cached(s.doc->0)
    } else if opt_is(s.request, filter) {
        GenreRequest::Pending
    } else {
        GenreRequest::Spawn
    }
}

/// The albums after a load of `id` under `filter` starts: it is the album's
/// load, and it opens a new generation, so that no copy switch started
/// before it publishes.
pub open spec fn requested(m: Map<Seq<char>, GenreSlot>, id: Seq<char>, filter: String) -> Map<Seq<char>, GenreSlot> {
    let s = slot_of(m, id);
    m.insert(
        id,
        GenreSlot {
            request: Some(filter),
            version_generation: Some(wrap_next(generation_of(s))),
            ..s
        },
    )
}

/// Whether the load of `id` under `filter` is still the album's load.
pub open spec fn load_current(m: Map<Seq<char>, GenreSlot>, id: Seq<char>, filter: Seq<char>) -> bool {
    opt_is(slot_of(m, id).request, filter)
}

/// A finishing load that brought tracks for an album that keeps none, with
/// the cache full, pushes an album out.
pub open spec fn evicts(m: Map<Seq<char>, GenreSlot>, id: Seq<char>, fetched: nat) -> bool {
    &&& fetched > 0
    &&& raw_ids(m).len() >= GENRE_RAW_CACHE_LIMIT
    &&& !raw_ids(m).contains(id)
}

/// `k` is the least id among the albums that keep their tracks.
pub open spec fn least_raw(m: Map<Seq<char>, GenreSlot>, k: Seq<char>) -> bool {
    &&& raw_ids(m).contains(k)
    &&& forall|j: Seq<char>| #[trigger] raw_ids(m).contains(j) ==> !lex_lt(j, k)
}

/// The albums after the current load of `id` finishes: it keeps the fetched
/// tracks when there are any and ends; when it found copies it keeps them,
/// the copy on show, the document and its filter.
pub open spec fn completed(
    m: Map<Seq<char>, GenreSlot>,
    id: Seq<char>,
    filter: String,
    all_tracks: Vec<VersionTrack>,
    versions: Vec<AlbumVersionGroup>,
    selected: Vec<VersionTrack>,
    doc: String,
) -> Map<Seq<char>, GenreSlot> {
    let s = slot_of(m, id);
    let s1 = GenreSlot {
        all_tracks: if all_tracks@.len() > 0 {
            Some(all_tracks)
        } else {
            s.all_tracks
        },
        request: None,
        ..s
    };
    let s2 = if versions@.len() == 0 {
        s1
    } else {
        GenreSlot {
            selected: Some(selected),
            versions: Some(versions),
            doc: Some(doc),
            filter: Some(filter),
            ..s1
        }
    };
    m.insert(id, s2)
}

/// Album `id` has a copy at `index`.
pub open spec fn pick_exists(m: Map<Seq<char>, GenreSlot>, id: Seq<char>, index: i32) -> bool {
    &&& index >= 0
    &&& slot_of(m, id).versions is Some
    &&& index < slot_of(m, id).versions->0@.len()
}

/// The albums after a copy switch of `id` starts: a new generation.
pub open spec fn bumped(m: Map<Seq<char>, GenreSlot>, id: Seq<char>) -> Map<Seq<char>, GenreSlot> {
    let s = slot_of(m, id);
    m.insert(id, GenreSlot { version_generation: Some(wrap_next(generation_of(s))), ..s })
}

/// Whether the copy switch of generation `g` is still the album's latest.
pub open spec fn version_current(m: Map<Seq<char>, GenreSlot>, id: Seq<char>, g: u64) -> bool {
    slot_of(m, id).version_generation == Some(g)
}

/// The albums after the current copy switch of `id` publishes.
pub open spec fn switched(
    m: Map<Seq<char>, GenreSlot>,
    id: Seq<char>,
    selected: Vec<VersionTrack>,
    doc: String,
) -> Map<Seq<char>, GenreSlot> {
    let s = slot_of(m, id);
    m.insert(id, GenreSlot { selected: Some(selected), doc: Some(doc), ..s })
}

proof fn lemma_reinsert(m: Map<Seq<char>, GenreSlot>, id: Seq<char>, s: GenreSlot)
    requires
        raw_ids(m).finite(),
        (s.all_tracks is Some) == (slot_of(m, id).all_tracks is Some),
    ensures
        raw_ids(m.remove(id).insert(id, s)) == raw_ids(m),
{
    assert(raw_ids(m.remove(id).insert(id, s)) =~= raw_ids(m));
}

impl GenreDetailCache {
    fn least_raw_index(&self) -> (r: Option<usize>)
        requires
            ids_unique(self.entries@),
        ensures
            match r {
                Some(i) => i < self.entries@.len() && least_raw(self.map(), self.entries@[i as int].album_id@),
                None => raw_ids(self.map()) == Set::<Seq<char>>::empty(),
            },
    {
        let ghost s = self.entries@;
        proof {
            lemma_key_map(s);
        }
        let mut best: Option<usize> = None;
        let mut i: usize = 0;
        while i < self.entries.len()
            invariant
                0 <= i <= s.len(),
                s == self.entries@,
                ids_unique(s),
                match best {
                    Some(b) => b < i && s[b as int].slot.all_tracks is Some && forall|j: int|
                        0 <= j < i && (#[trigger] s[j]).slot.all_tracks is Some ==> !lex_lt(
                            s[j].album_id@,
                            s[b as int].album_id@,
                        ),
                    None => forall|j: int| 0 <= j < i ==> (#[trigger] s[j]).slot.all_tracks is None,
                },
            decreases s.len() - i,
        {
            if self.entries[i].slot.all_tracks.is_some() {
                match best {
                    None => {
                        proof {
                            crate::text::lemma_lex_irreflexive(s[i as int].album_id@, 0);
                        }
                        best = Some(i);
                    },
                    Some(b) => {
                        let here = chars_of(self.entries[i].album_id.as_str());
                        let there = chars_of(self.entries[b].album_id.as_str());
                        if chars_lt(&here, &there) {
                            proof {
                                assert forall|j: int|
                                    0 <= j < i + 1 && (#[trigger] s[j]).slot.all_tracks is Some implies !lex_lt(
                                    s[j].album_id@,
                                    s[i as int].album_id@,
                                ) by {
                                    if j == i {
                                        crate::text::lemma_lex_irreflexive(s[i as int].album_id@, 0);
                                    } else if lex_lt(s[j].album_id@, s[i as int].album_id@) {
                                        crate::text::lemma_lex_transitive(
                                            s[j].album_id@,
                                            s[i as int].album_id@,
                                            s[b as int].album_id@,
                                            0,
                                        );
                                    }
                                }
                            }
                            best = Some(i);
                        }
                    },
                }
            }
            i = i + 1;
        }
        proof {
            let m = self.map();
            match best {
                Some(b) => {
                    assert(raw_ids(m).contains(s[b as int].album_id@));
                    assert forall|j: Seq<char>| #[trigger] raw_ids(m).contains(j) implies !lex_lt(
                        j,
                        s[b as int].album_id@,
                    ) by {
                        let k = choose|k: int| 0 <= k < s.len() && s[k].album_id@ == j;
                        assert(m[s[k].album_id@] == s[k].slot);
                    }
                },
                None => {
                    assert forall|j: Seq<char>| !#[trigger] raw_ids(m).contains(j) by {
                        if m.contains_key(j) {
                            let k = choose|k: int| 0 <= k < s.len() && s[k].album_id@ == j;
                            assert(m[s[k].album_id@] == s[k].slot);
                        }
                    }
                    assert(raw_ids(m) =~= Set::<Seq<char>>::empty());
                },
            }
        }
        best
    }

    /// A request for album `id`'s document under `filter`
    ///: answered from the document built under the
    /// same filter, else joined to the load under way for it, else a new
    /// load starts.
    pub fn genre_album_tracks(&mut self, id: String, filter: String) -> (r: GenreRequest)
        requires
            old(self).wf(),
        ensures
            final(self).wf(),
            r == request_outcome(old(self).map(), id@, filter@),
            r is Spawn ==> final(self).map() == requested(old(self).map(), id@, filter),
            !(r is Spawn) ==> final(self).map() == old(self).map(),
    {
        let ghost m = self.map();
        let ghost raw = raw_ids(m);
        let mut slot = self.take(id.as_str());
        let same_filter = match &slot.filter {
            Some(f) => str_equals(f.as_str(), filter.as_str()),
            None => false,
        };
        let same_request = match &slot.request {
            Some(f) => str_equals(f.as_str(), filter.as_str()),
            None => false,
        };
        let r = if same_filter && slot.doc.is_some() {
            let doc = match &slot.doc {
                Some(d) => d.clone(),
                None => String::new(),
            };
            GenreRequest::Cached(doc)
        } else if same_request {
            GenreRequest::Pending
        } else {
            let g = match slot.version_generation {
                Some(g) => g,
                None => 0,
            };
            let next = wrapping_next(g);
            slot.request = Some(filter);
            slot.version_generation = Some(next);
            GenreRequest::Spawn
        };
        proof {
            lemma_reinsert(m, id@, slot);
            if !(r is Spawn) {
                assert(m.contains_key(id@));
                assert(m.remove(id@).insert(id@, slot) =~= m);
            } else {
                assert(m.remove(id@).insert(id@, slot) =~= requested(m, id@, filter));
            }
        }
        self.put(id, slot);
        r
    }

    /// The fetched tracks kept for album `id`, if any.
    pub fn raw_tracks(&self, id: &str) -> (r: Option<Vec<VersionTrack>>)
        requires
            self.wf(),
        ensures
            match slot_of(self.map(), id@).all_tracks {
                Some(ts) => r matches Some(v) && v@ == ts@,
                None => r is None,
            },
    {
        proof {
            lemma_key_map(self.entries@);
        }
        match self.position(id) {
            Some(i) => match &self.entries[i].slot.all_tracks {
                Some(ts) => Some(copy_rows(ts)),
                None => None,
            },
            None => None,
        }
    }

    /// The filter of album `id`'s document; "" when there is none.
    pub fn filter_of(&self, id: &str) -> (r: String)
        requires
            self.wf(),
        ensures
            match slot_of(self.map(), id@).filter {
                Some(f) => r == f,
                None => r@.len() == 0,
            },
    {
        proof {
            lemma_key_map(self.entries@);
        }
        match self.position(id) {
            Some(i) => match &self.entries[i].slot.filter {
                Some(f) => f.clone(),
                None => String::new(),
            },
            None => String::new(),
        }
    }

    /// Forgets every album.
    pub fn clear(&mut self)
        ensures
            final(self).wf(),
            final(self).map() == Map::<Seq<char>, GenreSlot>::empty(),
    {
        self.entries = Vec::new();
        self.raw_count = 0;
        proof {
            assert(raw_ids(self.map()) =~= Set::empty());
        }
    }
}


impl GenreDetailCache {
    /// A load of album `id` under `filter` finishes with the fetched tracks,
    /// the copies found under the filter, the rows of the first copy and the
    /// document built from them. It publishes only while it is the album's
    /// load (`current`). Fetched tracks are kept; when the cache is full and
    /// the album keeps none yet, the album with the least id is forgotten
    /// first. A load that found no copy keeps nothing else, so a later
    /// request loads again.
    pub fn complete_genre_load(
        &mut self,
        id: String,
        filter: String,
        all_tracks: Vec<VersionTrack>,
        versions: Vec<AlbumVersionGroup>,
        selected: Vec<VersionTrack>,
        doc: String,
    ) -> (current: bool)
        requires
            old(self).wf(),
        ensures
            final(self).wf(),
            current == load_current(old(self).map(), id@, filter@),
            !current ==> final(self).map() == old(self).map(),
            current && !evicts(old(self).map(), id@, all_tracks@.len()) ==> final(self).map() == completed(
                old(self).map(),
                id@,
                filter,
                all_tracks,
                versions,
                selected,
                doc,
            ),
            current && evicts(old(self).map(), id@, all_tracks@.len()) ==> exists|k: Seq<char>|
                least_raw(old(self).map(), k) && final(self).map() == completed(
                    old(self).map().remove(k),
                    id@,
                    filter,
                    all_tracks,
                    versions,
                    selected,
                    doc,
                ),
    {
        let ghost m0 = self.map();
        let ghost at0 = all_tracks;
        let ghost vs0 = versions;
        let ghost sel0 = selected;
        let ghost doc0 = doc;
        let ghost f0 = filter;
        proof {
            lemma_key_map(self.entries@);
        }
        let pos = self.position(id.as_str());
        let (current, was_raw) = match pos {
            Some(i) => {
                let cur = match &self.entries[i].slot.request {
                    Some(f) => str_equals(f.as_str(), filter.as_str()),
                    None => false,
                };
                (cur, self.entries[i].slot.all_tracks.is_some())
            },
            None => (false, false),
        };
        proof {
            if let Some(i) = pos {
                assert(m0[self.entries@[i as int].album_id@] == self.entries@[i as int].slot);
                assert(was_raw == raw_ids(m0).contains(id@));
            }
        }
        if !current {
            return false;
        }
        let ghost mut evicted: Seq<char> = Seq::empty();
        if all_tracks.len() > 0 && self.raw_count >= GENRE_RAW_CACHE_LIMIT && !was_raw {
            proof {
                assert(raw_ids(m0).len() > 0);
                if raw_ids(m0) == Set::<Seq<char>>::empty() {
                    assert(raw_ids(m0).len() == 0);
                }
            }
            match self.least_raw_index() {
                Some(k) => {
                    let oldest = string_copy(&self.entries[k].album_id);
                    proof {
                        evicted = oldest@;
                        assert(evicted != id@);
                        assert(raw_ids(m0).contains(evicted));
                    }
                    let _forgotten = self.take(oldest.as_str());
                    proof {
                        lemma_raw_ids_remove(m0, evicted);
                        assert(raw_ids(m0).remove(evicted).len() == raw_ids(m0).len() - 1);
                    }
                    self.raw_count = self.raw_count - 1;
                },
                None => {},
            }
        }
        let ghost m1 = self.map();
        proof {
            assert(slot_of(m1, id@) == slot_of(m0, id@));
            assert(raw_ids(m1).finite());
            assert(self.raw_count == raw_ids(m1).len());
            assert(!raw_ids(m1).contains(id@) ==> self.raw_count < GENRE_RAW_CACHE_LIMIT || all_tracks@.len() == 0);
        }
        let mut slot = self.take(id.as_str());
        if all_tracks.len() > 0 {
            if slot.all_tracks.is_none() {
                self.raw_count = self.raw_count + 1;
            }
            slot.all_tracks = Some(all_tracks);
        }
        slot.request = None;
        if versions.len() > 0 {
            slot.selected = Some(selected);
            slot.versions = Some(versions);
            slot.doc = Some(doc);
            slot.filter = Some(filter);
        }
        proof {
            let target = completed(m1, id@, f0, at0, vs0, sel0, doc0);
            assert(m1.remove(id@).insert(id@, slot) =~= target);
            lemma_raw_ids_remove(m1, id@);
            lemma_raw_ids_insert(m1.remove(id@), id@, slot);
            if slot.all_tracks is Some {
                if raw_ids(m1).contains(id@) {
                    assert(raw_ids(m1).remove(id@).insert(id@) =~= raw_ids(m1));
                } else {
                    assert(raw_ids(m1).remove(id@) =~= raw_ids(m1));
                }
            } else {
                assert(!raw_ids(m1).contains(id@));
                assert(raw_ids(m1).remove(id@).remove(id@) =~= raw_ids(m1));
            }
            if evicts(m0, id@, at0@.len()) {
                assert(m1 == m0.remove(evicted));
                assert(least_raw(m0, evicted));
            } else {
                assert(m1 == m0);
            }
        }
        self.put(id, slot);
        true
    }

    /// A copy switch of album `id` starts: a
    /// new generation, which is returned.
    pub fn genre_album_select_version(&mut self, id: String) -> (g: u64)
        requires
            old(self).wf(),
        ensures
            final(self).wf(),
            final(self).map() == bumped(old(self).map(), id@),
            g == wrap_next(generation_of(slot_of(old(self).map(), id@))),
    {
        let ghost m = self.map();
        let mut slot = self.take(id.as_str());
        let g = match slot.version_generation {
            Some(g) => g,
            None => 0,
        };
        let next = wrapping_next(g);
        slot.version_generation = Some(next);
        proof {
            lemma_reinsert(m, id@, slot);
            assert(m.remove(id@).insert(id@, slot) =~= bumped(m, id@));
        }
        self.put(id, slot);
        next
    }

    /// The copy at `index` of album `id`, with
    /// the picker's entries and the copy's disc headers; none for a negative
    /// index, an album without copies or an index past them. Nothing is
    /// changed.
    pub fn genre_version_selection(&self, id: &str, index: i32) -> (r: Option<GenreVersionPick>)
        requires
            self.wf(),
        ensures
            r is Some <==> pick_exists(self.map(), id@, index),
            r matches Some(p) ==> {
                let vs = slot_of(self.map(), id@).versions->0@;
                &&& p.version_index == index
                &&& p.selected@ == vs[index as int].tracks@
                &&& crate::album_versions::rows_model(p.discs@) == crate::album_versions::spec_disc_rows(p.selected@)
                &&& p.versions@.len() == vs.len()
                &&& forall|i: int|
                    0 <= i < vs.len() ==> {
                        let ts = #[trigger] vs[i].tracks@;
                        &&& ts.len() == 0 ==> p.versions@[i].version@.len() == 0 && p.versions@[i].track_count == 0
                        &&& ts.len() > 0 ==> p.versions@[i].version@ == crate::local_names::spec_edition_descriptor(
                            ts[crate::album_versions::best_track(ts)].group_title@,
                        ) && p.versions@[i].track_count == ts.len() as u32
                    }
            },
    {
        proof {
            lemma_key_map(self.entries@);
        }
        if index < 0 {
            return None;
        }
        let k = match self.position(id) {
            Some(k) => k,
            None => return None,
        };
        let vs = match &self.entries[k].slot.versions {
            Some(vs) => vs,
            None => return None,
        };
        let idx = index as usize;
        if idx >= vs.len() {
            return None;
        }
        let selected = copy_rows(&vs[idx].tracks);
        let discs = disc_rows(&selected);
        let versions = versions_info(vs);
        Some(GenreVersionPick { version_index: idx, versions, discs, selected })
    }

    /// The copy switch of generation `generation` publishes the rows and the
    /// document of its copy, while it is the album's latest (`current`).
    pub fn commit_genre_version(&mut self, id: String, generation: u64, selected: Vec<VersionTrack>, doc: String) -> (current: bool)
        requires
            old(self).wf(),
        ensures
            final(self).wf(),
            current == version_current(old(self).map(), id@, generation),
            current ==> final(self).map() == switched(old(self).map(), id@, selected, doc),
            !current ==> final(self).map() == old(self).map(),
    {
        let ghost m = self.map();
        let ghost sel0 = selected;
        let ghost doc0 = doc;
        let at = self.position(id.as_str());
        if at.is_none() {
            return false;
        }
        proof {
            lemma_key_map(self.entries@);
            let i = at->0;
            assert(self.map()[self.entries@[i as int].album_id@] == self.entries@[i as int].slot);
            assert(m.contains_key(id@));
        }
        let mut slot = self.take(id.as_str());
        let current = match slot.version_generation {
            Some(g) => g == generation,
            None => false,
        };
        if current {
            slot.selected = Some(selected);
            slot.doc = Some(doc);
        }
        proof {
            lemma_reinsert(m, id@, slot);
            if current {
                assert(m.remove(id@).insert(id@, slot) =~= switched(m, id@, sel0, doc0));
            } else {
                assert(m.remove(id@).insert(id@, slot) =~= m);
            }
        }
        self.put(id, slot);
        current
    }
}

/// The rows of the first copy, the one a load shows; none when the album
/// has no copy.
pub fn first_version_rows(versions: &Vec<AlbumVersionGroup>) -> (r: Vec<VersionTrack>)
    ensures
        versions@.len() > 0 ==> r@ == versions@[0].tracks@,
        versions@.len() == 0 ==> r@.len() == 0,
{
    if versions.len() > 0 {
        copy_rows(&versions[0].tracks)
    } else {
        Vec::new()
    }
}

fn string_copy(s: &String) -> (r: String)
    ensures
        r == *s,
{
    s.clone()
}

/// A finished load that found copies serves the next request under its
/// filter from the document it built, and shows the copies it found.
pub proof fn lemma_completed_load_is_served(
    m: Map<Seq<char>, GenreSlot>,
    id: Seq<char>,
    filter: String,
    all_tracks: Vec<VersionTrack>,
    versions: Vec<AlbumVersionGroup>,
    selected: Vec<VersionTrack>,
    doc: String,
)
    requires
        versions@.len() > 0,
    ensures
        request_outcome(completed(m, id, filter, all_tracks, versions, selected, doc), id, filter@)
            == GenreRequest::Cached(doc),
        slot_of(completed(m, id, filter, all_tracks, versions, selected, doc), id).versions == Some(versions),
        !load_current(completed(m, id, filter, all_tracks, versions, selected, doc), id, filter@),
{
}

/// A load started under another filter supersedes the one under way: the
/// older load no longer publishes.
pub proof fn lemma_refiltered_load_supersedes(m: Map<Seq<char>, GenreSlot>, id: Seq<char>, older: Seq<char>, newer: String)
    requires
        older != newer@,
        request_outcome(m, id, newer@) is Spawn,
    ensures
        !load_current(requested(m, id, newer), id, older),
        load_current(requested(m, id, newer), id, newer@),
{
}

/// Of two copy switches of one album, only the later publishes; and a load
/// that starts after a copy switch keeps that switch from publishing over
/// the new document.
pub proof fn lemma_superseded_switch_refused(m: Map<Seq<char>, GenreSlot>, id: Seq<char>, filter: String)
    ensures
        ({
            let g1 = wrap_next(generation_of(slot_of(m, id)));
            let m1 = bumped(m, id);
            &&& version_current(m1, id, g1)
            &&& !version_current(bumped(m1, id), id, g1)
            &&& !version_current(requested(m1, id, filter), id, g1)
        }),
{
}

} // verus!
