use vstd::prelude::*;
use crate::local_names::{edition_descriptor, spec_edition_descriptor};
use crate::text::{chars_lt, chars_of, decimal, lex_lt, push_decimal, str_equals, str_is_empty};

verus! {

/// One track of a local album, as the version picker reads it.
#[derive(Clone, Debug, PartialEq, Eq)]
pub struct VersionTrack {
    pub id: i64,
    /// The source directory the track's copy lives in.
    pub group_key: String,
    pub disc_number: Option<u32>,
    pub track_number: Option<u32>,
    /// The media quality rank: tier, then bit depth, then sample rate;
    /// higher is better.
    pub quality_tier: u8,
    pub bit_depth: u32,
    pub sample_rate: u64,
    /// The album title of the track's directory group.
    pub group_title: String,
    /// The library source the track came from, if any.
    pub source: Option<String>,
    /// The cover of the whole collection (box set) the track belongs to.
    pub collection_artwork_path: Option<String>,
    /// The track's own cover.
    pub artwork_path: Option<String>,
}

/// A track's quality rank as a tuple.
pub open spec fn rank_of(t: VersionTrack) -> (u8, u32, u64) {
    (t.quality_tier, t.bit_depth, t.sample_rate)
}

impl VersionTrack {
    pub fn duplicate(&self) -> (r: VersionTrack)
        ensures
            r == *self,
    {
        VersionTrack {
            id: self.id,
            group_key: self.group_key.clone(),
            disc_number: self.disc_number,
            track_number: self.track_number,
            quality_tier: self.quality_tier,
            bit_depth: self.bit_depth,
            sample_rate: self.sample_rate,
            group_title: self.group_title.clone(),
            source: self.source.clone(),
            collection_artwork_path: self.collection_artwork_path.clone(),
            artwork_path: self.artwork_path.clone(),
        }
    }
}

/// One physical copy of the album: its directory and its tracks.
#[derive(Clone, Debug, PartialEq, Eq)]
pub struct AlbumVersionGroup {
    pub dir: String,
    pub tracks: Vec<VersionTrack>,
}

// ---------------------------------------------------------------------------
// Grouping by directory
// ---------------------------------------------------------------------------

pub type Groups = Seq<(Seq<char>, Seq<VersionTrack>)>;

/// The index of the first group of directory `key`, or -1.
pub open spec fn dir_index(g: Groups, key: Seq<char>) -> int
    decreases g.len(),
{
    if g.len() == 0 {
        -1
    } else {
        let k = dir_index(g.drop_last(), key);
        if k >= 0 {
            k
        } else if g.last().0 == key {
            g.len() - 1
        } else {
            -1
        }
    }
}

/// One group per directory, in first-appearance order, tracks in order.
pub open spec fn group_by_dir(s: Seq<VersionTrack>) -> Groups
    decreases s.len(),
{
    if s.len() == 0 {
        Seq::empty()
    } else {
        let g = group_by_dir(s.drop_last());
        let x = s.last();
        let k = dir_index(g, x.group_key@);
        if k < 0 {
            g.push((x.group_key@, seq![x]))
        } else {
            g.update(k, (g[k].0, g[k].1.push(x)))
        }
    }
}

proof fn lemma_dir_index(g: Groups, key: Seq<char>)
    ensures
        -1 <= dir_index(g, key) < g.len(),
        dir_index(g, key) == -1 ==> forall|i: int| 0 <= i < g.len() ==> (#[trigger] g[i]).0 != key,
        dir_index(g, key) >= 0 ==> g[dir_index(g, key)].0 == key && forall|i: int|
            0 <= i < dir_index(g, key) ==> (#[trigger] g[i]).0 != key,
    decreases g.len(),
{
    if g.len() > 0 {
        lemma_dir_index(g.drop_last(), key);
        let t = g.drop_last();
        assert forall|i: int| 0 <= i < t.len() implies t[i] == g[i] by {}
    }
}

pub open spec fn group_model(v: AlbumVersionGroup) -> (Seq<char>, Seq<VersionTrack>) {
    (v.dir@, v.tracks@)
}

pub open spec fn groups_model(s: Seq<AlbumVersionGroup>) -> Groups {
    s.map_values(|v: AlbumVersionGroup| group_model(v))
}

fn group_tracks(tracks: &Vec<VersionTrack>) -> (r: Vec<AlbumVersionGroup>)
    ensures
        groups_model(r@) == group_by_dir(tracks@),
{
    let mut groups: Vec<AlbumVersionGroup> = Vec::new();
    let mut i: usize = 0;
    while i < tracks.len()
        invariant
            0 <= i <= tracks@.len(),
            groups_model(groups@) == group_by_dir(tracks@.take(i as int)),
        decreases tracks@.len() - i,
    {
        let x = tracks[i].duplicate();
        let ghost g = groups_model(groups@);
        proof {
            lemma_dir_index(g, x.group_key@);
            assert(tracks@.take(i + 1).drop_last() =~= tracks@.take(i as int));
            assert(tracks@.take(i + 1).last() == tracks@[i as int]);
        }
        let mut k: usize = 0;
        while k < groups.len() && groups[k].dir != x.group_key
            invariant
                0 <= k <= groups@.len(),
                g == groups_model(groups@),
                forall|m: int| 0 <= m < k ==> (#[trigger] g[m]).0 != x.group_key@,
            decreases groups@.len() - k,
        {
            k = k + 1;
        }
        if k == groups.len() {
            assert(dir_index(g, x.group_key@) == -1);
            let dir = x.group_key.clone();
            let mut ts: Vec<VersionTrack> = Vec::new();
            ts.push(x);
            groups.push(AlbumVersionGroup { dir, tracks: ts });
            proof {
                assert(groups_model(groups@) =~= g.push((x.group_key@, seq![x])));
            }
        } else {
            assert(g[k as int].0 == x.group_key@);
            let ghost r = dir_index(g, x.group_key@);
            proof {
                if r < k {
                    assert(g[r].0 != x.group_key@);
                }
            }
            assert(r == k);
            let mut grp = groups.remove(k);
            grp.tracks.push(x);
            groups.insert(k, grp);
            proof {
                assert(groups_model(groups@) =~= g.update(
                    k as int,
                    (g[k as int].0, g[k as int].1.push(x)),
                ));
            }
        }
        i = i + 1;
    }
    proof {
        assert(tracks@.take(i as int) =~= tracks@);
    }
    groups
}

// ---------------------------------------------------------------------------
// Track order within a copy: (disc, track), discs default to 1, tracks to 0
// ---------------------------------------------------------------------------

pub open spec fn disc_of(t: VersionTrack) -> u32 {
    match t.disc_number {
        Some(d) => d,
        None => 1,
    }
}

pub open spec fn number_of(t: VersionTrack) -> u32 {
    match t.track_number {
        Some(n) => n,
        None => 0,
    }
}

/// `x` comes strictly before `y` in (disc, track) order.
pub open spec fn pos_before(x: VersionTrack, y: VersionTrack) -> bool {
    disc_of(x) < disc_of(y) || (disc_of(x) == disc_of(y) && number_of(x) < number_of(y))
}

pub open spec fn insert_by_pos(s: Seq<VersionTrack>, x: VersionTrack) -> Seq<VersionTrack>
    decreases s.len(),
{
    if s.len() == 0 {
        seq![x]
    } else if pos_before(x, s.last()) {
        insert_by_pos(s.drop_last(), x).push(s.last())
    } else {
        s.push(x)
    }
}

/// The stable (disc, track) sort of `sort_by_key`.
pub open spec fn sorted_by_pos(s: Seq<VersionTrack>) -> Seq<VersionTrack>
    decreases s.len(),
{
    if s.len() == 0 {
        s
    } else {
        insert_by_pos(sorted_by_pos(s.drop_last()), s.last())
    }
}

proof fn lemma_insert_pos_at(s: Seq<VersionTrack>, x: VersionTrack, j: int)
    requires
        0 <= j <= s.len(),
        forall|k: int| j <= k < s.len() ==> pos_before(x, #[trigger] s[k]),
        j == 0 || !pos_before(x, s[j - 1]),
    ensures
        insert_by_pos(s, x) == s.take(j).push(x) + s.skip(j),
    decreases s.len(),
{
    if s.len() == 0 {
        assert(s.take(j).push(x) + s.skip(j) =~= seq![x]);
    } else if j == s.len() {
        assert(s.take(j) =~= s);
        assert(s.take(j).push(x) + s.skip(j) =~= s.push(x));
    } else {
        let t = s.drop_last();
        assert(pos_before(x, s[s.len() - 1]));
        assert forall|k: int| j <= k < t.len() implies pos_before(x, #[trigger] t[k]) by {
            assert(t[k] == s[k]);
        }
        if j > 0 {
            assert(t[j - 1] == s[j - 1]);
        }
        lemma_insert_pos_at(t, x, j);
        assert((t.take(j).push(x) + t.skip(j)).push(s.last()) =~= s.take(j).push(x) + s.skip(j));
    }
}

fn track_pos_before(x: &VersionTrack, y: &VersionTrack) -> (r: bool)
    ensures
        r == pos_before(*x, *y),
{
    let dx = match x.disc_number {
        Some(d) => d,
        None => 1,
    };
    let dy = match y.disc_number {
        Some(d) => d,
        None => 1,
    };
    let nx = match x.track_number {
        Some(n) => n,
        None => 0,
    };
    let ny = match y.track_number {
        Some(n) => n,
        None => 0,
    };
    dx < dy || (dx == dy && nx < ny)
}

fn sort_by_pos(items: Vec<VersionTrack>) -> (out: Vec<VersionTrack>)
    ensures
        out@ == sorted_by_pos(items@),
{
    let n = items.len();
    let mut out: Vec<VersionTrack> = Vec::new();
    let mut i: usize = 0;
    while i < n
        invariant
            n == items@.len(),
            0 <= i <= n,
            out@ == sorted_by_pos(items@.take(i as int)),
        decreases n - i,
    {
        let x = items[i].duplicate();
        let mut j: usize = out.len();
        while j > 0 && track_pos_before(&x, &out[j - 1])
            invariant
                0 <= j <= out@.len(),
                forall|k: int| j <= k < out@.len() ==> pos_before(x, #[trigger] out@[k]),
            decreases j,
        {
            j = j - 1;
        }
        proof {
            lemma_insert_pos_at(out@, x, j as int);
            assert(items@.take(i + 1).drop_last() =~= items@.take(i as int));
            assert(items@.take(i + 1).last() == items@[i as int]);
        }
        out.insert(j, x);
        proof {
            assert(out@ =~= sorted_by_pos(items@.take(i + 1)));
        }
        i = i + 1;
    }
    proof {
        assert(items@.take(n as int) =~= items@);
    }
    out
}

// ---------------------------------------------------------------------------
// Copy order: best quality first, then more tracks, then directory
// ---------------------------------------------------------------------------

/// Tuple order on quality ranks.
pub open spec fn rank_lt(a: (u8, u32, u64), b: (u8, u32, u64)) -> bool {
    a.0 < b.0 || (a.0 == b.0 && (a.1 < b.1 || (a.1 == b.1 && a.2 < b.2)))
}

/// The best rank among the tracks, (0, 0, 0) for none.
pub open spec fn best_rank(s: Seq<VersionTrack>) -> (u8, u32, u64)
    decreases s.len(),
{
    if s.len() == 0 {
        (0, 0, 0)
    } else {
        let r = best_rank(s.drop_last());
        if rank_lt(r, rank_of(s.last())) {
            rank_of(s.last())
        } else {
            r
        }
    }
}

/// Copy `a` is listed before copy `b`: a better best rank, else more
/// tracks, else the smaller directory key.
pub open spec fn version_before(a: (Seq<char>, Seq<VersionTrack>), b: (Seq<char>, Seq<VersionTrack>)) -> bool {
    let ra = best_rank(a.1);
    let rb = best_rank(b.1);
    rank_lt(rb, ra) || (ra == rb && (a.1.len() > b.1.len() || (a.1.len() == b.1.len() && lex_lt(
        a.0,
        b.0,
    ))))
}

pub open spec fn insert_version(s: Groups, x: (Seq<char>, Seq<VersionTrack>)) -> Groups
    decreases s.len(),
{
    if s.len() == 0 {
        seq![x]
    } else if version_before(x, s.last()) {
        insert_version(s.drop_last(), x).push(s.last())
    } else {
        s.push(x)
    }
}

pub open spec fn sorted_versions(s: Groups) -> Groups
    decreases s.len(),
{
    if s.len() == 0 {
        s
    } else {
        insert_version(sorted_versions(s.drop_last()), s.last())
    }
}

proof fn lemma_insert_version_at(s: Groups, x: (Seq<char>, Seq<VersionTrack>), j: int)
    requires
        0 <= j <= s.len(),
        forall|k: int| j <= k < s.len() ==> version_before(x, #[trigger] s[k]),
        j == 0 || !version_before(x, s[j - 1]),
    ensures
        insert_version(s, x) == s.take(j).push(x) + s.skip(j),
    decreases s.len(),
{
    if s.len() == 0 {
        assert(s.take(j).push(x) + s.skip(j) =~= seq![x]);
    } else if j == s.len() {
        assert(s.take(j) =~= s);
        assert(s.take(j).push(x) + s.skip(j) =~= s.push(x));
    } else {
        let t = s.drop_last();
        assert(version_before(x, s[s.len() - 1]));
        assert forall|k: int| j <= k < t.len() implies version_before(x, #[trigger] t[k]) by {
            assert(t[k] == s[k]);
        }
        if j > 0 {
            assert(t[j - 1] == s[j - 1]);
        }
        lemma_insert_version_at(t, x, j);
        assert((t.take(j).push(x) + t.skip(j)).push(s.last()) =~= s.take(j).push(x) + s.skip(j));
    }
}

fn best_rank_of(tracks: &Vec<VersionTrack>) -> (r: (u8, u32, u64))
    ensures
        r == best_rank(tracks@),
{
    let mut b0: u8 = 0;
    let mut b1: u32 = 0;
    let mut b2: u64 = 0;
    let mut i: usize = 0;
    while i < tracks.len()
        invariant
            0 <= i <= tracks@.len(),
            (b0, b1, b2) == best_rank(tracks@.take(i as int)),
        decreases tracks@.len() - i,
    {
        proof {
            assert(tracks@.take(i + 1).drop_last() =~= tracks@.take(i as int));
        }
        let t0 = tracks[i].quality_tier;
        let t1 = tracks[i].bit_depth;
        let t2 = tracks[i].sample_rate;
        if b0 < t0 || (b0 == t0 && (b1 < t1 || (b1 == t1 && b2 < t2))) {
            b0 = t0;
            b1 = t1;
            b2 = t2;
        }
        i = i + 1;
    }
    proof {
        assert(tracks@.take(i as int) =~= tracks@);
    }
    (b0, b1, b2)
}

fn group_before(a: &AlbumVersionGroup, b: &AlbumVersionGroup) -> (r: bool)
    ensures
        r == version_before(group_model(*a), group_model(*b)),
{
    let (a0, a1, a2) = best_rank_of(&a.tracks);
    let (b0, b1, b2) = best_rank_of(&b.tracks);
    let better = b0 < a0 || (b0 == a0 && (b1 < a1 || (b1 == a1 && b2 < a2)));
    if better {
        return true;
    }
    if a0 != b0 || a1 != b1 || a2 != b2 {
        return false;
    }
    if a.tracks.len() != b.tracks.len() {
        return a.tracks.len() > b.tracks.len();
    }
    let ka = chars_of(a.dir.as_str());
    let kb = chars_of(b.dir.as_str());
    chars_lt(&ka, &kb)
}

/// The copies of an album: the tracks grouped by source
/// directory in first-appearance order, each copy in (disc, track) order,
/// and the copies ordered best quality first, then by track count, then by
/// directory.
pub open spec fn spec_split_versions(tracks: Seq<VersionTrack>) -> Groups {
    let g = group_by_dir(tracks);
    sorted_versions(Seq::new(g.len(), |i: int| (g[i].0, sorted_by_pos(g[i].1))))
}

pub fn split_versions(tracks: &Vec<VersionTrack>) -> (r: Vec<AlbumVersionGroup>)
    ensures
        groups_model(r@) == spec_split_versions(tracks@),
{
    let grouped = group_tracks(tracks);
    let ghost g = group_by_dir(tracks@);
    let ghost h = Seq::new(g.len(), |i: int| (g[i].0, sorted_by_pos(g[i].1)));
    let mut rest = grouped;
    let mut out: Vec<AlbumVersionGroup> = Vec::new();
    let ghost mut done: nat = 0;
    while rest.len() > 0
        invariant
            done + rest@.len() == g.len(),
            h.len() == g.len(),
            forall|k: int| 0 <= k < g.len() ==> #[trigger] h[k] == (g[k].0, sorted_by_pos(g[k].1)),
            forall|k: int| 0 <= k < rest@.len() ==> group_model(#[trigger] rest@[k]) == g[done + k],
            groups_model(out@) == sorted_versions(h.take(done as int)),
        decreases rest@.len(),
    {
        let ghost before = rest@;
        let grp = rest.remove(0);
        proof {
            assert(group_model(grp) == g[done as int]);
            assert forall|k: int| 0 <= k < rest@.len() implies group_model(#[trigger] rest@[k])
                == g[done + 1 + k] by {
                assert(rest@[k] == before[k + 1]);
            }
        }
        let ghost gd = g[done as int];
        assert(grp.dir@ == gd.0 && grp.tracks@ == gd.1);
        let AlbumVersionGroup { dir, tracks: ts } = grp;
        assert(dir@ == gd.0);
        assert(ts@ == gd.1);
        let sorted = sort_by_pos(ts);
        let x = AlbumVersionGroup { dir, tracks: sorted };
        assert(h[done as int] == (gd.0, sorted_by_pos(gd.1)));
        assert(group_model(x) == h[done as int]);
        let ghost ov = groups_model(out@);
        let mut j: usize = out.len();
        while j > 0 && group_before(&x, &out[j - 1])
            invariant
                0 <= j <= out@.len(),
                ov == groups_model(out@),
                forall|k: int| j <= k < out@.len() ==> version_before(group_model(x), #[trigger] ov[k]),
            decreases j,
        {
            j = j - 1;
        }
        proof {
            lemma_insert_version_at(ov, group_model(x), j as int);
            assert(h.take((done + 1) as int).drop_last() =~= h.take(done as int));
            assert(h.take((done + 1) as int).last() == group_model(x));
        }
        out.insert(j, x);
        proof {
            assert(groups_model(out@) =~= ov.take(j as int).push(group_model(x)) + ov.skip(j as int));
            done = done + 1;
        }
    }
    proof {
        assert(h.take(done as int) =~= h);
    }
    out
}

// ---------------------------------------------------------------------------
// The open album's version picker
// ---------------------------------------------------------------------------

/// The album open in the album view: its copies and the one shown.
pub struct AlbumVersions {
    pub album_id: String,
    pub versions: Vec<AlbumVersionGroup>,
    pub index: usize,
}

impl AlbumVersions {
    pub fn new() -> (v: AlbumVersions)
        ensures
            v.album_id@.len() == 0,
            v.versions@.len() == 0,
            v.index == 0,
    {
        AlbumVersions { album_id: String::new(), versions: Vec::new(), index: 0 }
    }

    /// Open album `id` with its tracks: the copies are
    /// split and the best one is shown. An album without tracks has no copy
    /// and opens nothing (the result is `false`).
    pub fn open_versions(&mut self, id: String, tracks: &Vec<VersionTrack>) -> (opened: bool)
        ensures
            opened == (tracks@.len() > 0),
            opened ==> {
                &&& final(self).album_id@ == id@
                &&& groups_model(final(self).versions@) == spec_split_versions(tracks@)
                &&& final(self).index == 0
            },
            !opened ==> final(self).album_id@ == old(self).album_id@ && final(self).versions@
                == old(self).versions@ && final(self).index == old(self).index,
    {
        let versions = split_versions(tracks);
        if versions.len() == 0 {
            proof {
                if tracks@.len() > 0 {
                    lemma_split_nonempty(tracks@);
                }
            }
            return false;
        }
        proof {
            if tracks@.len() == 0 {
                assert(group_by_dir(tracks@).len() == 0);
                assert(spec_split_versions(tracks@).len() == 0);
            }
        }
        self.album_id = id;
        self.versions = versions;
        self.index = 0;
        true
    }

    /// The version picker: switch to copy `index`. A
    /// negative, out-of-range or already-shown index changes nothing; the
    /// result names the album to republish, when it has an id.
    pub fn select_version(&mut self, index: i32) -> (r: Option<(String, usize)>)
        ensures
            index < 0 || index as int >= old(self).versions@.len() || index as int == old(
                self,
            ).index ==> r is None && final(self).index == old(self).index,
            !(index < 0 || index as int >= old(self).versions@.len() || index as int == old(
                self,
            ).index) ==> {
                &&& final(self).index == index as usize
                &&& old(self).album_id@.len() == 0 ==> r is None
                &&& old(self).album_id@.len() > 0 ==> (r matches Some((a, i)) && a@ == old(
                    self,
                ).album_id@ && i == index as usize)
            },
            final(self).versions@ == old(self).versions@,
            final(self).album_id@ == old(self).album_id@,
    {
        if index < 0 {
            return None;
        }
        let i = index as usize;
        if i >= self.versions.len() || i == self.index {
            return None;
        }
        self.index = i;
        let idc = crate::text::chars_of(self.album_id.as_str());
        if idc.len() == 0 {
            return None;
        }
        Some((self.album_id.clone(), i))
    }

    /// The shown copy's source directory — what a tag editor edits; "" when
    /// none is shown.
    pub fn current_version_dir(&self) -> (r: String)
        ensures
            self.index < self.versions@.len() ==> r@ == self.versions@[self.index as int].dir@,
            self.index >= self.versions@.len() ==> r@.len() == 0,
    {
        if self.index < self.versions.len() {
            self.versions[self.index].dir.clone()
        } else {
            String::new()
        }
    }

    /// The shown copy's tracks; none when no copy is shown.
    pub fn current_version_tracks(&self) -> (r: Vec<VersionTrack>)
        ensures
            r@ == self.shown_tracks(),
    {
        if self.index < self.versions.len() {
            let src = &self.versions[self.index].tracks;
            let mut out: Vec<VersionTrack> = Vec::new();
            let mut i: usize = 0;
            while i < src.len()
                invariant
                    0 <= i <= src@.len(),
                    out@ == src@.take(i as int),
                decreases src@.len() - i,
            {
                out.push(src[i].duplicate());
                proof {
                    assert(out@ =~= src@.take(i + 1));
                }
                i = i + 1;
            }
            proof {
                assert(src@.take(i as int) =~= src@);
            }
            out
        } else {
            Vec::new()
        }
    }

    /// The shown copy's tracks, none when no copy is shown.
    pub open spec fn shown_tracks(&self) -> Seq<VersionTrack> {
        if self.index < self.versions@.len() {
            self.versions@[self.index as int].tracks@
        } else {
            Seq::empty()
        }
    }

    /// The tracks of disc `disc` of the shown copy, in order (a track with no
    /// disc number is on disc 1).
    pub fn current_disc_tracks(&self, disc: i32) -> (r: Vec<VersionTrack>)
        ensures
            r@ == on_disc(self.shown_tracks(), disc),
    {
        if self.index >= self.versions.len() {
            return Vec::new();
        }
        disc_tracks_of(&self.versions[self.index].tracks, disc)
    }
}

/// The tracks of `s` on disc `disc`, in order.
pub open spec fn on_disc(s: Seq<VersionTrack>, disc: i32) -> Seq<VersionTrack> {
    s.filter(|t: VersionTrack| disc_of(t) as i32 == disc)
}

fn disc_tracks_of(tracks: &Vec<VersionTrack>, disc: i32) -> (r: Vec<VersionTrack>)
    ensures
        r@ == on_disc(tracks@, disc),
{
    let mut out: Vec<VersionTrack> = Vec::new();
    let mut i: usize = 0;
    while i < tracks.len()
        invariant
            0 <= i <= tracks@.len(),
            out@ == on_disc(tracks@.take(i as int), disc),
        decreases tracks@.len() - i,
    {
        let d = match tracks[i].disc_number {
            Some(d) => d,
            None => 1,
        };
        proof {
            assert(tracks@.take(i + 1).drop_last() =~= tracks@.take(i as int));
            assert(tracks@.take(i + 1).last() == tracks@[i as int]);
            reveal(Seq::filter);
        }
        if d as i32 == disc {
            out.push(tracks[i].duplicate());
        }
        i = i + 1;
    }
    proof {
        assert(tracks@.take(i as int) =~= tracks@);
    }
    out
}

/// What a disc header menu asks the player to do.
pub enum DiscAction {
    /// Nothing: the disc has no track or the action is unknown.
    Nothing,
    /// Play these tracks from the first, shuffled or not.
    Play(Vec<VersionTrack>, bool),
    /// Add these tracks to the queue ("next", "later" or "queue").
    Enqueue(Vec<VersionTrack>, String),
}

/// The actions a disc header menu knows.
pub open spec fn is_play_word(a: Seq<char>) -> bool {
    a == "play"@ || a == "shuffle"@
}

pub open spec fn is_enqueue_word(a: Seq<char>) -> bool {
    a == "next"@ || a == "later"@ || a == "queue"@
}

/// What a disc header menu gives for `tracks` and `action`.
pub open spec fn disc_action_for(tracks: Seq<VersionTrack>, action: Seq<char>, r: DiscAction) -> bool {
    if tracks.len() == 0 || !(is_play_word(action) || is_enqueue_word(action)) {
        r is Nothing
    } else if is_play_word(action) {
        r matches DiscAction::Play(ts, shuffle) && ts@ == tracks && shuffle == (action == "shuffle"@)
    } else {
        r matches DiscAction::Enqueue(ts, mode) && ts@ == tracks && mode@ == action
    }
}

fn dispatch_disc_action(tracks: Vec<VersionTrack>, action: &str) -> (r: DiscAction)
    ensures
        disc_action_for(tracks@, action@, r),
{
    if tracks.len() == 0 {
        return DiscAction::Nothing;
    }
    if str_equals(action, "play") || str_equals(action, "shuffle") {
        let shuffle = str_equals(action, "shuffle");
        DiscAction::Play(tracks, shuffle)
    } else if str_equals(action, "next") || str_equals(action, "later") || str_equals(
        action,
        "queue",
    ) {
        DiscAction::Enqueue(tracks, String::from_str(action))
    } else {
        DiscAction::Nothing
    }
}

impl AlbumVersions {
    /// The "Disc N" header menu over this disc's tracks only.
    pub fn disc_action(&self, disc: i32, action: &str) -> (r: DiscAction)
        ensures
            disc_action_for(on_disc(self.shown_tracks(), disc), action@, r),
    {
        dispatch_disc_action(self.current_disc_tracks(disc), action)
    }

    /// An album or row action over the shown copy:
    /// never the whole logical album, whose copies would all be queued.
    pub fn selected_album_action(&self, action: &str, track_id: Option<i64>) -> (r: AlbumAction)
        ensures
            album_action_for(self.shown_tracks(), action@, track_id, r),
    {
        album_action(self.current_version_tracks(), action, track_id)
    }
}

/// What an album header or row menu asks the player to do.
pub enum AlbumAction {
    /// Nothing: no row, or an unknown action.
    Nothing,
    /// Play these tracks from the given position, shuffled or not.
    Play(Vec<VersionTrack>, usize, bool),
    /// Add these tracks to the queue ("next", "later" or "queue").
    Enqueue(Vec<VersionTrack>, String),
}

/// The position of the first track with id `id`, or -1.
pub open spec fn position_of(s: Seq<VersionTrack>, id: i64) -> int
    decreases s.len(),
{
    if s.len() == 0 {
        -1
    } else {
        let k = position_of(s.drop_last(), id);
        if k >= 0 {
            k
        } else if s.last().id == id {
            s.len() - 1
        } else {
            -1
        }
    }
}

/// Where playback starts: the row clicked, when it is among the tracks,
/// else the first track.
pub open spec fn start_of(s: Seq<VersionTrack>, track_id: Option<i64>) -> int {
    match track_id {
        Some(id) => if position_of(s, id) >= 0 {
            position_of(s, id)
        } else {
            0
        },
        None => 0,
    }
}

/// What an album action gives for `tracks`, `action` and the clicked row.
pub open spec fn album_action_for(
    tracks: Seq<VersionTrack>,
    action: Seq<char>,
    track_id: Option<i64>,
    r: AlbumAction,
) -> bool {
    if tracks.len() == 0 || !(is_play_word(action) || is_enqueue_word(action)) {
        r is Nothing
    } else if is_play_word(action) {
        r matches AlbumAction::Play(ts, start, shuffle) && ts@ == tracks && start == start_of(
            tracks,
            track_id,
        ) && shuffle == (action == "shuffle"@)
    } else {
        r matches AlbumAction::Enqueue(ts, mode) && ts@ == tracks && mode@ == action
    }
}

proof fn lemma_position_of(s: Seq<VersionTrack>, id: i64)
    ensures
        -1 <= position_of(s, id) < s.len(),
        position_of(s, id) == -1 ==> forall|i: int| 0 <= i < s.len() ==> (#[trigger] s[i]).id != id,
        position_of(s, id) >= 0 ==> s[position_of(s, id)].id == id && forall|i: int|
            0 <= i < position_of(s, id) ==> (#[trigger] s[i]).id != id,
    decreases s.len(),
{
    if s.len() > 0 {
        lemma_position_of(s.drop_last(), id);
        let t = s.drop_last();
        assert forall|i: int| 0 <= i < t.len() implies t[i] == s[i] by {}
    }
}

fn find_position(tracks: &Vec<VersionTrack>, id: i64) -> (r: Option<usize>)
    ensures
        match r {
            Some(k) => k == position_of(tracks@, id),
            None => position_of(tracks@, id) == -1,
        },
{
    let mut i: usize = 0;
    while i < tracks.len()
        invariant
            0 <= i <= tracks@.len(),
            forall|k: int| 0 <= k < i ==> (#[trigger] tracks@[k]).id != id,
        decreases tracks@.len() - i,
    {
        if tracks[i].id == id {
            proof {
                lemma_position_of(tracks@, id);
                let p = position_of(tracks@, id);
                if p == -1 {
                    assert(tracks@[i as int].id != id);
                } else if p < i {
                    assert(tracks@[p].id != id);
                } else if p > i {
                    assert(tracks@[i as int].id != id);
                }
            }
            return Some(i);
        }
        i = i + 1;
    }
    proof {
        lemma_position_of(tracks@, id);
        let p = position_of(tracks@, id);
        if p >= 0 {
            assert(tracks@[p].id != id);
        }
    }
    None
}

fn album_action(tracks: Vec<VersionTrack>, action: &str, track_id: Option<i64>) -> (r: AlbumAction)
    ensures
        album_action_for(tracks@, action@, track_id, r),
{
    if tracks.len() == 0 {
        return AlbumAction::Nothing;
    }
    if str_equals(action, "play") || str_equals(action, "shuffle") {
        let start: usize = match track_id {
            Some(id) => match find_position(&tracks, id) {
                Some(k) => k,
                None => 0,
            },
            None => 0,
        };
        let shuffle = str_equals(action, "shuffle");
        AlbumAction::Play(tracks, start, shuffle)
    } else if str_equals(action, "next") || str_equals(action, "later") || str_equals(
        action,
        "queue",
    ) {
        AlbumAction::Enqueue(tracks, String::from_str(action))
    } else {
        AlbumAction::Nothing
    }
}

pub(crate) fn copy_rows(rows: &Vec<VersionTrack>) -> (copy: Vec<VersionTrack>)
    ensures
        copy@ == rows@,
{
    let mut copy: Vec<VersionTrack> = Vec::new();
    let mut i: usize = 0;
    while i < rows.len()
        invariant
            0 <= i <= rows@.len(),
            copy@ == rows@.take(i as int),
        decreases rows@.len() - i,
    {
        copy.push(rows[i].duplicate());
        proof {
            assert(copy@ =~= rows@.take(i + 1));
        }
        i = i + 1;
    }
    proof {
        assert(rows@.take(i as int) =~= rows@);
    }
    copy
}

// ---------------------------------------------------------------------------
// The albums expanded in the Genres browser
// ---------------------------------------------------------------------------

/// An album expanded in the Genres browser, with the rows of the copy it
/// shows.
pub struct GenreAlbum {
    pub album_id: String,
    pub rows: Vec<VersionTrack>,
}

/// The rows of the albums expanded in the Genres browser, by album id.
pub struct GenreDetails {
    pub albums: Vec<GenreAlbum>,
}

/// The rows kept for album `id`, if it is expanded.
pub open spec fn rows_for(s: Seq<GenreAlbum>, id: Seq<char>) -> Option<Seq<VersionTrack>>
    decreases s.len(),
{
    if s.len() == 0 {
        None
    } else if s.last().album_id@ == id {
        Some(s.last().rows@)
    } else {
        rows_for(s.drop_last(), id)
    }
}

/// Each album is kept once.
pub open spec fn genre_ids_unique(s: Seq<GenreAlbum>) -> bool {
    forall|i: int, j: int| 0 <= i < j < s.len() ==> (#[trigger] s[i]).album_id@ != (#[trigger] s[j]).album_id@
}

proof fn lemma_rows_for(s: Seq<GenreAlbum>, id: Seq<char>)
    requires
        genre_ids_unique(s),
    ensures
        rows_for(s, id) is None <==> forall|i: int| 0 <= i < s.len() ==> (#[trigger] s[i]).album_id@ != id,
        forall|i: int| 0 <= i < s.len() && (#[trigger] s[i]).album_id@ == id ==> rows_for(s, id) == Some(s[i].rows@),
    decreases s.len(),
{
    if s.len() > 0 {
        let t = s.drop_last();
        assert forall|a: int, b: int| 0 <= a < b < t.len() implies (#[trigger] t[a]).album_id@ != (
        #[trigger] t[b]).album_id@ by {
            assert(t[a] == s[a] && t[b] == s[b]);
        }
        lemma_rows_for(t, id);
        assert forall|i: int| 0 <= i < t.len() implies t[i] == s[i] by {}
        if s.last().album_id@ == id {
            assert forall|i: int| 0 <= i < s.len() && (#[trigger] s[i]).album_id@ == id implies rows_for(
                s,
                id,
            ) == Some(s[i].rows@) by {
                if i < s.len() - 1 {
                    assert(s[i].album_id@ != s[s.len() - 1].album_id@);
                }
            }
        }
    }
}

impl GenreDetails {
    pub open spec fn wf(&self) -> bool {
        genre_ids_unique(self.albums@)
    }

    pub fn new() -> (d: GenreDetails)
        ensures
            d.wf(),
            forall|k: Seq<char>| #[trigger] rows_for(d.albums@, k) is None,
    {
        GenreDetails { albums: Vec::new() }
    }

    fn position(&self, album_id: &str) -> (r: Option<usize>)
        requires
            self.wf(),
        ensures
            match r {
                Some(i) => i < self.albums@.len() && self.albums@[i as int].album_id@ == album_id@,
                None => forall|i: int| 0 <= i < self.albums@.len() ==> (#[trigger] self.albums@[i]).album_id@ != album_id@,
            },
    {
        let mut i: usize = 0;
        while i < self.albums.len()
            invariant
                0 <= i <= self.albums@.len(),
                forall|k: int| 0 <= k < i ==> (#[trigger] self.albums@[k]).album_id@ != album_id@,
            decreases self.albums@.len() - i,
        {
            if str_equals(self.albums[i].album_id.as_str(), album_id) {
                return Some(i);
            }
            i = i + 1;
        }
        None
    }

    /// Keep `rows` as the rows of album `album_id`, replacing earlier ones.
    pub fn insert(&mut self, album_id: String, rows: Vec<VersionTrack>)
        requires
            old(self).wf(),
        ensures
            final(self).wf(),
            forall|k: Seq<char>| #[trigger] rows_for(final(self).albums@, k) == if k == album_id@ {
                Some(rows@)
            } else {
                rows_for(old(self).albums@, k)
            },
    {
        let ghost s = self.albums@;
        let ghost id = album_id@;
        let ghost rv = rows@;
        match self.position(album_id.as_str()) {
            Some(i) => {
                let _ = self.albums.remove(i);
                proof {
                    let r = self.albums@;
                    assert forall|a: int, b: int| 0 <= a < b < r.len() implies (#[trigger] r[a]).album_id@
                        != (#[trigger] r[b]).album_id@ by {
                        let sa = if a < i { a } else { a + 1 };
                        let sb = if b < i { b } else { b + 1 };
                        assert(r[a] == s[sa] && r[b] == s[sb]);
                    }
                    assert forall|k: Seq<char>| k != id implies #[trigger] rows_for(r, k) == rows_for(s, k) by {
                        lemma_rows_for(s, k);
                        lemma_rows_for(r, k);
                        if rows_for(s, k) is Some {
                            let j = choose|j: int| 0 <= j < s.len() && (#[trigger] s[j]).album_id@ == k;
                            assert(j != i);
                            if j < i {
                                assert(r[j] == s[j]);
                            } else {
                                assert(r[j - 1] == s[j]);
                            }
                        } else {
                            assert forall|j: int| 0 <= j < r.len() implies (#[trigger] r[j]).album_id@ != k by {
                                if j < i {
                                    assert(r[j] == s[j]);
                                } else {
                                    assert(r[j] == s[j + 1]);
                                }
                            }
                        }
                    }
                    assert forall|j: int| 0 <= j < r.len() implies (#[trigger] r[j]).album_id@ != id by {
                        if j < i {
                            assert(r[j] == s[j]);
                            assert(s[j].album_id@ != s[i as int].album_id@);
                        } else {
                            assert(r[j] == s[j + 1]);
                            assert(s[i as int].album_id@ != s[j + 1].album_id@);
                        }
                    }
                }
            },
            None => {},
        }
        let ghost r = self.albums@;
        proof {
            assert forall|k: Seq<char>| k != id implies #[trigger] rows_for(r, k) == rows_for(s, k) by {
            }
        }
        self.albums.push(GenreAlbum { album_id, rows });
        proof {
            let t = self.albums@;
            assert(t.drop_last() =~= r);
            assert(t.last().album_id@ == id);
            assert(t.last().rows@ == rv);
            assert forall|k: Seq<char>| #[trigger] rows_for(t, k) == if k == id {
                Some(rv)
            } else {
                rows_for(s, k)
            } by {
                if k != id {
                    assert(rows_for(r, k) == rows_for(s, k));
                }
            }
            assert forall|a: int, b: int| 0 <= a < b < t.len() implies (#[trigger] t[a]).album_id@ != (
            #[trigger] t[b]).album_id@ by {
                if b == t.len() - 1 {
                    assert(t[a] == r[a]);
                } else {
                    assert(t[a] == r[a] && t[b] == r[b]);
                }
            }
        }
    }

    /// Forget album `album_id`.
    pub fn remove(&mut self, album_id: &str)
        requires
            old(self).wf(),
        ensures
            final(self).wf(),
            forall|k: Seq<char>| #[trigger] rows_for(final(self).albums@, k) == if k == album_id@ {
                None
            } else {
                rows_for(old(self).albums@, k)
            },
    {
        let ghost s = self.albums@;
        match self.position(album_id) {
            Some(i) => {
                let _ = self.albums.remove(i);
                proof {
                    let r = self.albums@;
                    assert forall|a: int, b: int| 0 <= a < b < r.len() implies (#[trigger] r[a]).album_id@
                        != (#[trigger] r[b]).album_id@ by {
                        let sa = if a < i { a } else { a + 1 };
                        let sb = if b < i { b } else { b + 1 };
                        assert(r[a] == s[sa] && r[b] == s[sb]);
                    }
                    assert forall|k: Seq<char>| #[trigger] rows_for(r, k) == if k == album_id@ {
                        None
                    } else {
                        rows_for(s, k)
                    } by {
                        lemma_rows_for(s, k);
                        lemma_rows_for(r, k);
                        if k == album_id@ {
                            assert forall|j: int| 0 <= j < r.len() implies (#[trigger] r[j]).album_id@ != k by {
                                if j < i {
                                    assert(r[j] == s[j]);
                                    assert(s[j].album_id@ != s[i as int].album_id@);
                                } else {
                                    assert(r[j] == s[j + 1]);
                                    assert(s[i as int].album_id@ != s[j + 1].album_id@);
                                }
                            }
                        } else if rows_for(s, k) is Some {
                            let j = choose|j: int| 0 <= j < s.len() && (#[trigger] s[j]).album_id@ == k;
                            assert(j != i);
                            if j < i {
                                assert(r[j] == s[j]);
                            } else {
                                assert(r[j - 1] == s[j]);
                            }
                        } else {
                            assert forall|j: int| 0 <= j < r.len() implies (#[trigger] r[j]).album_id@ != k by {
                                if j < i {
                                    assert(r[j] == s[j]);
                                } else {
                                    assert(r[j] == s[j + 1]);
                                }
                            }
                        }
                    }
                }
            },
            None => {
                proof {
                    assert forall|k: Seq<char>| #[trigger] rows_for(s, k) == if k == album_id@ {
                        None
                    } else {
                        rows_for(s, k)
                    } by {
                        lemma_rows_for(s, k);
                    }
                }
            },
        }
    }

    fn rows_of(&self, album_id: &str) -> (r: Vec<VersionTrack>)
        requires
            self.wf(),
        ensures
            r@ == match rows_for(self.albums@, album_id@) {
                Some(rs) => rs,
                None => Seq::empty(),
            },
    {
        proof {
            lemma_rows_for(self.albums@, album_id@);
        }
        match self.position(album_id) {
            Some(i) => copy_rows(&self.albums[i].rows),
            None => Vec::new(),
        }
    }

    /// The tracks of disc `disc` of an expanded album;
    /// none for an album that is not expanded.
    pub fn genre_disc_tracks(&self, album_id: &str, disc: i32) -> (r: Vec<VersionTrack>)
        requires
            self.wf(),
        ensures
            r@ == match rows_for(self.albums@, album_id@) {
                Some(rs) => on_disc(rs, disc),
                None => Seq::empty(),
            },
    {
        let rows = self.rows_of(album_id);
        let r = disc_tracks_of(&rows, disc);
        proof {
            if rows_for(self.albums@, album_id@) is None {
                assert(rows@ =~= Seq::<VersionTrack>::empty());
                assert(on_disc(rows@, disc) =~= Seq::<VersionTrack>::empty());
            }
        }
        r
    }

    /// The "Disc N" menu of an album expanded in the Genres browser
    ///: the same actions over that disc of the copy
    /// the browser shows for the album, and never another album's.
    pub fn genre_disc_action(&self, album_id: &str, disc: i32, action: &str) -> (r: DiscAction)
        requires
            self.wf(),
        ensures
            disc_action_for(
                match rows_for(self.albums@, album_id@) {
                    Some(rs) => on_disc(rs, disc),
                    None => Seq::empty(),
                },
                action@,
                r,
            ),
    {
        dispatch_disc_action(self.genre_disc_tracks(album_id, disc), action)
    }

    /// An album or row action for an album expanded in the Genres browser
    ///, over the copy the browser shows.
    pub fn genre_album_action(&self, album_id: &str, action: &str, track_id: Option<i64>) -> (r: AlbumAction)
        requires
            self.wf(),
        ensures
            album_action_for(
                match rows_for(self.albums@, album_id@) {
                    Some(rs) => rs,
                    None => Seq::empty(),
                },
                action@,
                track_id,
                r,
            ),
    {
        album_action(self.rows_of(album_id), action, track_id)
    }
}

// ---------------------------------------------------------------------------
// Disc dividers of a multi-disc copy
// ---------------------------------------------------------------------------

/// The divider of one disc of a multi-disc copy: the disc and the id of the
/// disc's first track, whose name and cover label the divider.
#[derive(Clone, Copy, Debug, PartialEq, Eq, Structural)]
pub struct DiscRow {
    pub disc: u32,
    pub track_id: i64,
}

pub open spec fn rows_model(s: Seq<DiscRow>) -> Seq<(u32, i64)> {
    s.map_values(|r: DiscRow| (r.disc, r.track_id))
}

/// Some entry of `m` is for disc `d`.
pub open spec fn has_disc(m: Seq<(u32, i64)>, d: u32) -> bool {
    exists|j: int| 0 <= j < m.len() && (#[trigger] m[j]).0 == d
}

/// Insert `x` into `m`, kept in ascending disc order.
pub open spec fn insert_disc(m: Seq<(u32, i64)>, x: (u32, i64)) -> Seq<(u32, i64)>
    decreases m.len(),
{
    if m.len() == 0 {
        seq![x]
    } else if x.0 < m.last().0 {
        insert_disc(m.drop_last(), x).push(m.last())
    } else {
        m.push(x)
    }
}

/// Each disc with the id of its first track, in ascending disc order.
pub open spec fn disc_firsts(s: Seq<VersionTrack>) -> Seq<(u32, i64)>
    decreases s.len(),
{
    if s.len() == 0 {
        Seq::empty()
    } else {
        let m = disc_firsts(s.drop_last());
        let d = disc_of(s.last());
        if has_disc(m, d) {
            m
        } else {
            insert_disc(m, (d, s.last().id))
        }
    }
}

/// The dividers of a copy: one per disc, in disc order, and
/// none for a copy on a single disc.
pub open spec fn spec_disc_rows(s: Seq<VersionTrack>) -> Seq<(u32, i64)> {
    if disc_firsts(s).len() < 2 {
        Seq::empty()
    } else {
        disc_firsts(s)
    }
}

proof fn lemma_insert_disc_at(m: Seq<(u32, i64)>, x: (u32, i64), j: int)
    requires
        0 <= j <= m.len(),
        forall|k: int| j <= k < m.len() ==> x.0 < (#[trigger] m[k]).0,
        j == 0 || !(x.0 < m[j - 1].0),
    ensures
        insert_disc(m, x) == m.take(j).push(x) + m.skip(j),
    decreases m.len(),
{
    if m.len() == 0 {
        assert(m.take(j).push(x) + m.skip(j) =~= seq![x]);
    } else if j == m.len() {
        assert(m.take(j) =~= m);
        assert(m.take(j).push(x) + m.skip(j) =~= m.push(x));
    } else {
        let t = m.drop_last();
        assert(x.0 < m[m.len() - 1].0);
        assert forall|k: int| j <= k < t.len() implies x.0 < (#[trigger] t[k]).0 by {
            assert(t[k] == m[k]);
        }
        if j > 0 {
            assert(t[j - 1] == m[j - 1]);
        }
        lemma_insert_disc_at(t, x, j);
        assert((t.take(j).push(x) + t.skip(j)).push(m.last()) =~= m.take(j).push(x) + m.skip(j));
    }
}

pub fn disc_rows(tracks: &Vec<VersionTrack>) -> (r: Vec<DiscRow>)
    ensures
        rows_model(r@) == spec_disc_rows(tracks@),
{
    let mut m: Vec<DiscRow> = Vec::new();
    let mut i: usize = 0;
    while i < tracks.len()
        invariant
            0 <= i <= tracks@.len(),
            rows_model(m@) == disc_firsts(tracks@.take(i as int)),
        decreases tracks@.len() - i,
    {
        let d = match tracks[i].disc_number {
            Some(d) => d,
            None => 1,
        };
        let id = tracks[i].id;
        let ghost mm = rows_model(m@);
        proof {
            assert(tracks@.take(i + 1).drop_last() =~= tracks@.take(i as int));
            assert(tracks@.take(i + 1).last() == tracks@[i as int]);
        }
        let mut k: usize = 0;
        while k < m.len() && m[k].disc != d
            invariant
                0 <= k <= m@.len(),
                mm == rows_model(m@),
                forall|j: int| 0 <= j < k ==> (#[trigger] mm[j]).0 != d,
            decreases m@.len() - k,
        {
            k = k + 1;
        }
        if k < m.len() {
            assert(mm[k as int].0 == d);
            assert(has_disc(mm, d));
        } else {
            assert(!has_disc(mm, d));
            let mut j: usize = m.len();
            while j > 0 && d < m[j - 1].disc
                invariant
                    0 <= j <= m@.len(),
                    mm == rows_model(m@),
                    forall|q: int| j <= q < m@.len() ==> d < (#[trigger] mm[q]).0,
                decreases j,
            {
                j = j - 1;
            }
            proof {
                lemma_insert_disc_at(mm, (d, id), j as int);
            }
            m.insert(j, DiscRow { disc: d, track_id: id });
            proof {
                assert(rows_model(m@) =~= mm.take(j as int).push((d, id)) + mm.skip(j as int));
            }
        }
        i = i + 1;
    }
    proof {
        assert(tracks@.take(i as int) =~= tracks@);
    }
    if m.len() < 2 {
        Vec::new()
    } else {
        m
    }
}

/// The position of the first track on disc `d`, or -1.
pub open spec fn first_on_disc(s: Seq<VersionTrack>, d: u32) -> int
    decreases s.len(),
{
    if s.len() == 0 {
        -1
    } else {
        let k = first_on_disc(s.drop_last(), d);
        if k >= 0 {
            k
        } else if disc_of(s.last()) == d {
            s.len() - 1
        } else {
            -1
        }
    }
}

pub open spec fn discs_ascending(m: Seq<(u32, i64)>) -> bool {
    forall|a: int, b: int| 0 <= a < b < m.len() ==> (#[trigger] m[a]).0 < (#[trigger] m[b]).0
}

proof fn lemma_first_on_disc(s: Seq<VersionTrack>, d: u32)
    ensures
        -1 <= first_on_disc(s, d) < s.len(),
        first_on_disc(s, d) == -1 ==> forall|i: int| 0 <= i < s.len() ==> disc_of(#[trigger] s[i]) != d,
        first_on_disc(s, d) >= 0 ==> disc_of(s[first_on_disc(s, d)]) == d && forall|i: int|
            0 <= i < first_on_disc(s, d) ==> disc_of(#[trigger] s[i]) != d,
    decreases s.len(),
{
    if s.len() > 0 {
        lemma_first_on_disc(s.drop_last(), d);
        let t = s.drop_last();
        assert forall|i: int| 0 <= i < t.len() implies t[i] == s[i] by {}
    }
}

/// Where `insert_disc` puts its entry.
pub open spec fn disc_slot(m: Seq<(u32, i64)>, d: u32) -> int
    decreases m.len(),
{
    if m.len() == 0 {
        0
    } else if d < m.last().0 {
        disc_slot(m.drop_last(), d)
    } else {
        m.len() as int
    }
}

proof fn lemma_insert_disc_shape(m: Seq<(u32, i64)>, x: (u32, i64))
    requires
        discs_ascending(m),
    ensures
        0 <= disc_slot(m, x.0) <= m.len(),
        insert_disc(m, x) == m.take(disc_slot(m, x.0)).push(x) + m.skip(disc_slot(m, x.0)),
        forall|k: int| disc_slot(m, x.0) <= k < m.len() ==> x.0 < (#[trigger] m[k]).0,
        forall|k: int| 0 <= k < disc_slot(m, x.0) ==> (#[trigger] m[k]).0 <= x.0,
    decreases m.len(),
{
    let p = disc_slot(m, x.0);
    if m.len() == 0 {
        assert(m.take(0).push(x) + m.skip(0) =~= seq![x]);
    } else if x.0 < m.last().0 {
        let t = m.drop_last();
        assert forall|a: int, b: int| 0 <= a < b < t.len() implies (#[trigger] t[a]).0 < (
        #[trigger] t[b]).0 by {
            assert(t[a] == m[a] && t[b] == m[b]);
        }
        lemma_insert_disc_shape(t, x);
        assert((t.take(p).push(x) + t.skip(p)).push(m.last()) =~= m.take(p).push(x) + m.skip(p));
        assert forall|k: int| p <= k < m.len() implies x.0 < (#[trigger] m[k]).0 by {
            if k < t.len() {
                assert(t[k] == m[k]);
            }
        }
        assert forall|k: int| 0 <= k < p implies (#[trigger] m[k]).0 <= x.0 by {
            assert(t[k] == m[k]);
        }
    } else {
        assert(m.take(m.len() as int) =~= m);
        assert(m.take(p).push(x) + m.skip(p) =~= m.push(x));
        assert forall|k: int| 0 <= k < p implies (#[trigger] m[k]).0 <= x.0 by {
            if k < m.len() - 1 {
                assert(m[k].0 < m[m.len() - 1].0);
            }
        }
    }
}

/// The dividers of a copy: in strictly ascending disc order, one for every
/// disc a track is on, each carrying the first track of its disc.
pub proof fn lemma_disc_firsts(s: Seq<VersionTrack>)
    ensures
        discs_ascending(disc_firsts(s)),
        forall|k: int| 0 <= k < s.len() ==> has_disc(disc_firsts(s), disc_of(#[trigger] s[k])),
        forall|j: int|
            0 <= j < disc_firsts(s).len() ==> {
                let e = #[trigger] disc_firsts(s)[j];
                &&& first_on_disc(s, e.0) >= 0
                &&& s[first_on_disc(s, e.0)].id == e.1
            },
    decreases s.len(),
{
    if s.len() > 0 {
        let t = s.drop_last();
        let x = s.last();
        let d = disc_of(x);
        let mt = disc_firsts(t);
        lemma_disc_firsts(t);
        assert forall|i: int| 0 <= i < t.len() implies t[i] == s[i] by {}
        if has_disc(mt, d) {
            assert forall|k: int| 0 <= k < s.len() implies has_disc(
                disc_firsts(s),
                disc_of(#[trigger] s[k]),
            ) by {
                if k < t.len() {
                    assert(has_disc(mt, disc_of(t[k])));
                }
            }
            assert forall|j: int| 0 <= j < disc_firsts(s).len() implies ({
                let e = #[trigger] disc_firsts(s)[j];
                &&& first_on_disc(s, e.0) >= 0
                &&& s[first_on_disc(s, e.0)].id == e.1
            }) by {
                let e = mt[j];
                let q = first_on_disc(t, e.0);
                lemma_first_on_disc(t, e.0);
                assert(first_on_disc(s, e.0) == q);
                assert(s[q] == t[q]);
            }
        } else {
            let xe = (d, x.id);
            lemma_insert_disc_shape(mt, xe);
            let p = disc_slot(mt, d);
            let m = disc_firsts(s);
            assert(m == mt.take(p).push(xe) + mt.skip(p));
            assert(m.len() == mt.len() + 1);
            assert forall|j: int| 0 <= j < m.len() implies (j < p ==> #[trigger] m[j] == mt[j]) && (j
                == p ==> m[j] == xe) && (j > p ==> m[j] == mt[j - 1]) by {}
            // the new disc was on no earlier track
            lemma_first_on_disc(t, d);
            if first_on_disc(t, d) >= 0 {
                let q = first_on_disc(t, d);
                assert(has_disc(mt, disc_of(t[q])));
            }
            assert(first_on_disc(s, d) == s.len() - 1);
            assert forall|a: int, b: int| 0 <= a < b < m.len() implies (#[trigger] m[a]).0 < (
            #[trigger] m[b]).0 by {
                if a < p && b == p {
                    assert(mt[a].0 <= d);
                    assert(mt[a].0 != d) by {
                        if mt[a].0 == d {
                            assert(has_disc(mt, d));
                        }
                    }
                } else if a == p && b > p {
                    assert(d < mt[b - 1].0);
                } else if a < p && b > p {
                    assert(mt[a].0 < mt[b - 1].0);
                } else if b < p {
                    assert(mt[a].0 < mt[b].0);
                } else {
                    assert(mt[a - 1].0 < mt[b - 1].0);
                }
            }
            assert forall|k: int| 0 <= k < s.len() implies has_disc(m, disc_of(#[trigger] s[k])) by {
                if k < t.len() {
                    assert(has_disc(mt, disc_of(t[k])));
                    let w = choose|w: int| 0 <= w < mt.len() && (#[trigger] mt[w]).0 == disc_of(t[k]);
                    if w < p {
                        assert(m[w] == mt[w]);
                    } else {
                        assert(m[w + 1] == mt[w]);
                    }
                } else {
                    assert(m[p] == xe);
                }
            }
            assert forall|j: int| 0 <= j < m.len() implies ({
                let e = #[trigger] m[j];
                &&& first_on_disc(s, e.0) >= 0
                &&& s[first_on_disc(s, e.0)].id == e.1
            }) by {
                if j != p {
                    let e = if j < p {
                        mt[j]
                    } else {
                        mt[j - 1]
                    };
                    assert(m[j] == e);
                    let q = first_on_disc(t, e.0);
                    lemma_first_on_disc(t, e.0);
                    assert(first_on_disc(s, e.0) == q);
                    assert(s[q] == t[q]);
                } else {
                    assert(m[j] == xe);
                    assert(s[s.len() - 1] == x);
                }
            }
        }
    }
}

// ---------------------------------------------------------------------------
// The version picker's entries
// ---------------------------------------------------------------------------

/// The position of a copy's best-ranked track, the last of equals; -1 for
/// no track.
pub open spec fn best_track(s: Seq<VersionTrack>) -> int
    decreases s.len(),
{
    if s.len() == 0 {
        -1
    } else {
        let k = best_track(s.drop_last());
        if k >= 0 && rank_lt(rank_of(s.last()), rank_of(s[k])) {
            k
        } else {
            s.len() - 1
        }
    }
}

/// One entry of the version picker: the edition the copy's best track
/// names ("Deluxe Edition", "" when none) and the copy's track count.
pub struct AlbumVersion {
    pub version: String,
    pub track_count: u32,
}

/// The picker entry of a copy; an empty copy gives an
/// empty entry.
pub fn version_info(tracks: &Vec<VersionTrack>) -> (r: AlbumVersion)
    ensures
        tracks@.len() == 0 ==> r.version@.len() == 0 && r.track_count == 0,
        tracks@.len() > 0 ==> r.version@ == spec_edition_descriptor(
            tracks@[best_track(tracks@)].group_title@,
        ) && r.track_count == tracks@.len() as u32,
{
    if tracks.len() == 0 {
        return AlbumVersion { version: String::new(), track_count: 0 };
    }
    let mut best: usize = 0;
    let mut i: usize = 1;
    proof {
        assert(tracks@.take(1).drop_last() =~= Seq::<VersionTrack>::empty());
        assert(best_track(tracks@.take(1).drop_last()) == -1);
        assert(best_track(tracks@.take(1)) == 0);
    }
    while i < tracks.len()
        invariant
            1 <= i <= tracks@.len(),
            0 <= best < i,
            best == best_track(tracks@.take(i as int)),
        decreases tracks@.len() - i,
    {
        let a = &tracks[i];
        let b = &tracks[best];
        let worse = a.quality_tier < b.quality_tier || (a.quality_tier == b.quality_tier && (
        a.bit_depth < b.bit_depth || (a.bit_depth == b.bit_depth && a.sample_rate
            < b.sample_rate)));
        proof {
            assert(tracks@.take(i + 1).drop_last() =~= tracks@.take(i as int));
            assert(tracks@.take(i + 1).last() == tracks@[i as int]);
            assert(tracks@.take(i + 1)[best as int] == tracks@[best as int]);
        }
        if !worse {
            best = i;
        }
        i = i + 1;
    }
    proof {
        assert(tracks@.take(i as int) =~= tracks@);
    }
    let count = #[verifier::truncate] (tracks.len() as u32);
    AlbumVersion { version: edition_descriptor(tracks[best].group_title.as_str()), track_count: count }
}

/// The picker's entries, one per copy, in picker order.
pub fn versions_info(versions: &Vec<AlbumVersionGroup>) -> (r: Vec<AlbumVersion>)
    ensures
        r@.len() == versions@.len(),
        forall|i: int|
            0 <= i < versions@.len() ==> {
                let ts = #[trigger] versions@[i].tracks@;
                &&& ts.len() == 0 ==> r@[i].version@.len() == 0 && r@[i].track_count == 0
                &&& ts.len() > 0 ==> r@[i].version@ == spec_edition_descriptor(
                    ts[best_track(ts)].group_title@,
                ) && r@[i].track_count == ts.len() as u32
            },
{
    let mut out: Vec<AlbumVersion> = Vec::new();
    let mut i: usize = 0;
    while i < versions.len()
        invariant
            0 <= i <= versions@.len(),
            out@.len() == i,
            forall|k: int|
                0 <= k < i ==> {
                    let ts = #[trigger] versions@[k].tracks@;
                    &&& ts.len() == 0 ==> out@[k].version@.len() == 0 && out@[k].track_count == 0
                    &&& ts.len() > 0 ==> out@[k].version@ == spec_edition_descriptor(
                        ts[best_track(ts)].group_title@,
                    ) && out@[k].track_count == ts.len() as u32
                },
        decreases versions@.len() - i,
    {
        let info = version_info(&versions[i].tracks);
        out.push(info);
        i = i + 1;
    }
    out
}

// ---------------------------------------------------------------------------
// The cover of a copy
// ---------------------------------------------------------------------------

/// A cover reference: the source that serves it, and its path or token.
pub type ArtRef = (Option<Seq<char>>, Seq<char>);

pub open spec fn opt_view(o: Option<String>) -> Option<Seq<char>> {
    match o {
        Some(x) => Some(x@),
        None => None,
    }
}

pub open spec fn art_view(o: Option<(Option<String>, String)>) -> Option<ArtRef> {
    match o {
        Some((src, path)) => Some((opt_view(src), path@)),
        None => None,
    }
}

/// The cover a track offers: its collection cover or its own one.
pub open spec fn track_art(t: VersionTrack, collection: bool) -> Option<ArtRef> {
    let p = if collection {
        t.collection_artwork_path
    } else {
        t.artwork_path
    };
    match p {
        Some(x) => if x@.len() > 0 {
            Some((opt_view(t.source), x@))
        } else {
            None
        },
        None => None,
    }
}

/// The first cover of the given kind among the tracks.
pub open spec fn first_art(s: Seq<VersionTrack>, collection: bool) -> Option<ArtRef>
    decreases s.len(),
{
    if s.len() == 0 {
        None
    } else {
        let r = first_art(s.drop_last(), collection);
        if r is Some {
            r
        } else {
            track_art(s.last(), collection)
        }
    }
}

/// The cover of a copy: the first collection cover, else the first track
/// cover.
pub open spec fn artwork_of(s: Seq<VersionTrack>) -> Option<ArtRef> {
    if first_art(s, true) is Some {
        first_art(s, true)
    } else {
        first_art(s, false)
    }
}

/// The cover of the first copy that has one.
pub open spec fn first_copy_art(g: Seq<AlbumVersionGroup>) -> Option<ArtRef>
    decreases g.len(),
{
    if g.len() == 0 {
        None
    } else {
        let r = first_copy_art(g.drop_last());
        if r is Some {
            r
        } else {
            artwork_of(g.last().tracks@)
        }
    }
}

/// The cover shown for a copy: its own when it has
/// one, else that of the first copy, in picker order, that has one.
pub open spec fn spec_version_artwork(selected: Seq<VersionTrack>, versions: Seq<AlbumVersionGroup>) -> Option<ArtRef> {
    if artwork_of(selected) is Some {
        artwork_of(selected)
    } else {
        first_copy_art(versions)
    }
}

proof fn lemma_first_art_prefix(s: Seq<VersionTrack>, collection: bool, j: int)
    requires
        0 <= j <= s.len(),
        first_art(s.take(j), collection) is Some,
    ensures
        first_art(s, collection) == first_art(s.take(j), collection),
    decreases s.len() - j,
{
    if j < s.len() {
        assert(s.take(j + 1).drop_last() =~= s.take(j));
        lemma_first_art_prefix(s, collection, j + 1);
    } else {
        assert(s.take(j) =~= s);
    }
}

proof fn lemma_first_copy_art_prefix(g: Seq<AlbumVersionGroup>, j: int)
    requires
        0 <= j <= g.len(),
        first_copy_art(g.take(j)) is Some,
    ensures
        first_copy_art(g) == first_copy_art(g.take(j)),
    decreases g.len() - j,
{
    if j < g.len() {
        assert(g.take(j + 1).drop_last() =~= g.take(j));
        lemma_first_copy_art_prefix(g, j + 1);
    } else {
        assert(g.take(j) =~= g);
    }
}

fn find_art(tracks: &Vec<VersionTrack>, collection: bool) -> (r: Option<(Option<String>, String)>)
    ensures
        art_view(r) == first_art(tracks@, collection),
{
    let mut i: usize = 0;
    while i < tracks.len()
        invariant
            0 <= i <= tracks@.len(),
            first_art(tracks@.take(i as int), collection) is None,
        decreases tracks@.len() - i,
    {
        let t = &tracks[i];
        let p = if collection {
            &t.collection_artwork_path
        } else {
            &t.artwork_path
        };
        proof {
            assert(tracks@.take(i + 1).drop_last() =~= tracks@.take(i as int));
            assert(tracks@.take(i + 1).last() == tracks@[i as int]);
        }
        match p {
            Some(x) => {
                if !str_is_empty(x.as_str()) {
                    let r = Some((t.source.clone(), x.clone()));
                    proof {
                        lemma_first_art_prefix(tracks@, collection, i + 1);
                    }
                    return r;
                }
            },
            None => {},
        }
        i = i + 1;
    }
    proof {
        assert(tracks@.take(i as int) =~= tracks@);
    }
    None
}

fn artwork_of_tracks(tracks: &Vec<VersionTrack>) -> (r: Option<(Option<String>, String)>)
    ensures
        art_view(r) == artwork_of(tracks@),
{
    let c = find_art(tracks, true);
    if c.is_some() {
        c
    } else {
        find_art(tracks, false)
    }
}

/// The cover for copy `selected` among `versions`, as (source, path): the
/// copy's own, else that of the first copy, in picker order, that has one.
pub fn version_artwork_ref(selected: &Vec<VersionTrack>, versions: &Vec<AlbumVersionGroup>) -> (r: Option<(Option<String>, String)>)
    ensures
        art_view(r) == spec_version_artwork(selected@, versions@),
{
    let own = artwork_of_tracks(selected);
    if own.is_some() {
        return own;
    }
    let mut i: usize = 0;
    while i < versions.len()
        invariant
            0 <= i <= versions@.len(),
            first_copy_art(versions@.take(i as int)) is None,
            artwork_of(selected@) is None,
        decreases versions@.len() - i,
    {
        let found = artwork_of_tracks(&versions[i].tracks);
        proof {
            assert(versions@.take(i + 1).drop_last() =~= versions@.take(i as int));
            assert(versions@.take(i + 1).last() == versions@[i as int]);
        }
        if found.is_some() {
            proof {
                lemma_first_copy_art_prefix(versions@, i + 1);
            }
            return found;
        }
        i = i + 1;
    }
    proof {
        assert(versions@.take(i as int) =~= versions@);
    }
    None
}

/// The art key of copy `index` of album `id`.
pub open spec fn spec_version_art_key(id: Seq<char>, index: nat) -> Seq<char> {
    "album-version:"@ + id + ":"@ + decimal(index)
}

/// The art key of copy `index` of album `id`: a
/// cover is asked for by copy, so a late answer for one copy cannot replace
/// the cover of another.
pub fn album_version_art_key(id: &str, index: usize) -> (r: String)
    ensures
        r@ == spec_version_art_key(id@, index as nat),
{
    let mut s = String::from_str("album-version:");
    s.append(id);
    s.append(":");
    push_decimal(&mut s, index as u64);
    s
}

/// The cover of copy `index` of an album expanded in the Genres browser, and
/// the art key it is published under: none and an empty key when no copy
/// has a cover, in which case the card keeps its placeholder.
pub fn genre_detail_art(album_id: &str, versions: &Vec<AlbumVersionGroup>, index: usize) -> (r: (String, Option<(Option<String>, String)>))
    ensures
        ({
            let selected = if index < versions@.len() {
                versions@[index as int].tracks@
            } else {
                Seq::empty()
            };
            &&& art_view(r.1) == spec_version_artwork(selected, versions@)
            &&& r.1 is Some ==> r.0@ == spec_version_art_key(album_id@, index as nat)
            &&& r.1 is None ==> r.0@.len() == 0
        }),
{
    let empty: Vec<VersionTrack> = Vec::new();
    let artwork = if index < versions.len() {
        version_artwork_ref(&versions[index].tracks, versions)
    } else {
        proof {
            assert(empty@ =~= Seq::<VersionTrack>::empty());
        }
        version_artwork_ref(&empty, versions)
    };
    let key = if artwork.is_some() {
        album_version_art_key(album_id, index)
    } else {
        String::new()
    };
    (key, artwork)
}

proof fn lemma_insert_version_len(s: Groups, x: (Seq<char>, Seq<VersionTrack>))
    ensures
        insert_version(s, x).len() == s.len() + 1,
    decreases s.len(),
{
    if s.len() > 0 {
        lemma_insert_version_len(s.drop_last(), x);
    }
}

proof fn lemma_sorted_versions_len(s: Groups)
    ensures
        sorted_versions(s).len() == s.len(),
    decreases s.len(),
{
    if s.len() > 0 {
        lemma_sorted_versions_len(s.drop_last());
        lemma_insert_version_len(sorted_versions(s.drop_last()), s.last());
    }
}

proof fn lemma_split_nonempty(tracks: Seq<VersionTrack>)
    requires
        tracks.len() > 0,
    ensures
        spec_split_versions(tracks).len() > 0,
{
    let g = group_by_dir(tracks.drop_last());
    lemma_dir_index(g, tracks.last().group_key@);
    let gg = group_by_dir(tracks);
    lemma_sorted_versions_len(Seq::new(gg.len(), |i: int| (gg[i].0, sorted_by_pos(gg[i].1))));
}

// ---------------------------------------------------------------------------
// The document of one copy of the open album
// ---------------------------------------------------------------------------

/// What the library builds of the album view's document for one copy: the
/// album and the copy shown, the copy's cover and its art key, the picker's
/// entries, the copy's tracks (each mapped to a row by the caller) and its
/// disc dividers.
pub struct VersionDoc {
    pub album_id: String,
    pub art_key: String,
    pub artwork: Option<(Option<String>, String)>,
    pub versions: Vec<AlbumVersion>,
    pub version_index: usize,
    pub tracks: Vec<VersionTrack>,
    pub discs: Vec<DiscRow>,
}

/// The picker entry of a copy with tracks `ts`.
pub open spec fn version_entry_ok(ts: Seq<VersionTrack>, e: AlbumVersion) -> bool {
    &&& ts.len() == 0 ==> e.version@.len() == 0 && e.track_count == 0
    &&& ts.len() > 0 ==> e.version@ == spec_edition_descriptor(ts[best_track(ts)].group_title@) && e.track_count
        == ts.len() as u32
}

/// `d` is the document of copy `index` of album `id` among `versions`.
pub open spec fn version_doc_ok(versions: Seq<AlbumVersionGroup>, id: Seq<char>, index: int, d: VersionDoc) -> bool {
    let ts = versions[index].tracks@;
    &&& d.album_id@ == id
    &&& d.art_key@ == spec_version_art_key(id, index as nat)
    &&& art_view(d.artwork) == spec_version_artwork(ts, versions)
    &&& d.version_index == index
    &&& d.tracks@ == ts
    &&& rows_model(d.discs@) == spec_disc_rows(ts)
    &&& d.versions@.len() == versions.len()
    &&& forall|i: int| 0 <= i < versions.len() ==> version_entry_ok(#[trigger] versions[i].tracks@, d.versions@[i])
}

impl AlbumVersions {
    /// The document of copy `index` of album `id`, read off the copies
    /// already split (no new read): none for a copy that does not exist or
    /// has no tracks.
    pub fn version_doc(&self, id: &str, index: usize) -> (r: Option<VersionDoc>)
        ensures
            (index >= self.versions@.len() || self.versions@[index as int].tracks@.len() == 0) <==> r is None,
            r matches Some(d) ==> version_doc_ok(self.versions@, id@, index as int, d),
    {
        if index >= self.versions.len() || self.versions[index].tracks.len() == 0 {
            return None;
        }
        let infos = versions_info(&self.versions);
        let tracks_ref = &self.versions[index].tracks;
        let mut tracks: Vec<VersionTrack> = Vec::new();
        let mut i: usize = 0;
        while i < tracks_ref.len()
            invariant
                0 <= i <= tracks_ref@.len(),
                tracks@ == tracks_ref@.take(i as int),
            decreases tracks_ref@.len() - i,
        {
            tracks.push(tracks_ref[i].duplicate());
            proof {
                assert(tracks@ =~= tracks_ref@.take(i + 1));
            }
            i = i + 1;
        }
        proof {
            assert(tracks_ref@.take(i as int) =~= tracks_ref@);
        }
        let artwork = version_artwork_ref(&tracks, &self.versions);
        let discs = disc_rows(&tracks);
        let art_key = album_version_art_key(id, index);
        let d = VersionDoc {
            album_id: String::from_str(id),
            art_key,
            artwork,
            versions: infos,
            version_index: index,
            tracks,
            discs,
        };
        proof {
            assert forall|k: int| 0 <= k < self.versions@.len() implies version_entry_ok(
                #[trigger] self.versions@[k].tracks@,
                d.versions@[k],
            ) by {}
        }
        Some(d)
    }

    /// The version picker with its document: switch to copy `index` as
    /// `select_version` does, and, when the album has an id and the copy has
    /// tracks, the document to publish for it.
    pub fn select_version_doc(&mut self, index: i32) -> (r: Option<VersionDoc>)
        ensures
            final(self).versions@ == old(self).versions@,
            final(self).album_id@ == old(self).album_id@,
            index < 0 || index as int >= old(self).versions@.len() || index as int == old(self).index ==> r is None
                && final(self).index == old(self).index,
            !(index < 0 || index as int >= old(self).versions@.len() || index as int == old(self).index) ==> {
                &&& final(self).index == index as usize
                &&& old(self).album_id@.len() == 0 ==> r is None
                &&& old(self).album_id@.len() > 0 && old(self).versions@[index as int].tracks@.len() == 0 ==> r is None
                &&& old(self).album_id@.len() > 0 && old(self).versions@[index as int].tracks@.len() > 0 ==> (r matches Some(
                    d,
                ) && version_doc_ok(old(self).versions@, old(self).album_id@, index as int, d))
            },
    {
        match self.select_version(index) {
            Some((id, i)) => self.version_doc(id.as_str(), i),
            None => None,
        }
    }
}

} // verus!
