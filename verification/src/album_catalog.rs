//! What the native albums grid reads of a catalog album: the id its actions
//! use, its group key and label, and the query words of the view.
use vstd::prelude::*;
use crate::album_stream::TrackGroup;
use crate::label_json::{get, jbool, jget, Json, Member};
use crate::selection::QuerySelection;
use crate::text::{
    ascii_lower_seq, chars_of, chars_to_ascii_lower, occurs_at_exec, starts_with_seq,
    str_equals, string_from_chars, to_uppercase, trim, trimmed_chars, uppercase,
};

verus! {

/// The library source of a catalog album.
#[derive(Clone, Copy, Debug, PartialEq, Eq, Structural)]
pub enum SourceKind {
    Local,
    Offline,
    Plex,
    Jellyfin,
    Subsonic,
}

/// `id` carries `prefix` already, or gets it put in front.
pub open spec fn with_prefix(id: Seq<char>, mark: Seq<char>, prefix: Seq<char>) -> Seq<char> {
    if starts_with_seq(id, mark) {
        id
    } else {
        prefix + id
    }
}

/// The id an album's actions use: the trimmed native id,
/// which media-server albums carry with their source's prefix.
pub open spec fn spec_album_action_id(source: SourceKind, native: Seq<char>) -> Seq<char> {
    let t = trim(native);
    match source {
        SourceKind::Plex => with_prefix(t, "plex:"@, "plex:album:"@),
        SourceKind::Jellyfin => with_prefix(t, "jellyfin:"@, "jellyfin:"@),
        SourceKind::Subsonic => with_prefix(t, "subsonic:"@, "subsonic:"@),
        _ => t,
    }
}

fn prefixed(t: &Vec<char>, mark: &str, prefix: &str) -> (r: String)
    ensures
        r@ == with_prefix(t@, mark@, prefix@),
{
    let m = chars_of(mark);
    if occurs_at_exec(t, &m, 0) {
        string_from_chars(t)
    } else {
        let tail = string_from_chars(t);
        let head = String::from_str(prefix);
        head.concat(tail.as_str())
    }
}

pub fn album_action_id(source: SourceKind, native_album_id: &str) -> (r: String)
    ensures
        r@ == spec_album_action_id(source, native_album_id@),
{
    let t = trimmed_chars(native_album_id);
    match source {
        SourceKind::Plex => prefixed(&t, "plex:", "plex:album:"),
        SourceKind::Jellyfin => prefixed(&t, "jellyfin:", "jellyfin:"),
        SourceKind::Subsonic => prefixed(&t, "subsonic:", "subsonic:"),
        _ => string_from_chars(&t),
    }
}

/// The group an album falls in, from the catalog's
/// sort keys of its artist and title: by artist, the artist's key; by name
/// or album, the first character of the title's key ('#' for none).
pub open spec fn spec_album_group_key(artist_key: Seq<char>, title_key: Seq<char>, group: TrackGroup) -> Seq<char> {
    match group {
        TrackGroup::Artist => artist_key,
        TrackGroup::Name | TrackGroup::Album => if title_key.len() > 0 {
            seq![title_key[0]]
        } else {
            seq!['#']
        },
        TrackGroup::Off => Seq::empty(),
    }
}

pub fn album_group_key(artist_sort_key: &str, title_sort_key: &str, group: TrackGroup) -> (r: String)
    ensures
        r@ == spec_album_group_key(artist_sort_key@, title_sort_key@, group),
{
    match group {
        TrackGroup::Artist => String::from_str(artist_sort_key),
        TrackGroup::Name | TrackGroup::Album => {
            let t = chars_of(title_sort_key);
            let mut v: Vec<char> = Vec::new();
            if t.len() > 0 {
                v.push(t[0]);
            } else {
                v.push('#');
            }
            proof {
                assert(v@ =~= spec_album_group_key(artist_sort_key@, title_sort_key@, group));
            }
            string_from_chars(&v)
        },
        TrackGroup::Off => String::new(),
    }
}

/// The label of an album's group: by artist, the
/// artist as credited; by name or album, the group key upper-cased.
pub open spec fn spec_album_group_label(
    artist: Seq<char>,
    artist_key: Seq<char>,
    title_key: Seq<char>,
    group: TrackGroup,
) -> Seq<char> {
    match group {
        TrackGroup::Artist => artist,
        TrackGroup::Name | TrackGroup::Album => uppercase(
            spec_album_group_key(artist_key, title_key, group),
        ),
        TrackGroup::Off => Seq::empty(),
    }
}

pub fn album_group_label(
    artist: &str,
    artist_sort_key: &str,
    title_sort_key: &str,
    group: TrackGroup,
) -> (r: String)
    ensures
        r@ == spec_album_group_label(artist@, artist_sort_key@, title_sort_key@, group),
{
    match group {
        TrackGroup::Artist => String::from_str(artist),
        TrackGroup::Name | TrackGroup::Album => {
            let key = album_group_key(artist_sort_key, title_sort_key, group);
            to_uppercase(key.as_str())
        },
        TrackGroup::Off => String::new(),
    }
}

/// The order of the albums query.
#[derive(Clone, Copy, Debug, PartialEq, Eq, Structural)]
pub enum CatalogSort {
    ArtistAsc,
    ArtistDesc,
    TitleAsc,
    TitleDesc,
    YearAsc,
    YearDesc,
}

/// The view's sort word; an unknown one sorts by artist.
pub open spec fn spec_parse_sort(v: Seq<char>) -> CatalogSort {
    if v == "artist-desc"@ {
        CatalogSort::ArtistDesc
    } else if v == "title-asc"@ {
        CatalogSort::TitleAsc
    } else if v == "title-desc"@ {
        CatalogSort::TitleDesc
    } else if v == "year-asc"@ {
        CatalogSort::YearAsc
    } else if v == "year-desc"@ {
        CatalogSort::YearDesc
    } else {
        CatalogSort::ArtistAsc
    }
}

pub fn parse_sort(value: &str) -> (r: CatalogSort)
    ensures
        r == spec_parse_sort(value@),
{
    if str_equals(value, "artist-desc") {
        CatalogSort::ArtistDesc
    } else if str_equals(value, "title-asc") {
        CatalogSort::TitleAsc
    } else if str_equals(value, "title-desc") {
        CatalogSort::TitleDesc
    } else if str_equals(value, "year-asc") {
        CatalogSort::YearAsc
    } else if str_equals(value, "year-desc") {
        CatalogSort::YearDesc
    } else {
        CatalogSort::ArtistAsc
    }
}

/// The view's grouping word: "alpha" groups by name,
/// "artist" by artist, anything else not at all.
pub open spec fn spec_parse_group(v: Seq<char>) -> TrackGroup {
    if v == "alpha"@ {
        TrackGroup::Name
    } else if v == "artist"@ {
        TrackGroup::Artist
    } else {
        TrackGroup::Off
    }
}

pub fn parse_group(value: &str) -> (r: TrackGroup)
    ensures
        r == spec_parse_group(value@),
{
    if str_equals(value, "alpha") {
        TrackGroup::Name
    } else if str_equals(value, "artist") {
        TrackGroup::Artist
    } else {
        TrackGroup::Off
    }
}

/// The audio format of a catalog album.
#[derive(Clone, Copy, Debug, PartialEq, Eq, Structural)]
pub enum AudioFormat {
    Flac,
    Alac,
    Wav,
    Aiff,
    Ape,
    Mp3,
    Dsd,
    Unknown,
}

/// A format word of the catalog, in any ASCII case.
pub open spec fn spec_audio_format(v: Seq<char>) -> AudioFormat {
    let w = ascii_lower_seq(v);
    if w == "flac"@ {
        AudioFormat::Flac
    } else if w == "alac"@ || w == "m4a"@ {
        AudioFormat::Alac
    } else if w == "wav"@ || w == "wave"@ {
        AudioFormat::Wav
    } else if w == "aiff"@ || w == "aif"@ {
        AudioFormat::Aiff
    } else if w == "ape"@ {
        AudioFormat::Ape
    } else if w == "mp3"@ {
        AudioFormat::Mp3
    } else if w == "dsd"@ || w == "dsf"@ || w == "dff"@ {
        AudioFormat::Dsd
    } else {
        AudioFormat::Unknown
    }
}

pub fn audio_format(value: &str) -> (r: AudioFormat)
    ensures
        r == spec_audio_format(value@),
{
    let v = chars_of(value);
    let lower = chars_to_ascii_lower(&v);
    let w = string_from_chars(&lower);
    let w = w.as_str();
    if str_equals(w, "flac") {
        AudioFormat::Flac
    } else if str_equals(w, "alac") || str_equals(w, "m4a") {
        AudioFormat::Alac
    } else if str_equals(w, "wav") || str_equals(w, "wave") {
        AudioFormat::Wav
    } else if str_equals(w, "aiff") || str_equals(w, "aif") {
        AudioFormat::Aiff
    } else if str_equals(w, "ape") {
        AudioFormat::Ape
    } else if str_equals(w, "mp3") {
        AudioFormat::Mp3
    } else if str_equals(w, "dsd") || str_equals(w, "dsf") || str_equals(w, "dff") {
        AudioFormat::Dsd
    } else {
        AudioFormat::Unknown
    }
}

/// What the bulk action of the albums grid reads of a catalog album: its
/// source and native id.
pub struct AlbumIdent {
    pub source: SourceKind,
    pub native_album_id: String,
}

/// A place in the query, stopping at the largest `u64`.
pub open spec fn place(first: u64, k: int) -> u64 {
    if first + k > u64::MAX {
        u64::MAX
    } else {
        (first + k) as u64
    }
}

/// The action ids of the selected albums of a page whose first album is at
/// place `first`, in page order.
pub open spec fn selected_ids(sel: QuerySelection, first: u64, page: Seq<AlbumIdent>) -> Seq<Seq<char>>
    decreases page.len(),
{
    if page.len() == 0 {
        Seq::empty()
    } else {
        let head = selected_ids(sel, first, page.drop_last());
        let a = page.last();
        if sel.selected(place(first, page.len() - 1) as int) {
            head.push(spec_album_action_id(a.source, a.native_album_id@))
        } else {
            head
        }
    }
}

pub open spec fn ids_view(s: Seq<String>) -> Seq<Seq<char>> {
    s.map_values(|x: String| x@)
}

/// One page of the walk over the whole query that gathers the selected
/// albums for a bulk action: the ids of the page's
/// selected albums are added, and the place after the page is returned.
pub fn selected_album_ids_page(
    selection: &QuerySelection,
    first: u64,
    page: &Vec<AlbumIdent>,
    ids: &mut Vec<String>,
) -> (next: u64)
    ensures
        ids_view(final(ids)@) == ids_view(old(ids)@) + selected_ids(*selection, first, page@),
        next == place(first, page@.len() as int),
{
    let mut index = first;
    let mut i: usize = 0;
    proof {
        assert(ids_view(ids@) =~= ids_view(old(ids)@) + selected_ids(*selection, first, page@.take(0)));
    }
    while i < page.len()
        invariant
            0 <= i <= page@.len(),
            index == place(first, i as int),
            ids_view(ids@) == ids_view(old(ids)@) + selected_ids(*selection, first, page@.take(i as int)),
        decreases page@.len() - i,
    {
        proof {
            assert(page@.take(i + 1).drop_last() =~= page@.take(i as int));
            assert(page@.take(i + 1).last() == page@[i as int]);
        }
        if selection.contains(index) {
            let id = album_action_id(page[i].source, page[i].native_album_id.as_str());
            let ghost prev = ids@;
            let ghost idv = id@;
            ids.push(id);
            proof {
                assert(ids_view(ids@) =~= ids_view(prev).push(idv));
                assert(page@.take(i + 1).last() == page@[i as int]);
                let t = page@.take(i + 1);
                assert(t.len() == i + 1);
                assert(place(first, t.len() - 1) == index);
                assert(selection.selected(place(first, t.len() - 1) as int));
                assert(selected_ids(*selection, first, t) == selected_ids(*selection, first, t.drop_last()).push(
                    spec_album_action_id(t.last().source, t.last().native_album_id@),
                ));
                assert(ids_view(ids@) =~= ids_view(old(ids)@) + selected_ids(
                    *selection,
                    first,
                    page@.take(i + 1),
                ));
            }
        }
        proof {
            let t = page@.take(i + 1);
            assert(t.len() == i + 1);
            assert(place(first, t.len() - 1) == index);
        }
        index = index.saturating_add(1);
        i = i + 1;
    }
    proof {
        assert(page@.take(i as int) =~= page@);
    }
    index
}


/// A saved filter key survives: its value is `true`, and it is not the key
/// of a source whose integration is off.
pub open spec fn filter_key_kept(m: Member, has_plex: bool, has_jellyfin: bool, has_subsonic: bool) -> bool {
    &&& m.value matches Json::Bool(b) && b
    &&& !(m.key@ == "plex"@ && !has_plex)
    &&& !(m.key@ == "jellyfin"@ && !has_jellyfin)
    &&& !(m.key@ == "subsonic"@ && !has_subsonic)
}

/// The surviving keys of a saved filter, in order.
pub open spec fn kept_filter_keys(ms: Seq<Member>, has_plex: bool, has_jellyfin: bool, has_subsonic: bool) -> Seq<Seq<char>>
    decreases ms.len(),
{
    if ms.len() == 0 {
        Seq::empty()
    } else {
        let rest = kept_filter_keys(ms.drop_last(), has_plex, has_jellyfin, has_subsonic);
        if filter_key_kept(ms.last(), has_plex, has_jellyfin, has_subsonic) {
            rest.push(ms.last().key@)
        } else {
            rest
        }
    }
}

/// The Albums tab's saved media filter as the grid may use it
/// (`pruned_albums_filter`): the keys whose value is `true`, without the
/// chips of sources whose integration is not both enabled and configured.
/// A saved value that is not an object, or is missing, leaves none; the
/// caller writes the survivors back as an object of `true` values, and an
/// empty list as no filter.
pub fn pruned_albums_filter(saved: Option<&Json>, has_plex: bool, has_jellyfin: bool, has_subsonic: bool) -> (r: Vec<String>)
    ensures
        r@.map_values(|k: String| k@) == match saved {
            Some(Json::Object(ms)) => kept_filter_keys(ms@, has_plex, has_jellyfin, has_subsonic),
            _ => Seq::<Seq<char>>::empty(),
        },
{
    let mut out: Vec<String> = Vec::new();
    let ms = match saved {
        Some(Json::Object(ms)) => ms,
        _ => {
            proof {
                assert(out@.map_values(|k: String| k@) =~= Seq::<Seq<char>>::empty());
            }
            return out;
        },
    };
    let mut i: usize = 0;
    while i < ms.len()
        invariant
            0 <= i <= ms@.len(),
            out@.map_values(|k: String| k@) == kept_filter_keys(ms@.take(i as int), has_plex, has_jellyfin, has_subsonic),
        decreases ms@.len() - i,
    {
        let m = &ms[i];
        let is_true = match &m.value {
            Json::Bool(b) => *b,
            _ => false,
        };
        let key = m.key.as_str();
        let pruned = (!has_plex && str_equals(key, "plex")) || (!has_jellyfin && str_equals(key, "jellyfin"))
            || (!has_subsonic && str_equals(key, "subsonic"));
        proof {
            assert(ms@.take(i + 1).drop_last() =~= ms@.take(i as int));
            assert(ms@.take(i + 1).last() == ms@[i as int]);
        }
        if is_true && !pruned {
            out.push(m.key.clone());
            proof {
                assert(out@.map_values(|k: String| k@) =~= kept_filter_keys(ms@.take(i as int), has_plex, has_jellyfin, has_subsonic).push(m.key@));
            }
        }
        i = i + 1;
    }
    proof {
        assert(ms@.take(i as int) =~= ms@);
    }
    out
}


/// A chip of the Albums funnel is on: the saved filter holds `true` under
/// its key.
pub open spec fn chip_on(filter: Option<Json>, key: Seq<char>) -> bool {
    jbool(jget(filter, key)) == Some(true)
}

/// The chips of `keys` that are on, in the order of `keys`.
pub open spec fn chips_on(filter: Option<Json>, keys: Seq<Seq<char>>) -> Seq<Seq<char>>
    decreases keys.len(),
{
    if keys.len() == 0 {
        Seq::empty()
    } else {
        let rest = chips_on(filter, keys.drop_last());
        if chip_on(filter, keys.last()) {
            rest.push(keys.last())
        } else {
            rest
        }
    }
}

/// What the native albums query reads of the Albums funnel: the formats,
/// the quality tiers and the source buckets whose chips are on, and whether
/// formats outside the list are admitted.
pub struct AlbumQueryFilter {
    pub formats: Vec<String>,
    pub qualities: Vec<String>,
    pub buckets: Vec<String>,
    pub other_formats: bool,
}

pub open spec fn format_keys() -> Seq<Seq<char>> {
    seq!["flac"@, "alac"@, "ape"@, "wav"@, "mp3"@, "aac"@]
}

pub open spec fn quality_keys() -> Seq<Seq<char>> {
    seq!["dsd"@, "hires"@, "cd"@, "lossy"@]
}

pub open spec fn bucket_keys() -> Seq<Seq<char>> {
    seq!["local"@, "offline"@, "plex"@, "jellyfin"@, "subsonic"@]
}

pub open spec fn texts(v: Seq<String>) -> Seq<Seq<char>> {
    v.map_values(|s: String| s@)
}

fn chip(filter: Option<&Json>, key: &str) -> (r: bool)
    ensures
        r == chip_on(crate::label_json::opt_json(filter), key@),
{
    match filter {
        Some(f) => match get(f, key) {
            Some(Json::Bool(b)) => *b,
            _ => false,
        },
        None => false,
    }
}

fn push_if_on(out: &mut Vec<String>, filter: Option<&Json>, key: &str, Ghost(done): Ghost<Seq<Seq<char>>>)
    requires
        texts(old(out)@) == chips_on(crate::label_json::opt_json(filter), done),
    ensures
        texts(final(out)@) == chips_on(crate::label_json::opt_json(filter), done.push(key@)),
{
    let on = chip(filter, key);
    proof {
        assert(done.push(key@).drop_last() =~= done);
    }
    if on {
        out.push(key.to_string());
        proof {
            assert(texts(out@) =~= texts(old(out)@).push(key@));
        }
    }
}

/// The query filter of the Albums funnel: for each list of
/// chips, those that are on, in list order. A filter that is not an object
/// turns every chip off.
pub fn album_query_filter(filter: Option<&Json>) -> (r: AlbumQueryFilter)
    ensures
        texts(r.formats@) == chips_on(crate::label_json::opt_json(filter), format_keys()),
        texts(r.qualities@) == chips_on(crate::label_json::opt_json(filter), quality_keys()),
        texts(r.buckets@) == chips_on(crate::label_json::opt_json(filter), bucket_keys()),
        r.other_formats == chip_on(crate::label_json::opt_json(filter), "other"@),
{
    let ghost f = crate::label_json::opt_json(filter);
    let ghost fk = format_keys();
    let ghost qk = quality_keys();
    let ghost bk = bucket_keys();
    let mut formats: Vec<String> = Vec::new();
    proof {
        assert(texts(formats@) =~= chips_on(f, Seq::empty()));
        assert(fk.take(0) =~= Seq::<Seq<char>>::empty());
        assert(qk.take(0) =~= Seq::<Seq<char>>::empty());
        assert(bk.take(0) =~= Seq::<Seq<char>>::empty());
        assert forall|n: int| 0 <= n < 6 implies fk.take(n + 1) =~= #[trigger] fk.take(n).push(fk[n]) by {}
        assert forall|n: int| 0 <= n < 4 implies qk.take(n + 1) =~= #[trigger] qk.take(n).push(qk[n]) by {}
        assert forall|n: int| 0 <= n < 5 implies bk.take(n + 1) =~= #[trigger] bk.take(n).push(bk[n]) by {}
        assert(fk.take(6) =~= fk);
        assert(qk.take(4) =~= qk);
        assert(bk.take(5) =~= bk);
    }
    push_if_on(&mut formats, filter, "flac", Ghost(fk.take(0)));
    push_if_on(&mut formats, filter, "alac", Ghost(fk.take(1)));
    push_if_on(&mut formats, filter, "ape", Ghost(fk.take(2)));
    push_if_on(&mut formats, filter, "wav", Ghost(fk.take(3)));
    push_if_on(&mut formats, filter, "mp3", Ghost(fk.take(4)));
    push_if_on(&mut formats, filter, "aac", Ghost(fk.take(5)));
    let mut qualities: Vec<String> = Vec::new();
    proof {
        assert(texts(qualities@) =~= chips_on(f, Seq::empty()));
    }
    push_if_on(&mut qualities, filter, "dsd", Ghost(qk.take(0)));
    push_if_on(&mut qualities, filter, "hires", Ghost(qk.take(1)));
    push_if_on(&mut qualities, filter, "cd", Ghost(qk.take(2)));
    push_if_on(&mut qualities, filter, "lossy", Ghost(qk.take(3)));
    let mut buckets: Vec<String> = Vec::new();
    proof {
        assert(texts(buckets@) =~= chips_on(f, Seq::empty()));
    }
    push_if_on(&mut buckets, filter, "local", Ghost(bk.take(0)));
    push_if_on(&mut buckets, filter, "offline", Ghost(bk.take(1)));
    push_if_on(&mut buckets, filter, "plex", Ghost(bk.take(2)));
    push_if_on(&mut buckets, filter, "jellyfin", Ghost(bk.take(3)));
    push_if_on(&mut buckets, filter, "subsonic", Ghost(bk.take(4)));
    let other_formats = chip(filter, "other");
    AlbumQueryFilter { formats, qualities, buckets, other_formats }
}

/// Whether the native query reads a source: local and offline always, Plex
/// when configured, a media server when its word is among the configured
/// servers' words.
pub fn source_enabled(kind: SourceKind, plex_configured: bool, words: &Vec<String>) -> (r: bool)
    ensures
        r == match kind {
            SourceKind::Local | SourceKind::Offline => true,
            SourceKind::Plex => plex_configured,
            SourceKind::Jellyfin => crate::local_routes::key_selected(words@, "jellyfin"@),
            SourceKind::Subsonic => crate::local_routes::key_selected(words@, "subsonic"@),
        },
{
    match kind {
        SourceKind::Local | SourceKind::Offline => true,
        SourceKind::Plex => plex_configured,
        SourceKind::Jellyfin => crate::local_routes::media_gates(words).0,
        SourceKind::Subsonic => crate::local_routes::media_gates(words).1,
    }
}

} // verus!
