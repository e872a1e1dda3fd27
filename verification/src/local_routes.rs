//! Which reader serves each Local Library tab, and the small documents the
//! library publishes beside them: the Plex sections and the media gates.
use vstd::prelude::*;
use crate::generation::{wrap_next, wrapping_next};
use crate::text::str_equals;

verus! {

/// The load a tab switch starts.
#[derive(Clone, Copy, Debug, PartialEq, Eq, Structural)]
pub enum TabLoad {
    /// The Albums tab, native or legacy as `albums_route` decides.
    Albums,
    /// The bounded logical-album document.
    AlbumsLegacy,
    Artists,
    Folders,
    /// The first page of the Tracks tab.
    Tracks,
    /// A tab whose document is published when it opens.
    Nothing,
    /// A tab name the library does not know.
    Unknown,
}

/// The load for tab `tab`. The Genres browser reads the
/// logical-album document, whatever the Albums tab itself uses.
pub fn tab_load(tab: &str) -> (r: TabLoad)
    ensures
        r == (if tab@ == "albums"@ {
            TabLoad::Albums
        } else if tab@ == "albums-legacy"@ || tab@ == "genres"@ {
            TabLoad::AlbumsLegacy
        } else if tab@ == "artists"@ {
            TabLoad::Artists
        } else if tab@ == "folders"@ {
            TabLoad::Folders
        } else if tab@ == "tracks"@ {
            TabLoad::Tracks
        } else if tab@ == "ephemeral"@ {
            TabLoad::Nothing
        } else {
            TabLoad::Unknown
        }),
{
    if str_equals(tab, "albums") {
        TabLoad::Albums
    } else if str_equals(tab, "albums-legacy") || str_equals(tab, "genres") {
        TabLoad::AlbumsLegacy
    } else if str_equals(tab, "artists") {
        TabLoad::Artists
    } else if str_equals(tab, "folders") {
        TabLoad::Folders
    } else if str_equals(tab, "tracks") {
        TabLoad::Tracks
    } else if str_equals(tab, "ephemeral") {
        TabLoad::Nothing
    } else {
        TabLoad::Unknown
    }
}

/// Why a surface is served by its legacy reader.
#[derive(Clone, Copy, Debug, PartialEq, Eq, Structural)]
pub enum LegacyReason {
    /// The native reader was asked for, but albums are grouped by metadata.
    MetadataMode,
    /// The native reader is off, or failed in this session.
    FeatureDisabledOrSessionFailed,
    /// A further Tracks page of the legacy reader.
    LegacyPagination,
}

/// The reader that serves a surface.
#[derive(Clone, Copy, Debug, PartialEq, Eq, Structural)]
pub enum SurfaceRoute {
    /// The native catalog reader.
    Catalog,
    Legacy(LegacyReason),
}

/// The reader of the Albums or Artists tab:
/// the catalog when the native reader is requested and albums are grouped
/// by folder, else the legacy one.
pub fn browse_route(native_requested: bool, album_mode: &str) -> (r: SurfaceRoute)
    ensures
        r == (if native_requested && album_mode@ == "folder"@ {
            SurfaceRoute::Catalog
        } else if native_requested {
            SurfaceRoute::Legacy(LegacyReason::MetadataMode)
        } else {
            SurfaceRoute::Legacy(LegacyReason::FeatureDisabledOrSessionFailed)
        }),
{
    if native_requested && str_equals(album_mode, "folder") {
        SurfaceRoute::Catalog
    } else if native_requested {
        SurfaceRoute::Legacy(LegacyReason::MetadataMode)
    } else {
        SurfaceRoute::Legacy(LegacyReason::FeatureDisabledOrSessionFailed)
    }
}

/// The legacy Artists document credits albums from the legacy Albums
/// document: an Artists load on the legacy reader also loads the albums when
/// none are loaded.
pub fn artists_need_albums(route: SurfaceRoute, albums_loaded: usize) -> (r: bool)
    ensures
        r == (route is Legacy && albums_loaded == 0),
{
    match route {
        SurfaceRoute::Catalog => false,
        SurfaceRoute::Legacy(_) => albums_loaded == 0,
    }
}

/// The reader of a Tracks load: a first page goes to the
/// catalog when the native reader took it; further
/// pages stay on the legacy reader.
pub fn tracks_route(reset: bool, native_took_reset: bool) -> (r: SurfaceRoute)
    ensures
        r == (if reset && native_took_reset {
            SurfaceRoute::Catalog
        } else if reset {
            SurfaceRoute::Legacy(LegacyReason::FeatureDisabledOrSessionFailed)
        } else {
            SurfaceRoute::Legacy(LegacyReason::LegacyPagination)
        }),
{
    if reset && native_took_reset {
        SurfaceRoute::Catalog
    } else if reset {
        SurfaceRoute::Legacy(LegacyReason::FeatureDisabledOrSessionFailed)
    } else {
        SurfaceRoute::Legacy(LegacyReason::LegacyPagination)
    }
}

/// A Plex library section as the settings list shows it.
pub struct PlexSectionRow {
    pub key: String,
    pub title: String,
    pub selected: bool,
}

pub open spec fn key_selected(selected: Seq<String>, key: Seq<char>) -> bool {
    exists|j: int| 0 <= j < selected.len() && #[trigger] selected[j]@ == key
}

/// The Plex sections, each marked when its key is among the selected keys.
pub fn plex_section_rows(sections: &Vec<(String, String)>, selected: &Vec<String>) -> (r: Vec<PlexSectionRow>)
    ensures
        r@.len() == sections@.len(),
        forall|i: int|
            0 <= i < r@.len() ==> {
                &&& (#[trigger] r@[i]).key == sections@[i].0
                &&& r@[i].title == sections@[i].1
                &&& r@[i].selected == key_selected(selected@, sections@[i].0@)
            },
{
    let mut out: Vec<PlexSectionRow> = Vec::new();
    let mut i: usize = 0;
    while i < sections.len()
        invariant
            0 <= i <= sections@.len(),
            i == out@.len(),
            forall|k: int|
                0 <= k < i ==> {
                    &&& (#[trigger] out@[k]).key == sections@[k].0
                    &&& out@[k].title == sections@[k].1
                    &&& out@[k].selected == key_selected(selected@, sections@[k].0@)
                },
        decreases sections@.len() - i,
    {
        let key = sections[i].0.clone();
        let title = sections[i].1.clone();
        let mut hit = false;
        let mut j: usize = 0;
        while j < selected.len()
            invariant
                0 <= j <= selected@.len(),
                hit == exists|q: int| 0 <= q < j && #[trigger] selected@[q]@ == key@,
            decreases selected@.len() - j,
        {
            if str_equals(selected[j].as_str(), key.as_str()) {
                hit = true;
            }
            j = j + 1;
        }
        out.push(PlexSectionRow { key, title, selected: hit });
        i = i + 1;
    }
    out
}

/// Which media servers are configured, from the configured servers' words:
/// Jellyfin, then Subsonic.
pub fn media_gates(words: &Vec<String>) -> (r: (bool, bool))
    ensures
        r.0 == key_selected(words@, "jellyfin"@),
        r.1 == key_selected(words@, "subsonic"@),
{
    let mut jf = false;
    let mut sub = false;
    let mut j: usize = 0;
    while j < words.len()
        invariant
            0 <= j <= words@.len(),
            jf == exists|q: int| 0 <= q < j && #[trigger] words@[q]@ == "jellyfin"@,
            sub == exists|q: int| 0 <= q < j && #[trigger] words@[q]@ == "subsonic"@,
        decreases words@.len() - j,
    {
        if str_equals(words[j].as_str(), "jellyfin") {
            jf = true;
        }
        if str_equals(words[j].as_str(), "subsonic") {
            sub = true;
        }
        j = j + 1;
    }
    (jf, sub)
}

/// The Albums filter as it is saved: blank text is
/// saved as an empty object; other text is parsed by the caller, which saves
/// an empty object where it does not parse.
pub fn filter_is_blank(json: &str) -> (r: bool)
    ensures
        r == (crate::text::trim(json@).len() == 0),
{
    let t = crate::text::trimmed_chars(json);
    t.len() == 0
}


/// What becomes of a finished album detail load.
#[derive(Clone, Copy, Debug, PartialEq, Eq, Structural)]
pub enum AlbumDetailFinish {
    /// A newer album was asked for, or the profile changed: nothing is shown.
    Discard,
    /// The document is shown; `open_library` when a remembered album turned
    /// out to be gone while its page is still on screen, so the Local
    /// Library opens in its place.
    Publish { open_library: bool },
}

/// The album detail loads: each request gets a new
/// revision and remembers the profile it was made under.
pub struct AlbumDetailLoads {
    pub revision: u64,
    pub profile: String,
}

impl AlbumDetailLoads {
    pub fn new(profile: String) -> (l: AlbumDetailLoads)
        ensures
            l.revision == 0,
            l.profile == profile,
    {
        AlbumDetailLoads { revision: 0, profile }
    }

    /// A request starts under `profile`; its revision is returned.
    pub fn open(&mut self, profile: String) -> (r: u64)
        ensures
            r == wrap_next(old(self).revision),
            final(self).revision == r,
            final(self).profile == profile,
    {
        self.revision = wrapping_next(self.revision);
        self.profile = profile;
        self.revision
    }

    /// The load of revision `revision` finished (`json_empty`: the album was
    /// not found) while `profile_now` is the profile and `view` the page on
    /// screen. It is shown only while it is the latest request and the
    /// profile is the one it was made under.
    pub fn finish(&self, revision: u64, profile_now: &str, restoring: bool, json_empty: bool, view: &str) -> (r: AlbumDetailFinish)
        ensures
            r == (if revision != self.revision || profile_now@ != self.profile@ {
                AlbumDetailFinish::Discard
            } else {
                AlbumDetailFinish::Publish { open_library: restoring && json_empty && view@ == "localalbum"@ }
            }),
    {
        if revision != self.revision || !str_equals(profile_now, self.profile.as_str()) {
            return AlbumDetailFinish::Discard;
        }
        AlbumDetailFinish::Publish { open_library: restoring && json_empty && str_equals(view, "localalbum") }
    }
}

/// Of two album requests, the earlier one's load is never shown.
pub proof fn lemma_earlier_album_load_discarded(revision: u64)
    ensures
        wrap_next(revision) != revision,
{
}

} // verus!
