use vstd::prelude::*;
use crate::album_versions::AlbumVersions;
use crate::generation::{nonzero_next, GenerationCounter};
use crate::album_stream::{grid_columns, search_too_short, MAX_COLUMNS};
use crate::selection::QuerySelection;
use crate::text::{ascii_lower_seq, chars_to_ascii_lower, str_equals, trim, trimmed_chars};

verus! {

// ---------------------------------------------------------------------------
// Whether the native catalog path is requested
// ---------------------------------------------------------------------------

/// A switch value that turns the native path off: "0", "false", "no" or
/// "off", ignoring case and surrounding white space.
pub open spec fn is_off_value(v: Seq<char>) -> bool {
    let l = ascii_lower_seq(trim(v));
    l == "0"@ || l == "false"@ || l == "no"@ || l == "off"@
}

/// The native catalog path is used unless a session failed or the switch
/// turns it off.
pub open spec fn spec_native_requested(session_failed: bool, switch: Option<Seq<char>>) -> bool {
    !session_failed && !(match switch {
        Some(v) => is_off_value(v),
        None => false,
    })
}

fn off_value(v: &str) -> (r: bool)
    ensures
        r == is_off_value(v@),
{
    let t = trimmed_chars(v);
    let l = chars_to_ascii_lower(&t);
    let s = crate::text::string_from_chars(&l);
    str_equals(s.as_str(), "0") || str_equals(s.as_str(), "false") || str_equals(s.as_str(), "no")
        || str_equals(s.as_str(), "off")
}

pub fn native_requested(session_failed: bool, switch: Option<&str>) -> (r: bool)
    ensures
        r == spec_native_requested(
            session_failed,
            match switch {
                Some(v) => Some(v@),
                None => None,
            },
        ),
{
    if session_failed {
        return false;
    }
    match switch {
        Some(v) => !off_value(v),
        None => true,
    }
}

// ---------------------------------------------------------------------------
// The native artists query
// ---------------------------------------------------------------------------

/// The native artists rail: its query generations and the last search, kept
/// for a retry after a catalog update.
pub struct ArtistQueries {
    pub generation: GenerationCounter,
    pub detail_generation: GenerationCounter,
    pub last_search: Option<String>,
    /// The rail shows native results.
    pub native_active: bool,
    /// The native rail failed in this session; the compatibility view serves
    /// the tab until restart.
    pub failed: bool,
}

/// What a tap on an artist of the native rail does.
#[derive(Clone, Copy, Debug, PartialEq, Eq, Structural)]
pub enum ArtistSelect {
    /// The native path is off or albums are grouped by metadata: nothing.
    Skip,
    /// The artist has no key: detail query `0` shows no albums.
    Empty(u64),
    /// Detail query `generation` opens, cut for `columns` columns.
    Open { generation: u64, columns: usize },
}

pub open spec fn search_view(s: Option<String>) -> Option<Seq<char>> {
    match s {
        Some(v) => Some(v@),
        None => None,
    }
}

/// The query the native rail can serve: name order, no media filter.
pub open spec fn native_query_supported(sort: Seq<char>, filter_is_default: bool) -> bool {
    sort == "name-asc"@ && filter_is_default
}

impl ArtistQueries {
    pub fn new() -> (q: ArtistQueries)
        ensures
            q.generation.value == 0,
            q.detail_generation.value == 0,
            q.last_search is None,
            !q.native_active,
            !q.failed,
    {
        ArtistQueries {
            generation: GenerationCounter::new(0),
            detail_generation: GenerationCounter::new(0),
            last_search: None,
            native_active: false,
            failed: false,
        }
    }

    /// Leave the native path for the compatibility view: every native result
    /// still in flight is superseded and nothing is kept for a retry.
    fn deactivate_for_legacy(&mut self)
        ensures
            final(self).generation.value == nonzero_next(old(self).generation.value),
            final(self).detail_generation.value == nonzero_next(old(self).detail_generation.value),
            final(self).last_search is None,
            !final(self).native_active,
    {
        self.generation.next_generation();
        self.last_search = None;
        self.detail_generation.next_generation();
        self.native_active = false;
    }

    /// Start a native artists query. Returns whether the native
    /// query was started; otherwise the compatibility view serves it. An
    /// unsupported query (another order or a media filter) or metadata
    /// grouping supersedes all native results and forgets the last search.
    pub fn reset(
        &mut self,
        search: String,
        sort: &str,
        filter_is_default: bool,
        requested: bool,
        folder_mode: bool,
    ) -> (started: bool)
        ensures
            !requested ==> !started && final(self).generation == old(self).generation
                && final(self).detail_generation == old(self).detail_generation && search_view(
                final(self).last_search,
            ) == search_view(old(self).last_search),
            requested && !(native_query_supported(sort@, filter_is_default) && folder_mode) ==> {
                &&& !started
                &&& final(self).generation.value == nonzero_next(old(self).generation.value)
                &&& final(self).detail_generation.value == nonzero_next(
                    old(self).detail_generation.value,
                )
                &&& final(self).last_search is None
                &&& !final(self).native_active
            },
            requested && native_query_supported(sort@, filter_is_default) && folder_mode ==> {
                &&& started
                &&& final(self).generation.value == nonzero_next(old(self).generation.value)
                &&& final(self).detail_generation.value == nonzero_next(
                    old(self).detail_generation.value,
                )
                &&& search_view(final(self).last_search) == Some(search@)
            },
    {
        if !requested {
            return false;
        }
        if !str_equals(sort, "name-asc") || !filter_is_default {
            self.deactivate_for_legacy();
            return false;
        }
        self.last_search = Some(search);
        if !folder_mode {
            self.deactivate_for_legacy();
            return false;
        }
        self.generation.next_generation();
        self.detail_generation.next_generation();
        true
    }

    /// A tap on the artist of key `artist_key`: when the
    /// native path serves the tab, a new detail generation supersedes the
    /// previous artist's albums.
    pub fn select_artist(&mut self, artist_key: &str, columns: i32, requested: bool, folder_mode: bool) -> (r: ArtistSelect)
        ensures
            !(requested && folder_mode) ==> r is Skip && final(self).detail_generation == old(self).detail_generation,
            requested && folder_mode ==> {
                let g = nonzero_next(old(self).detail_generation.value);
                &&& final(self).detail_generation.value == g
                &&& artist_key@.len() == 0 ==> r == ArtistSelect::Empty(g)
                &&& artist_key@.len() > 0 ==> r == (ArtistSelect::Open { generation: g, columns: clamp_columns(columns) })
            },
            final(self).generation == old(self).generation,
            final(self).failed == old(self).failed,
            final(self).native_active == old(self).native_active,
            search_view(final(self).last_search) == search_view(old(self).last_search),
    {
        if !(requested && folder_mode) {
            return ArtistSelect::Skip;
        }
        let g = self.detail_generation.next_generation();
        if crate::text::str_is_empty(artist_key) {
            return ArtistSelect::Empty(g);
        }
        ArtistSelect::Open { generation: g, columns: grid_columns(columns) }
    }

    /// The rail query of `generation` could not be served. If it
    /// is current, the native results go, the artist's albums too, and unless
    /// the catalog was merely not ready the native path is given up for the
    /// session; a superseded query's failure changes nothing.
    pub fn fallback(&mut self, generation: u64, reason: &str) -> (applied: bool)
        ensures
            applied == (generation == old(self).generation.value),
            applied ==> {
                &&& final(self).failed == (old(self).failed || reason@ != "catalog-not-ready"@)
                &&& !final(self).native_active
                &&& final(self).detail_generation.value == nonzero_next(old(self).detail_generation.value)
            },
            !applied ==> final(self).failed == old(self).failed && final(self).detail_generation == old(
                self,
            ).detail_generation && final(self).native_active == old(self).native_active,
            final(self).generation == old(self).generation,
            search_view(final(self).last_search) == search_view(old(self).last_search),
    {
        if generation != self.generation.value {
            return false;
        }
        if !str_equals(reason, "catalog-not-ready") {
            self.failed = true;
        }
        self.native_active = false;
        self.detail_generation.next_generation();
        true
    }

    /// An artist's albums query of `generation` could not be served
    ///: while it is current, the whole rail falls back.
    pub fn fallback_detail(&mut self, generation: u64, reason: &str) -> (applied: bool)
        ensures
            applied == (generation == old(self).detail_generation.value),
            applied ==> {
                &&& final(self).failed == (old(self).failed || reason@ != "catalog-not-ready"@)
                &&& !final(self).native_active
                &&& final(self).detail_generation.value == nonzero_next(old(self).detail_generation.value)
            },
            !applied ==> final(self).failed == old(self).failed && final(self).detail_generation == old(
                self,
            ).detail_generation && final(self).native_active == old(self).native_active,
            final(self).generation == old(self).generation,
    {
        if generation != self.detail_generation.value {
            return false;
        }
        let rail = self.generation.value;
        self.fallback(rail, reason)
    }

    /// Run the last search again, in name order with no filter; nothing to
    /// retry once the compatibility view took over.
    pub fn retry_last(&mut self, requested: bool, folder_mode: bool) -> (started: bool)
        ensures
            old(self).last_search is None ==> !started && final(self).generation == old(
                self,
            ).generation && final(self).last_search is None,
            old(self).last_search is Some ==> started == (requested && folder_mode),
            old(self).last_search is Some && requested ==> final(self).generation.value
                == nonzero_next(old(self).generation.value),
    {
        match &self.last_search {
            Some(search) => {
                let s = search.clone();
                self.reset(s, "name-asc", true, requested, folder_mode)
            },
            None => false,
        }
    }
}

// ---------------------------------------------------------------------------
// The native albums grid selection
// ---------------------------------------------------------------------------

/// The open native albums query: its generation, how many albums it has and
/// the selection over them.
pub struct AlbumSession {
    pub generation: u64,
    pub album_total: u64,
    pub selection: QuerySelection,
    /// The view's query the session answers.
    pub query: AlbumsQuery,
}

/// What the albums view asks of the native grid: the search, order, grouping,
/// media filter and column count.
#[derive(Clone, Debug, PartialEq, Eq)]
pub struct AlbumsQuery {
    pub search: String,
    pub sort: String,
    pub group: String,
    pub filter_json: String,
    pub columns: i32,
}

pub open spec fn same_query(a: AlbumsQuery, b: AlbumsQuery) -> bool {
    &&& a.search@ == b.search@
    &&& a.sort@ == b.sort@
    &&& a.group@ == b.group@
    &&& a.filter_json@ == b.filter_json@
    &&& a.columns == b.columns
}

impl AlbumsQuery {
    pub fn duplicate(&self) -> (r: AlbumsQuery)
        ensures
            r == *self,
    {
        AlbumsQuery {
            search: self.search.clone(),
            sort: self.sort.clone(),
            group: self.group.clone(),
            filter_json: self.filter_json.clone(),
            columns: self.columns,
        }
    }
}

fn queries_equal(a: &AlbumsQuery, b: &AlbumsQuery) -> (r: bool)
    ensures
        r == same_query(*a, *b),
{
    a.columns == b.columns && str_equals(a.search.as_str(), b.search.as_str()) && str_equals(
        a.sort.as_str(),
        b.sort.as_str(),
    ) && str_equals(a.group.as_str(), b.group.as_str()) && str_equals(
        a.filter_json.as_str(),
        b.filter_json.as_str(),
    )
}

/// The grid width a query is cut for: the column count, at least one and
/// at most `MAX_COLUMNS`.
pub open spec fn clamp_columns(c: i32) -> usize {
    if c < 1 {
        1
    } else if c > MAX_COLUMNS {
        MAX_COLUMNS
    } else {
        c as usize
    }
}

/// What a reset of the native albums grid does.
#[derive(Clone, Copy, Debug, PartialEq, Eq, Structural)]
pub enum AlbumsReset {
    /// The native grid is off: the compatibility view serves the tab.
    NotRequested,
    /// Albums are grouped by metadata: the native session closes and the
    /// compatibility view serves the tab.
    Legacy,
    /// The open session already answers this query.
    Reused,
    /// A search too short to ask the catalog: query `0` has no albums.
    Empty(u64),
    /// Query `generation` is opened, cut for `columns` columns.
    Open { generation: u64, columns: usize },
}

/// The Local Library bridge, as far as its own state goes.
pub struct QbzLocal {
    pub album_generation: GenerationCounter,
    pub albums: Option<AlbumSession>,
    /// The artist name the Artists tab should open, "" when none.
    pub pending_artist: String,
    /// The tab route the view should apply, "" when none.
    pub pending_route: String,
    /// The album open in the album view.
    pub versions: AlbumVersions,
    /// The native albums path failed in this session; the compatibility
    /// view serves the tab until restart.
    pub albums_failed: bool,
    /// The last query the albums view asked for, kept for a retry.
    pub albums_last: Option<AlbumsQuery>,
}

pub open spec fn switch_view(switch: Option<&str>) -> Option<Seq<char>> {
    match switch {
        Some(v) => Some(v@),
        None => None,
    }
}

/// What a reset of the native albums grid for `query` does from state `l`.
pub open spec fn spec_albums_reset(l: QbzLocal, query: AlbumsQuery, force: bool, switch: Option<Seq<char>>, folder_mode: bool) -> AlbumsReset {
    if !spec_native_requested(l.albums_failed, switch) {
        AlbumsReset::NotRequested
    } else if !folder_mode {
        AlbumsReset::Legacy
    } else if !force && (l.albums matches Some(s) && same_query(s.query, query)) {
        AlbumsReset::Reused
    } else if query.search@.len() > 0 && query.search@.len() < 3 {
        AlbumsReset::Empty(nonzero_next(l.album_generation.value))
    } else {
        AlbumsReset::Open { generation: nonzero_next(l.album_generation.value), columns: clamp_columns(query.columns) }
    }
}

/// The selection change to publish: the query generation and the new count.
pub type SelectionUpdate = (u64, u64);

impl QbzLocal {
    pub fn new() -> (l: QbzLocal)
        ensures
            l.album_generation.value == 0,
            l.albums is None,
            l.pending_artist@.len() == 0,
            l.pending_route@.len() == 0,
            !l.albums_failed,
            l.albums_last is None,
            l.versions.album_id@.len() == 0,
            l.versions.versions@.len() == 0,
            l.versions.index == 0,
    {
        QbzLocal {
            album_generation: GenerationCounter::new(0),
            albums: None,
            pending_artist: String::new(),
            pending_route: String::new(),
            versions: AlbumVersions::new(),
            albums_failed: false,
            albums_last: None,
        }
    }

    pub open spec fn session_wf(&self) -> bool {
        match self.albums {
            Some(s) => s.selection.wf(),
            None => true,
        }
    }

    /// A reset of the native albums grid for `query`, with
    /// the environment switch `switch` and the album grouping. When the open
    /// session answers the same query it is reused, unless `force`; otherwise
    /// a new query generation closes the session.
    fn albums_reset_inner(&mut self, query: AlbumsQuery, force: bool, switch: Option<&str>, folder_mode: bool) -> (r: AlbumsReset)
        requires
            old(self).session_wf(),
        ensures
            final(self).session_wf(),
            final(self).albums_failed == old(self).albums_failed,
            final(self).albums_last == old(self).albums_last,
            r == spec_albums_reset(*old(self), query, force, switch_view(switch), folder_mode),
            r is NotRequested || r is Reused ==> final(self).albums == old(self).albums
                && final(self).album_generation == old(self).album_generation,
            r is Legacy ==> final(self).albums is None && final(self).album_generation == old(self).album_generation,
            r is Empty || r is Open ==> final(self).albums is None && final(self).album_generation.value
                == nonzero_next(old(self).album_generation.value),
            final(self).pending_artist@ == old(self).pending_artist@,
            final(self).pending_route@ == old(self).pending_route@,
    {
        if !native_requested(self.albums_failed, switch) {
            return AlbumsReset::NotRequested;
        }
        if !folder_mode {
            self.albums = None;
            return AlbumsReset::Legacy;
        }
        if !force {
            let reused = match &self.albums {
                Some(s) => queries_equal(&s.query, &query),
                None => false,
            };
            if reused {
                return AlbumsReset::Reused;
            }
        }
        let g = self.album_generation.next_generation();
        self.albums = None;
        if search_too_short(query.search.as_str()) {
            return AlbumsReset::Empty(g);
        }
        AlbumsReset::Open { generation: g, columns: grid_columns(query.columns) }
    }

    /// The albums view asks for `query`: it is kept for a retry,
    /// then the grid resets for it.
    pub fn albums_native_reset(&mut self, query: AlbumsQuery, switch: Option<&str>, folder_mode: bool) -> (r: AlbumsReset)
        requires
            old(self).session_wf(),
        ensures
            final(self).session_wf(),
            final(self).albums_last == Some(query),
            r == spec_albums_reset(*old(self), query, false, switch_view(switch), folder_mode),
            r is NotRequested || r is Reused ==> final(self).albums == old(self).albums
                && final(self).album_generation == old(self).album_generation,
            r is Legacy ==> final(self).albums is None && final(self).album_generation == old(self).album_generation,
            r is Empty || r is Open ==> final(self).albums is None && final(self).album_generation.value
                == nonzero_next(old(self).album_generation.value),
    {
        self.albums_last = Some(query.duplicate());
        let ghost before = *self;
        let r = self.albums_reset_inner(query, false, switch, folder_mode);
        proof {
            assert(spec_albums_reset(before, query, false, switch_view(switch), folder_mode) == spec_albums_reset(
                *old(self),
                query,
                false,
                switch_view(switch),
                folder_mode,
            ));
        }
        r
    }

    /// The grid resets again for the last query asked for,
    /// after the catalog became available; nothing happens when none was.
    pub fn albums_retry_last(&mut self, force: bool, switch: Option<&str>, folder_mode: bool) -> (r: AlbumsReset)
        requires
            old(self).session_wf(),
        ensures
            final(self).session_wf(),
            old(self).albums_last is None ==> r is NotRequested && final(self).albums == old(self).albums,
            old(self).albums_last matches Some(q) ==> r == spec_albums_reset(*old(self), q, force, switch_view(switch), folder_mode),
    {
        match &self.albums_last {
            None => AlbumsReset::NotRequested,
            Some(q) => {
                let q = q.duplicate();
                self.albums_reset_inner(q, force, switch, folder_mode)
            },
        }
    }

    /// Query `generation` opened with `album_total` albums
    ///: while it is the current query, its session opens,
    /// with nothing selected.
    pub fn albums_native_activate(&mut self, generation: u64, query: AlbumsQuery, album_total: u64) -> (activated: bool)
        ensures
            activated == (generation == old(self).album_generation.value),
            activated ==> {
                &&& final(self).albums is Some
                &&& final(self).albums->0.generation == generation
                &&& final(self).albums->0.album_total == album_total
                &&& final(self).albums->0.query == query
                &&& final(self).albums->0.selection.wf()
                &&& forall|x: int| !(#[trigger] final(self).albums->0.selection.selected(x))
            },
            !activated ==> final(self).albums == old(self).albums,
            final(self).album_generation == old(self).album_generation,
            final(self).albums_failed == old(self).albums_failed,
            final(self).albums_last == old(self).albums_last,
            final(self).pending_artist@ == old(self).pending_artist@,
            final(self).pending_route@ == old(self).pending_route@,
    {
        if generation != self.album_generation.value {
            return false;
        }
        self.albums = Some(
            AlbumSession { generation, album_total, selection: QuerySelection::default(), query },
        );
        true
    }

    /// A click on album `index` of the open query. Negative or out-of-range
    /// indexes leave the selection as it is; without an open query nothing
    /// happens. Returns what to publish.
    pub fn albums_native_toggle_select(&mut self, index: i64, shift: bool) -> (r: Option<
        SelectionUpdate,
    >)
        requires
            old(self).session_wf(),
        ensures
            final(self).session_wf(),
            index < 0 || old(self).albums is None ==> r is None && final(self).albums == old(
                self,
            ).albums,
            !(index < 0 || old(self).albums is None) ==> {
                let o = old(self).albums->0;
                let n = final(self).albums->0;
                &&& final(self).albums is Some
                &&& n.generation == o.generation
                &&& n.album_total == o.album_total
                &&& r == Some((n.generation, n.selection.spec_count(n.album_total) as u64))
                &&& (index as u64) >= o.album_total ==> n.selection == o.selection
                &&& n.selection.all == o.selection.all
                &&& (index as u64) < o.album_total && !(shift && o.selection.anchor is Some)
                    ==> n.selection.anchor == Some(index as u64)
                &&& (index as u64) < o.album_total && shift && o.selection.anchor is Some
                    ==> n.selection.anchor == o.selection.anchor
                &&& (index as u64) < o.album_total && !(shift && o.selection.anchor is Some) ==> (
                forall|x: int| #[trigger]
                    n.selection.selected(x) == (if x == index {
                        !o.selection.selected(x)
                    } else {
                        o.selection.selected(x)
                    }))
                &&& (index as u64) < o.album_total && shift && o.selection.anchor is Some ==> {
                    let a = o.selection.anchor->0;
                    forall|x: int| #[trigger]
                        n.selection.selected(x) == (if (a <= x <= index) || (index <= x <= a) {
                            true
                        } else {
                            o.selection.selected(x)
                        })
                }
            },
            final(self).album_generation == old(self).album_generation,
    {
        if index < 0 {
            return None;
        }
        match self.albums.take() {
            None => None,
            Some(mut s) => {
                if (index as u64) < s.album_total {
                    s.selection.toggle(index as u64, shift);
                }
                let count = s.selection.count(s.album_total);
                let g = s.generation;
                self.albums = Some(s);
                Some((g, count))
            },
        }
    }

    /// Select every album of the open query.
    pub fn albums_native_select_all(&mut self) -> (r: Option<SelectionUpdate>)
        requires
            old(self).session_wf(),
        ensures
            final(self).session_wf(),
            old(self).albums is None ==> r is None && final(self).albums is None,
            old(self).albums is Some ==> {
                let n = final(self).albums->0;
                &&& final(self).albums is Some
                &&& n.generation == old(self).albums->0.generation
                &&& n.album_total == old(self).albums->0.album_total
                &&& forall|x: int| #[trigger] n.selection.selected(x)
                &&& r == Some((n.generation, n.album_total))
            },
            final(self).album_generation == old(self).album_generation,
    {
        match self.albums.take() {
            None => None,
            Some(mut s) => {
                s.selection.select_all();
                let count = s.selection.count(s.album_total);
                let g = s.generation;
                self.albums = Some(s);
                Some((g, count))
            },
        }
    }

    /// Clear the selection of the open query.
    pub fn albums_native_clear_selection(&mut self) -> (r: Option<SelectionUpdate>)
        requires
            old(self).session_wf(),
        ensures
            final(self).session_wf(),
            old(self).albums is None ==> r is None && final(self).albums is None,
            old(self).albums is Some ==> {
                let n = final(self).albums->0;
                &&& final(self).albums is Some
                &&& n.generation == old(self).albums->0.generation
                &&& n.album_total == old(self).albums->0.album_total
                &&& forall|x: int| !(#[trigger] n.selection.selected(x))
                &&& r == Some((n.generation, 0u64))
            },
            final(self).album_generation == old(self).album_generation,
    {
        match self.albums.take() {
            None => None,
            Some(s) => {
                let g = s.generation;
                let t = s.album_total;
                let sel = QuerySelection::default();
                let count = sel.count(t);
                self.albums = Some(AlbumSession { generation: g, album_total: t, selection: sel, query: s.query });
                Some((g, count))
            },
        }
    }

    /// Clear the selection of query `generation`, if it is still the open
    /// one; an older query's request changes nothing.
    pub fn clear_selection_generation(&mut self, generation: u64) -> (cleared: bool)
        requires
            old(self).session_wf(),
        ensures
            final(self).session_wf(),
            cleared == (old(self).albums is Some && old(self).albums->0.generation == generation),
            cleared ==> forall|x: int| !(#[trigger] final(self).albums->0.selection.selected(x)),
            !cleared ==> final(self).albums == old(self).albums,
            final(self).album_generation == old(self).album_generation,
    {
        let open = match &self.albums {
            Some(s) => s.generation == generation,
            None => false,
        };
        if !open {
            return false;
        }
        match self.albums.take() {
            None => false,
            Some(s) => {
                let g = s.generation;
                let t = s.album_total;
                self.albums = Some(
                    AlbumSession { generation: g, album_total: t, selection: QuerySelection::default(), query: s.query },
                );
                true
            },
        }
    }

    /// The native albums query of `generation` could not be served
    ///. If it is still the current query the native session
    /// closes, and unless the catalog was merely not ready yet the native path
    /// is given up for the session; the caller then shows the compatibility
    /// view. A superseded query's failure changes nothing.
    pub fn albums_fallback(&mut self, generation: u64, reason: &str) -> (applied: bool)
        ensures
            applied == (generation == old(self).album_generation.value),
            applied ==> final(self).albums is None && final(self).albums_failed == (old(self).albums_failed
                || reason@ != "catalog-not-ready"@),
            !applied ==> final(self).albums == old(self).albums && final(self).albums_failed == old(
                self,
            ).albums_failed,
            final(self).album_generation == old(self).album_generation,
            final(self).pending_artist@ == old(self).pending_artist@,
            final(self).pending_route@ == old(self).pending_route@,
    {
        if generation != self.album_generation.value {
            return false;
        }
        if !str_equals(reason, "catalog-not-ready") {
            self.albums_failed = true;
        }
        self.albums = None;
        true
    }

    /// The tab leaves the native path for the compatibility view
    ///: the native session closes.
    pub fn albums_deactivate_for_legacy(&mut self)
        ensures
            final(self).albums is None,
            final(self).albums_failed == old(self).albums_failed,
            final(self).album_generation == old(self).album_generation,
            final(self).pending_artist@ == old(self).pending_artist@,
            final(self).pending_route@ == old(self).pending_route@,
    {
        self.albums = None;
    }

    /// Route the Artists tab to an artist by name; a blank name is ignored.
    pub fn open_artist_by_name(&mut self, name: String)
        ensures
            trim(name@).len() == 0 ==> final(self).pending_artist@ == old(self).pending_artist@,
            trim(name@).len() > 0 ==> final(self).pending_artist@ == name@,
            final(self).pending_route@ == old(self).pending_route@,
    {
        let t = trimmed_chars(name.as_str());
        if t.len() == 0 {
            return;
        }
        self.pending_artist = name;
    }

    /// The view consumed the pending artist: release it, so the same artist
    /// can be routed to twice in a row.
    pub fn clear_pending_artist(&mut self)
        ensures
            final(self).pending_artist@.len() == 0,
            final(self).pending_route@ == old(self).pending_route@,
    {
        self.pending_artist = String::new();
    }

    /// Route the Local Library view to a tab (the route document is built by
    /// the caller).
    pub fn set_pending_route(&mut self, route: String)
        ensures
            final(self).pending_route@ == route@,
            final(self).pending_artist@ == old(self).pending_artist@,
    {
        self.pending_route = route;
    }

    /// The view applied the pending route: release it.
    pub fn clear_pending_route(&mut self)
        ensures
            final(self).pending_route@.len() == 0,
            final(self).pending_artist@ == old(self).pending_artist@,
    {
        self.pending_route = String::new();
    }

    /// The album view's version picker.
    pub fn album_select_version(&mut self, index: i32) -> (r: Option<(String, usize)>)
        ensures
            index < 0 || index as int >= old(self).versions.versions@.len() || index as int == old(
                self,
            ).versions.index ==> r is None && final(self).versions.index == old(self).versions.index,
            !(index < 0 || index as int >= old(self).versions.versions@.len() || index as int == old(
                self,
            ).versions.index) ==> final(self).versions.index == index as usize,
            final(self).versions.versions@ == old(self).versions.versions@,
            final(self).pending_artist@ == old(self).pending_artist@,
            final(self).pending_route@ == old(self).pending_route@,
    {
        self.versions.select_version(index)
    }
}

} // verus!
