use qbz_qt::album_catalog::{
    album_action_id, album_group_key, album_group_label, album_query_filter, audio_format, parse_group,
    parse_sort, selected_album_ids_page, source_enabled, AlbumIdent, AudioFormat, CatalogSort, SourceKind,
};
use qbz_qt::label_json::{Json, Member};
use qbz_qt::album_stream::{
    album_count, artist_stream_row, grid_columns, search_too_short, insert_anchor, nearest_anchor, NativePages, PageRequest, ScanOutput, ScanWindow,
    StreamAnchor, StreamRow, TrackGroup, WireEntry,
};
use qbz_qt::page_cache::{CachedPage, PageLru, MAX_RESIDENT_ROWS};
use qbz_qt::selection::QuerySelection;

type Anchor = StreamAnchor<&'static str, u32>;

fn row(key: &str, record: &'static str) -> StreamRow<&'static str> {
    StreamRow { group_key: key.to_string(), label: key.to_uppercase(), record }
}

fn out() -> ScanOutput<&'static str, u32> {
    ScanOutput { wire: Vec::new(), anchors: Vec::new(), jumps: Vec::new() }
}

fn everything() -> ScanWindow {
    ScanWindow { start: 0, stop: usize::MAX, collect: true }
}

/// (header, label, base, records) of each entry.
fn shape(wire: &[WireEntry<&'static str>]) -> Vec<(bool, String, usize, Vec<&'static str>)> {
    wire.iter()
        .map(|e| (e.header, e.label.clone(), e.base, e.items.iter().map(|i| i.record).collect()))
        .collect()
}

#[test]
fn an_ungrouped_scan_cuts_lines_of_the_grid_width() {
    let mut scan: Anchor = StreamAnchor::start();
    let mut o = out();
    assert!(scan.wants_page(10));
    scan.feed_page(
        vec![row("a", "r0"), row("b", "r1"), row("c", "r2")],
        None,
        TrackGroup::Off,
        2,
        &everything(),
        &mut o,
    );
    assert!(scan.done);
    assert!(!scan.wants_page(10));
    assert_eq!(scan.entry_index, 2);
    assert_eq!(scan.flat_index, 3);
    assert_eq!(
        shape(&o.wire),
        vec![
            (false, String::new(), 0, vec!["r0", "r1"]),
            (false, String::new(), 2, vec!["r2"]),
        ]
    );
    assert!(o.jumps.is_empty());
    assert!(o.anchors.is_empty());
    assert_eq!(album_count(&o.wire), 3);
}

#[test]
fn grouping_by_name_starts_each_group_with_a_header_and_a_letter() {
    let mut scan: Anchor = StreamAnchor::start();
    let mut o = out();
    scan.feed_page(
        vec![row("a", "r0"), row("a", "r1"), row("b", "r2")],
        None,
        TrackGroup::Name,
        3,
        &everything(),
        &mut o,
    );
    assert_eq!(
        shape(&o.wire),
        vec![
            (true, "A".to_string(), 0, vec![]),
            (false, String::new(), 0, vec!["r0", "r1"]),
            (true, "B".to_string(), 2, vec![]),
            (false, String::new(), 2, vec!["r2"]),
        ]
    );
    let jumps: Vec<(String, usize)> = o.jumps.iter().map(|j| (j.letter.clone(), j.index)).collect();
    assert_eq!(jumps, vec![("A".to_string(), 0), ("B".to_string(), 2)]);

    // grouped by artist: headers, but no jump bar letters
    let mut scan: Anchor = StreamAnchor::start();
    let mut o = out();
    scan.feed_page(vec![row("x", "r0"), row("y", "r1")], None, TrackGroup::Artist, 4, &everything(), &mut o);
    assert_eq!(o.wire.len(), 4);
    assert!(o.jumps.is_empty());
}

#[test]
fn a_window_hands_out_only_its_entries() {
    let mut scan: Anchor = StreamAnchor::start();
    let mut o = out();
    let w = ScanWindow { start: 1, stop: 3, collect: true };
    scan.feed_page(
        vec![row("a", "r0"), row("a", "r1"), row("b", "r2"), row("c", "r3")],
        None,
        TrackGroup::Name,
        1,
        &w,
        &mut o,
    );
    // entries: 0 header A, 1 line r0, 2 line r1, 3 header B, ...
    assert_eq!(
        shape(&o.wire),
        vec![(false, String::new(), 0, vec!["r0"]), (false, String::new(), 1, vec!["r1"])]
    );
    let mut scan: Anchor = StreamAnchor::start();
    let mut o = out();
    let none = ScanWindow { start: 0, stop: usize::MAX, collect: false };
    scan.feed_page(vec![row("a", "r0"), row("b", "r1")], None, TrackGroup::Name, 1, &none, &mut o);
    assert!(o.wire.is_empty());
    assert_eq!(o.jumps.len(), 2);
}

#[test]
fn a_page_loaded_from_an_anchor_sees_what_a_full_scan_sees() {
    // one scan over two catalog pages
    let mut scan: Anchor = StreamAnchor::start();
    let mut o = out();
    scan.feed_page(vec![row("a", "r0"), row("a", "r1"), row("a", "r2")], Some(7), TrackGroup::Name, 2, &everything(), &mut o);
    assert!(!scan.done);
    assert_eq!(scan.cursor, Some(7));
    assert_eq!(o.anchors.len(), 1);
    let anchor = o.anchors[0].snapshot();
    assert_eq!(anchor.entry_index, 2);
    assert_eq!(anchor.flat_index, 3);
    assert_eq!(anchor.pending.len(), 1);
    scan.feed_page(vec![row("b", "r3"), row("b", "r4")], None, TrackGroup::Name, 2, &everything(), &mut o);
    let full = shape(&o.wire);

    // a page load from the anchor, collecting from its entry on
    let mut resumed = anchor;
    let mut o2 = out();
    let w = ScanWindow { start: 2, stop: usize::MAX, collect: true };
    resumed.feed_page(vec![row("b", "r3"), row("b", "r4")], None, TrackGroup::Name, 2, &w, &mut o2);
    assert_eq!(shape(&o2.wire), full[2..].to_vec());
    assert_eq!(resumed.entry_index, scan.entry_index);
}

#[test]
fn the_nearest_anchor_is_the_last_one_not_past_the_target() {
    let mut anchors: Vec<Anchor> = Vec::new();
    assert!(nearest_anchor(&anchors, 50).is_none());
    for entry in [300usize, 0, 120] {
        let mut a: Anchor = StreamAnchor::start();
        a.entry_index = entry;
        insert_anchor(&mut anchors, a);
    }
    let mut replaced: Anchor = StreamAnchor::start();
    replaced.entry_index = 120;
    replaced.flat_index = 99;
    insert_anchor(&mut anchors, replaced);
    let entries: Vec<usize> = anchors.iter().map(|a| a.entry_index).collect();
    assert_eq!(entries, vec![0, 120, 300]);
    assert_eq!(nearest_anchor(&anchors, 119).unwrap().entry_index, 0);
    let hit = nearest_anchor(&anchors, 250).unwrap();
    assert_eq!((hit.entry_index, hit.flat_index), (120, 99));
    assert_eq!(nearest_anchor(&anchors, 300).unwrap().entry_index, 300);
    assert_eq!(nearest_anchor(&anchors, usize::MAX).unwrap().entry_index, 300);
}

#[test]
fn page_requests_are_cached_loaded_or_wait_for_the_anchors() {
    let (mut pages, build): (NativePages<&'static str, u32, &'static str>, bool) =
        NativePages::activate(5, 4, 2_000, TrackGroup::Off, "page0", 40, Vec::new());
    assert!(build);
    assert!(!pages.anchors_ready);
    assert_eq!(pages.anchors.len(), 1);

    assert!(matches!(pages.request_page(-1, 5), PageRequest::Ignore));
    assert!(matches!(pages.request_page(1, 0), PageRequest::Ignore));
    assert!(matches!(pages.request_page(1, 4), PageRequest::Ignore));
    assert!(matches!(pages.request_page(0, 5), PageRequest::Cached("page0")));
    // page 3 starts 300 entries after the start: loaded from the start
    match pages.request_page(3, 5) {
        PageRequest::Load(a) => assert_eq!(a.entry_index, 0),
        _ => panic!("expected a load"),
    }
    // a page already loading is not asked for twice
    assert!(matches!(pages.request_page(3, 5), PageRequest::Ignore));
    // page 9 is 900 entries past every anchor: it waits, and the builder starts
    assert!(matches!(pages.request_page(9, 5), PageRequest::Wait(true)));
    assert_eq!(pages.waiting_pages, vec![9]);
    assert!(!pages.begin_anchor_build(4));
    assert!(pages.begin_anchor_build(5));
    assert!(matches!(pages.request_page(8, 5), PageRequest::Wait(false)));

    // page 3 arrives with an anchor at entry 400
    let mut a: StreamAnchor<&'static str, u32> = StreamAnchor::start();
    a.entry_index = 400;
    assert!(!pages.commit_page(4, 3, "stale", 10, Vec::new()));
    assert!(pages.commit_page(5, 3, "page3", 40, vec![a]));
    assert!(pages.pending_pages.is_empty());
    assert!(matches!(pages.request_page(3, 5), PageRequest::Cached("page3")));

    // the builder finishes: the waiting pages come back
    let mut last: StreamAnchor<&'static str, u32> = StreamAnchor::start();
    last.entry_index = 1_000;
    last.done = true;
    assert_eq!(pages.finish_anchors(4, Vec::new(), StreamAnchor::start()), None);
    let again = pages.finish_anchors(5, Vec::new(), last).unwrap();
    assert_eq!(again, vec![9, 8]);
    assert!(pages.anchors_ready);
    assert!(!pages.anchor_building);
    match pages.request_page(9, 5) {
        PageRequest::Load(a) => assert_eq!(a.entry_index, 400),
        _ => panic!("expected a load"),
    }

    // a short query has all its anchors at once; grouping by name builds them
    let (short, build): (NativePages<&'static str, u32, &'static str>, bool) =
        NativePages::activate(6, 4, 500, TrackGroup::Name, "p", 1, Vec::new());
    assert!(short.anchors_ready);
    assert!(build);
    let (_, build): (NativePages<&'static str, u32, &'static str>, bool) =
        NativePages::activate(7, 4, 500, TrackGroup::Artist, "p", 1, Vec::new());
    assert!(!build);
}

#[test]
fn media_server_albums_carry_their_source_prefix() {
    assert_eq!(album_action_id(SourceKind::Plex, " 123 "), "plex:album:123");
    assert_eq!(album_action_id(SourceKind::Plex, "plex:album:9"), "plex:album:9");
    assert_eq!(album_action_id(SourceKind::Jellyfin, "abc"), "jellyfin:abc");
    assert_eq!(album_action_id(SourceKind::Jellyfin, "jellyfin:abc"), "jellyfin:abc");
    assert_eq!(album_action_id(SourceKind::Subsonic, "al-1"), "subsonic:al-1");
    assert_eq!(album_action_id(SourceKind::Local, "  local:42 "), "local:42");
    assert_eq!(album_action_id(SourceKind::Offline, "x"), "x");
}

#[test]
fn groups_are_keyed_by_artist_or_first_title_letter() {
    assert_eq!(album_group_key("beatles", "abbey road", TrackGroup::Artist), "beatles");
    assert_eq!(album_group_key("beatles", "abbey road", TrackGroup::Name), "a");
    assert_eq!(album_group_key("beatles", "", TrackGroup::Album), "#");
    assert_eq!(album_group_key("beatles", "abbey road", TrackGroup::Off), "");
    assert_eq!(album_group_label("The Beatles", "beatles", "abbey road", TrackGroup::Artist), "The Beatles");
    assert_eq!(album_group_label("The Beatles", "beatles", "éclair", TrackGroup::Name), "É");
    assert_eq!(album_group_label("The Beatles", "beatles", "x", TrackGroup::Off), "");
}

#[test]
fn view_words_map_to_the_query() {
    assert_eq!(parse_sort("year-desc"), CatalogSort::YearDesc);
    assert_eq!(parse_sort("title-asc"), CatalogSort::TitleAsc);
    assert_eq!(parse_sort("random"), CatalogSort::ArtistAsc);
    assert_eq!(parse_group("alpha"), TrackGroup::Name);
    assert_eq!(parse_group("artist"), TrackGroup::Artist);
    assert_eq!(parse_group("album"), TrackGroup::Off);
    assert_eq!(audio_format("FLAC"), AudioFormat::Flac);
    assert_eq!(audio_format("m4a"), AudioFormat::Alac);
    assert_eq!(audio_format("Wave"), AudioFormat::Wav);
    assert_eq!(audio_format("dff"), AudioFormat::Dsd);
    assert_eq!(audio_format("ogg"), AudioFormat::Unknown);
}

#[test]
fn a_bulk_action_gathers_the_selected_albums_page_by_page() {
    let mut sel = QuerySelection::default();
    sel.toggle(1, false);
    sel.toggle(3, false);
    let page = |ids: &[&str]| -> Vec<AlbumIdent> {
        ids.iter()
            .map(|id| AlbumIdent { source: SourceKind::Plex, native_album_id: id.to_string() })
            .collect()
    };
    let mut ids = Vec::new();
    let next = selected_album_ids_page(&sel, 0, &page(&["a", "b"]), &mut ids);
    assert_eq!(next, 2);
    let next = selected_album_ids_page(&sel, next, &page(&["c", "d"]), &mut ids);
    assert_eq!(next, 4);
    assert_eq!(ids, vec!["plex:album:b".to_string(), "plex:album:d".to_string()]);
    assert_eq!(selected_album_ids_page(&sel, u64::MAX, &page(&["e"]), &mut ids), u64::MAX);
}

#[test]
fn the_artists_list_is_a_scan_grouped_by_initial_one_artist_per_line() {
    let rows = vec![
        artist_stream_row("abba", "abba"),
        artist_stream_row("ac dc", "acdc"),
        artist_stream_row("björk", "bjork"),
        artist_stream_row("10cc", "10cc"),
    ];
    assert_eq!(rows[0].group_key, "A");
    assert_eq!(rows[3].label, "#");
    let mut scan: Anchor = StreamAnchor::start();
    let mut o = out();
    scan.feed_page(rows, None, TrackGroup::Name, 1, &everything(), &mut o);
    assert_eq!(
        shape(&o.wire),
        vec![
            (true, "A".to_string(), 0, vec![]),
            (false, String::new(), 0, vec!["abba"]),
            (false, String::new(), 1, vec!["acdc"]),
            (true, "B".to_string(), 2, vec![]),
            (false, String::new(), 2, vec!["bjork"]),
            (true, "#".to_string(), 3, vec![]),
            (false, String::new(), 3, vec!["10cc"]),
        ]
    );
    let letters: Vec<(String, usize)> = o.jumps.iter().map(|j| (j.letter.clone(), j.index)).collect();
    assert_eq!(letters, vec![("A".to_string(), 0), ("B".to_string(), 3), ("#".to_string(), 5)]);
}

#[test]
fn the_grid_is_one_to_twenty_columns_and_short_searches_find_nothing() {
    assert_eq!(grid_columns(-3), 1);
    assert_eq!(grid_columns(0), 1);
    assert_eq!(grid_columns(6), 6);
    assert_eq!(grid_columns(20), 20);
    assert_eq!(grid_columns(64), 20);
    assert!(!search_too_short(""));
    assert!(search_too_short("ab"));
    assert!(search_too_short("éé"));
    assert!(!search_too_short("abc"));
}

#[test]
fn artist_page_cache_is_bounded() {
    let mut cache: PageLru<Vec<usize>> = PageLru::new();
    for page in 0..25usize {
        let wire: Vec<usize> = (0..100).map(|row| page * 100 + row).collect();
        cache.insert(page, CachedPage { wire, rows: 100 });
    }
    assert!(cache.resident <= MAX_RESIDENT_ROWS);
    assert!(cache.evictions > 0);
}


fn on(key: &str, value: bool) -> Member {
    Member { key: key.to_string(), value: Json::Bool(value) }
}

#[test]
fn the_album_funnel_turns_on_only_true_chips_in_list_order() {
    let filter = Json::Object(vec![
        on("mp3", true),
        on("flac", true),
        on("wav", false),
        on("hires", true),
        on("plex", true),
        on("local", true),
        on("other", true),
        Member { key: "dsd".to_string(), value: Json::Str("true".to_string()) },
    ]);
    let q = album_query_filter(Some(&filter));
    assert_eq!(q.formats, vec!["flac", "mp3"]);
    assert_eq!(q.qualities, vec!["hires"]);
    assert_eq!(q.buckets, vec!["local", "plex"]);
    assert!(q.other_formats);
    let none = album_query_filter(Some(&Json::Array(Vec::new())));
    assert!(none.formats.is_empty() && none.qualities.is_empty() && none.buckets.is_empty() && !none.other_formats);
    assert!(album_query_filter(None).formats.is_empty());
}

#[test]
fn local_and_offline_are_always_read_and_servers_only_when_configured() {
    let words = vec!["subsonic".to_string()];
    assert!(source_enabled(SourceKind::Local, false, &words));
    assert!(source_enabled(SourceKind::Offline, false, &words));
    assert!(!source_enabled(SourceKind::Plex, false, &words));
    assert!(source_enabled(SourceKind::Plex, true, &words));
    assert!(!source_enabled(SourceKind::Jellyfin, true, &words));
    assert!(source_enabled(SourceKind::Subsonic, false, &words));
}
