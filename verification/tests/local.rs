use qbz_qt::generation::GenerationCounter;
use qbz_qt::local_names::{
    artist_initial, edition_descriptor, logical_title, name_key, normalize_discogs_artist,
    strip_edition_suffix, useful_url,
};
use qbz_qt::local_session::{
    native_requested, AlbumsQuery, AlbumsReset, ArtistQueries, ArtistSelect, QbzLocal,
};
use qbz_qt::selection::QuerySelection;

#[test]
fn edition_suffix_inference_is_deliberately_narrow() {
    assert_eq!(logical_title("Spirit of Eden (2012 Remaster)"), "spirit of eden");
    assert_eq!(edition_descriptor("Spirit of Eden (2012 Remaster)"), "2012 Remaster");
    assert_eq!(edition_descriptor("Album - Deluxe Edition"), "Deluxe Edition");
    assert_eq!(edition_descriptor("Album (Live at Montreux)"), "");
}

#[test]
fn edition_separators_and_brackets() {
    assert_eq!(strip_edition_suffix("Album \u{2014} Mono Version"), "Album");
    assert_eq!(strip_edition_suffix("Album [Bonus Tracks]"), "Album");
    assert_eq!(strip_edition_suffix("  Plain Title  "), "Plain Title");
    assert_eq!(strip_edition_suffix("Live (at the BBC) - Expanded"), "Live");
    assert_eq!(strip_edition_suffix("Live at the BBC - Expanded"), "Live at the BBC");
    assert_eq!(edition_descriptor("Album \u{2013} 25th Anniversary"), "25th Anniversary");
}

#[test]
fn discogs_numeric_disambiguation_is_identity_not_a_name_change() {
    assert_eq!(normalize_discogs_artist("Genesis (2)"), "genesis");
    assert_eq!(normalize_discogs_artist("!!!"), "");
    assert_eq!(normalize_discogs_artist("blink-182"), "blink 182");
}

#[test]
fn a_non_numeric_parenthesis_stays_part_of_the_name() {
    assert_eq!(normalize_discogs_artist("Yes (Band)"), "yes band");
    assert_eq!(name_key("  The  Beatles!! "), "the beatles");
}

#[test]
fn provider_placeholders_are_never_persisted_as_portraits() {
    assert!(!useful_url("https://lastfm/2a96cbd8b46e442fc41c2b86b821562f.png"));
    assert!(!useful_url("https://discogs/spacer.gif"));
    assert!(useful_url("https://static.qobuz.com/portrait.jpg"));
    assert!(!useful_url("   "));
}

#[test]
fn artist_alpha_bucket_matches_the_existing_rail() {
    assert_eq!(artist_initial("air"), "A");
    assert_eq!(artist_initial("123 go"), "#");
    assert_eq!(artist_initial("émilie"), "#");
    assert_eq!(artist_initial(""), "#");
}

#[test]
fn stale_artist_generation_is_not_current() {
    let mut counter = GenerationCounter::new(0);
    let old = counter.next_generation();
    let new = counter.next_generation();
    assert_ne!(old, new);
    assert_ne!(counter.current(), old);
    assert_eq!(counter.current(), new);
    assert!(!counter.is_current(old));
}

#[test]
fn superseded_album_generation_cannot_publish_as_current() {
    let mut counter = GenerationCounter::new(70);
    let old = counter.current();
    let current = counter.next_generation();
    assert_eq!(current, 71);
    assert_ne!(counter.current(), old);
}

#[test]
fn the_generation_counter_skips_zero_when_it_wraps() {
    let mut counter = GenerationCounter::new(u64::MAX);
    assert_eq!(counter.next_generation(), 1);
}

#[test]
fn filtered_artist_query_cancels_native_results_and_unfiltered_retry() {
    let mut q = ArtistQueries::new();
    q.last_search = Some("Led Zeppelin".into());
    let generation = q.generation.current();
    assert!(!q.reset("Led Zeppelin".into(), "name-asc", false, true, true));
    assert!(q.generation.current() > generation);
    assert!(q.last_search.is_none());
    assert!(!q.retry_last(true, true));
}

#[test]
fn a_supported_artist_query_starts_and_can_be_retried() {
    let mut q = ArtistQueries::new();
    assert!(!q.reset("x".into(), "name-asc", true, false, true));
    assert_eq!(q.generation.current(), 0);
    assert!(q.reset("Air".into(), "name-asc", true, true, true));
    assert_eq!(q.last_search.as_deref(), Some("Air"));
    let g = q.generation.current();
    assert!(q.retry_last(true, true));
    assert!(q.generation.current() > g);
    assert!(!q.reset("Air".into(), "name-asc", true, true, false));
    assert!(q.last_search.is_none());
}

#[test]
fn the_native_path_can_be_switched_off() {
    assert!(native_requested(false, None));
    assert!(!native_requested(true, None));
    assert!(!native_requested(false, Some(" OFF ")));
    assert!(!native_requested(false, Some("0")));
    assert!(native_requested(false, Some("yes")));
}

#[test]
fn album_selection_uses_bounded_intervals_and_descriptor_all() {
    let mut selection = QuerySelection::default();
    selection.toggle(10, false);
    selection.toggle(50_000, true);
    assert_eq!(selection.ranges, vec![(10, 50_000)]);
    assert_eq!(selection.count(1_000_000), 49_991);

    selection = QuerySelection {
        all: true,
        ..QuerySelection::default()
    };
    selection.toggle(25, false);
    selection.toggle(26, false);
    assert_eq!(selection.ranges, vec![(25, 26)]);
    assert_eq!(selection.count(1_000_000), 999_998);
}

#[test]
fn the_albums_grid_selection_is_bounded_by_the_query() {
    let mut l = QbzLocal::new();
    assert_eq!(l.albums_native_toggle_select(0, false), None);
    let g = open_albums(&mut l, 100);
    assert_eq!(l.albums_native_toggle_select(-1, false), None);
    assert_eq!(l.albums_native_toggle_select(5, false), Some((g, 1)));
    assert_eq!(l.albums_native_toggle_select(500, false), Some((g, 1)));
    assert_eq!(l.albums_native_toggle_select(9, true), Some((g, 5)));
    assert_eq!(l.albums_native_select_all(), Some((g, 100)));
    assert_eq!(l.albums_native_clear_selection(), Some((g, 0)));
    l.albums_native_toggle_select(1, false);
    assert!(!l.clear_selection_generation(g + 1));
    assert!(l.clear_selection_generation(g));
    assert_eq!(l.albums_native_toggle_select(2, false), Some((g, 1)));
}

#[test]
fn pending_routes_are_released_once_consumed() {
    let mut l = QbzLocal::new();
    l.open_artist_by_name("   ".into());
    assert_eq!(l.pending_artist, "");
    l.open_artist_by_name("Air".into());
    assert_eq!(l.pending_artist, "Air");
    l.clear_pending_artist();
    assert_eq!(l.pending_artist, "");
    l.set_pending_route("{\"tab\":\"tracks\"}".into());
    l.clear_pending_route();
    assert_eq!(l.pending_route, "");
}


#[test]
fn a_current_albums_fallback_closes_the_session_and_gives_up_unless_the_catalog_was_not_ready() {
    let mut l = QbzLocal::new();
    let g = open_albums(&mut l, 10);
    assert!(!l.albums_fallback(g + 1, "action-query"));
    assert!(l.albums.is_some());
    assert!(l.albums_fallback(g, "catalog-not-ready"));
    assert!(l.albums.is_none());
    assert!(!l.albums_failed);
    let g = open_albums(&mut l, 10);
    assert!(l.albums_fallback(g, "page-worker-join"));
    assert!(l.albums_failed);
    assert!(!native_requested(l.albums_failed, None));
    assert_eq!(l.albums_native_reset(query("", 4), None, true), AlbumsReset::NotRequested);
    let mut other = QbzLocal::new();
    open_albums(&mut other, 3);
    other.albums_deactivate_for_legacy();
    assert!(other.albums.is_none());
}

fn query(search: &str, columns: i32) -> AlbumsQuery {
    AlbumsQuery {
        search: search.to_string(),
        sort: "title".to_string(),
        group: "off".to_string(),
        filter_json: String::new(),
        columns,
    }
}

/// Opens a native albums query of `total` albums: a reset, then its session.
fn open_albums(l: &mut QbzLocal, total: u64) -> u64 {
    match l.albums_native_reset(query("", 4), None, true) {
        AlbumsReset::Open { generation, .. } => {
            assert!(l.albums_native_activate(generation, query("", 4), total));
            generation
        }
        AlbumsReset::Reused => l.albums.as_ref().unwrap().generation,
        other => panic!("unexpected reset {other:?}"),
    }
}

#[test]
fn an_albums_reset_reuses_the_same_query_and_opens_a_new_one_otherwise() {
    let mut l = QbzLocal::new();
    assert_eq!(l.albums_native_reset(query("", 4), Some(" OFF "), true), AlbumsReset::NotRequested);
    assert_eq!(l.albums_last, Some(query("", 4)));
    assert_eq!(l.albums_native_reset(query("", 4), None, false), AlbumsReset::Legacy);
    let g = match l.albums_native_reset(query("", 99), None, true) {
        AlbumsReset::Open { generation, columns } => {
            assert_eq!(columns, 20);
            generation
        }
        other => panic!("unexpected reset {other:?}"),
    };
    assert!(!l.albums_native_activate(g + 1, query("", 99), 10));
    assert!(l.albums_native_activate(g, query("", 99), 10));
    assert_eq!(l.albums_native_reset(query("", 99), None, true), AlbumsReset::Reused);
    assert_eq!(l.albums_retry_last(false, None, true), AlbumsReset::Reused);
    assert_eq!(
        l.albums_retry_last(true, None, true),
        AlbumsReset::Open { generation: g + 1, columns: 20 }
    );
    assert!(l.albums.is_none());
    assert_eq!(l.albums_native_reset(query("ab", 0), None, true), AlbumsReset::Empty(g + 2));
    assert_eq!(
        l.albums_native_reset(query("abc", 0), None, true),
        AlbumsReset::Open { generation: g + 3, columns: 1 }
    );
    let mut fresh = QbzLocal::new();
    assert_eq!(fresh.albums_retry_last(false, None, true), AlbumsReset::NotRequested);
}

#[test]
fn an_artist_tap_supersedes_the_previous_albums_and_a_failure_falls_back_once() {
    let mut q = ArtistQueries::new();
    assert_eq!(q.select_artist("air", 4, false, true), ArtistSelect::Skip);
    assert_eq!(q.select_artist("air", 4, true, false), ArtistSelect::Skip);
    assert_eq!(q.select_artist("air", 40, true, true), ArtistSelect::Open { generation: 1, columns: 20 });
    assert_eq!(q.select_artist("", 4, true, true), ArtistSelect::Empty(2));
    assert!(q.reset("a".into(), "name-asc", true, true, true));
    let rail = q.generation.value;
    assert!(!q.fallback(rail + 1, "action-query"));
    assert!(!q.fallback_detail(1, "detail-worker-join"));
    assert!(q.fallback_detail(q.detail_generation.value, "catalog-not-ready"));
    assert!(!q.failed);
    assert!(q.fallback(rail, "source-counts"));
    assert!(q.failed);
    assert!(!native_requested(q.failed, None));
}

#[test]
fn name_keys_fold_accents_away() {
    assert_eq!(name_key("Beyoncé"), name_key("Beyonce"));
    assert_eq!(name_key("Beyoncé"), "beyonce");
    assert_eq!(name_key("Sigur Rós"), "sigur ros");
    assert_eq!(name_key("Sigur Ro\u{301}s"), "sigur ros");
    assert_eq!(name_key("Antonín Dvořák"), "antonin dvorak");
    assert_eq!(name_key("MØ"), "mø");
}
