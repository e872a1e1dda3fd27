use qbz_qt::tracks_page::{
    compare_tracks, effective_tracks_sort, merge_track_pages, CandidatePage, PageTrack,
    TrackSort, TrackSourcePage,
};

fn row(id: i64, title: &str, artist: &str, album: &str, path: &str) -> PageTrack {
    PageTrack {
        id,
        title: title.to_string(),
        artist: artist.to_string(),
        album_artist: None,
        album: album.to_string(),
        disc_number: Some(1),
        track_number: Some(1),
        year: None,
        indexed_at: id,
        file_path: path.to_string(),
    }
}

#[test]
fn grouping_picks_its_own_order() {
    assert_eq!(effective_tracks_sort("title-desc", "album"), "default");
    assert_eq!(effective_tracks_sort("title-desc", "artist"), "group-artist");
    assert_eq!(effective_tracks_sort("title-desc", "name"), "title-asc");
    assert_eq!(effective_tracks_sort("title-desc", "off"), "title-desc");
}

#[test]
fn titles_compare_ascii_case_insensitively_then_by_artist() {
    let a = row(1, "alpha", "Zed", "X", "/a");
    let b = row(2, "ALPHA", "abe", "X", "/b");
    assert_eq!(compare_tracks(&a, &b, TrackSort::TitleAsc), 1);
    assert_eq!(compare_tracks(&b, &a, TrackSort::TitleAsc), -1);
    let c = row(3, "Beta", "Zed", "X", "/c");
    assert_eq!(compare_tracks(&a, &c, TrackSort::TitleDesc), 1);
    let mut y1 = row(4, "t", "a", "x", "/d");
    y1.year = Some(1999);
    let y2 = row(5, "t", "a", "x", "/e");
    assert_eq!(compare_tracks(&y1, &y2, TrackSort::YearDesc), -1);
    assert_eq!(compare_tracks(&y1, &y2, TrackSort::YearAsc), -1);
    assert_eq!(compare_tracks(&y2, &y2, TrackSort::Default), 0);
    assert_eq!(TrackSort::from_str_value("added-desc"), TrackSort::AddedDesc);
    assert_eq!(TrackSort::from_str_value("nonsense"), TrackSort::Default);
}

#[test]
fn mixed_pages_merge_into_one_global_order_and_count_their_sources() {
    let local = CandidatePage {
        source: TrackSourcePage::Local,
        rows: vec![row(1, "Apple", "A", "X", "/l1"), row(2, "Cherry", "A", "X", "/l2")],
    };
    let plex = CandidatePage {
        source: TrackSourcePage::Plex,
        rows: vec![row(9, "Banana", "A", "X", "/p1"), row(8, "Apple", "A", "X", "/p0")],
    };
    let m = merge_track_pages(vec![local, plex], TrackSort::TitleAsc, 3);
    let ids: Vec<i64> = m.rows.iter().map(|r| r.id).collect();
    assert_eq!(ids, vec![1, 8, 9]);
    assert!(m.has_more);
    assert_eq!(m.consumed.local, 1);
    assert_eq!(m.consumed.plex, 2);
    assert_eq!(m.published, m.consumed);
    let local = CandidatePage { source: TrackSourcePage::Local, rows: vec![row(1, "Apple", "A", "X", "/l1")] };
    let m = merge_track_pages(vec![local], TrackSort::TitleAsc, 3);
    assert!(!m.has_more);
    assert_eq!(m.rows.len(), 1);
}

// ---------------------------------------------------------------------------
// The merged pages over large mixed catalogs
// ---------------------------------------------------------------------------

use std::cmp::Ordering;
use std::collections::HashSet;

/// The rows of one page of the Tracks tab (the library's page size).
const TRACKS_PAGE: usize = 200;

/// Ids of each catalog live in their own range.
const ID_BAND: i64 = 1 << 40;

struct Fixture {
    local: Vec<PageTrack>,
    plex: Vec<PageTrack>,
    jellyfin: Vec<PageTrack>,
    subsonic: Vec<PageTrack>,
}

#[derive(Clone, Copy, Default, Debug)]
struct Offsets {
    local: usize,
    plex: usize,
    jellyfin: usize,
    subsonic: usize,
}

fn source_rank(source: TrackSourcePage) -> u64 {
    match source {
        TrackSourcePage::Local => 0,
        TrackSourcePage::Plex => 1,
        TrackSourcePage::Jellyfin => 2,
        TrackSourcePage::Subsonic => 3,
    }
}

fn source_of(row: &PageTrack) -> TrackSourcePage {
    match row.id / ID_BAND {
        1 => TrackSourcePage::Plex,
        2 => TrackSourcePage::Jellyfin,
        3 => TrackSourcePage::Subsonic,
        _ => TrackSourcePage::Local,
    }
}

fn ordering(c: i8) -> Ordering {
    c.cmp(&0)
}

fn native_tie(source: TrackSourcePage, a: &PageTrack, b: &PageTrack) -> Ordering {
    match source {
        TrackSourcePage::Plex => a.file_path.cmp(&b.file_path),
        _ => a.id.cmp(&b.id),
    }
    .then(a.file_path.cmp(&b.file_path))
}

fn global_cmp(a: &PageTrack, b: &PageTrack, sort: TrackSort) -> Ordering {
    let source_a = source_of(a);
    let source_b = source_of(b);
    ordering(compare_tracks(a, b, sort))
        .then(source_rank(source_a).cmp(&source_rank(source_b)))
        .then_with(|| native_tie(source_a, a, b))
}

fn source_rows(source: TrackSourcePage, count: usize, sort: TrackSort) -> Vec<PageTrack> {
    let rank = source_rank(source) as usize;
    let mut rows = (0..count)
        .map(|i| {
            let global = i * 4 + rank;
            let (id, file_path, album_artist) = match source {
                TrackSourcePage::Local => (
                    i as i64 + 1,
                    format!("/fixture/local-{i:05}.flac"),
                    Some(format!("Artist {:02}", global % 17)),
                ),
                TrackSourcePage::Plex => (ID_BAND + i as i64 + 1, format!("plex-{i:05}"), None),
                TrackSourcePage::Jellyfin => (
                    2 * ID_BAND + i as i64 + 1,
                    format!("jellyfin-{i:05}"),
                    Some(format!("Artist {:02}", global % 17)),
                ),
                TrackSourcePage::Subsonic => (
                    3 * ID_BAND + i as i64 + 1,
                    format!("subsonic-{i:05}"),
                    Some(format!("Artist {:02}", global % 17)),
                ),
            };
            PageTrack {
                id,
                title: format!("Track {:05}", global / 20),
                artist: format!("Artist {:02}", global % 17),
                album_artist,
                album: format!("Album {:04}", global / 40),
                disc_number: Some(1),
                track_number: Some((global % 10 + 1) as u32),
                year: Some(1980 + (global % 47) as u32),
                indexed_at: global as i64,
                file_path,
            }
        })
        .collect::<Vec<_>>();
    rows.sort_by(|a, b| ordering(compare_tracks(a, b, sort)).then_with(|| native_tie(source, a, b)));
    rows
}

fn fixture(local: usize, plex: usize, jellyfin: usize, subsonic: usize, sort: TrackSort) -> Fixture {
    Fixture {
        local: source_rows(TrackSourcePage::Local, local, sort),
        plex: source_rows(TrackSourcePage::Plex, plex, sort),
        jellyfin: source_rows(TrackSourcePage::Jellyfin, jellyfin, sort),
        subsonic: source_rows(TrackSourcePage::Subsonic, subsonic, sort),
    }
}

fn candidate(rows: &[PageTrack], offset: usize) -> Vec<PageTrack> {
    rows.iter().skip(offset).take(TRACKS_PAGE + 1).cloned().collect()
}

fn page(fixture: &Fixture, offsets: Offsets, sort: TrackSort) -> qbz_qt::tracks_page::MergedTrackPage {
    merge_track_pages(
        vec![
            CandidatePage { source: TrackSourcePage::Local, rows: candidate(&fixture.local, offsets.local) },
            CandidatePage { source: TrackSourcePage::Plex, rows: candidate(&fixture.plex, offsets.plex) },
            CandidatePage {
                source: TrackSourcePage::Jellyfin,
                rows: candidate(&fixture.jellyfin, offsets.jellyfin),
            },
            CandidatePage {
                source: TrackSourcePage::Subsonic,
                rows: candidate(&fixture.subsonic, offsets.subsonic),
            },
        ],
        sort,
        TRACKS_PAGE,
    )
}

fn collect_union(fixture: &Fixture, sort: TrackSort) -> Vec<PageTrack> {
    let mut offsets = Offsets::default();
    let mut out = Vec::new();
    loop {
        let merged = page(fixture, offsets, sort);
        offsets.local += merged.consumed.local;
        offsets.plex += merged.consumed.plex;
        offsets.jellyfin += merged.consumed.jellyfin;
        offsets.subsonic += merged.consumed.subsonic;
        let done = !merged.has_more;
        out.extend(merged.rows);
        if done {
            break;
        }
    }
    out
}

#[test]
fn mixed_pages_are_globally_ordered_and_every_id_occurs_once() {
    let sort = TrackSort::from_str_value("title-asc");
    let input = fixture(624, 5_137, 701, 650, sort);
    let rows = collect_union(&input, sort);
    assert_eq!(rows.len(), 7_112);
    let ids: HashSet<i64> = rows.iter().map(|row| row.id).collect();
    assert_eq!(ids.len(), rows.len());
    assert!(rows.windows(2).all(|pair| global_cmp(&pair[0], &pair[1], sort).is_le()));
}

#[test]
fn every_supported_sort_stays_global_across_page_boundaries() {
    for word in [
        "default",
        "title-asc",
        "title-desc",
        "artist-asc",
        "artist-desc",
        "group-artist",
        "year-asc",
        "year-desc",
        "added-desc",
    ] {
        let sort = TrackSort::from_str_value(word);
        let input = fixture(377, 513, 421, 389, sort);
        let rows = collect_union(&input, sort);
        assert_eq!(rows.len(), 1_700, "sort {word}");
        let ids: HashSet<i64> = rows.iter().map(|row| row.id).collect();
        assert_eq!(ids.len(), rows.len(), "sort {word}");
        assert!(
            rows.windows(2).all(|pair| global_cmp(&pair[0], &pair[1], sort).is_le()),
            "sort {word}"
        );
    }
}

#[test]
fn grouped_pages_keep_the_first_page_as_an_immutable_prefix() {
    let effective = effective_tracks_sort("added-desc", "artist");
    assert_eq!(effective, "group-artist");
    let sort = TrackSort::from_str_value(effective);
    let input = fixture(624, 1_337, 701, 650, sort);
    let first = page(&input, Offsets::default(), sort);
    assert_eq!(first.rows.len(), TRACKS_PAGE);
    assert!(first.has_more);

    let all = collect_union(&input, sort);
    let first_ids = first.rows.iter().map(|row| row.id).collect::<Vec<_>>();
    let all_prefix = all.iter().take(first_ids.len()).map(|row| row.id).collect::<Vec<_>>();
    assert_eq!(all_prefix, first_ids);
    assert!(all.windows(2).all(|pair| global_cmp(&pair[0], &pair[1], sort).is_le()));

    assert_eq!(effective_tracks_sort("year-desc", "album"), "default");
    assert_eq!(effective_tracks_sort("year-desc", "name"), "title-asc");
    assert_eq!(effective_tracks_sort("year-desc", "off"), "year-desc");
}

#[test]
fn local_rows_remaining_after_a_mixed_first_page_are_not_skipped() {
    let sort = TrackSort::from_str_value("title-asc");
    let input = fixture(624, 0, 800, 800, sort);
    let first = page(&input, Offsets::default(), sort);
    assert_eq!(first.rows.len(), TRACKS_PAGE);
    assert!(first.consumed.local > 0);
    assert!(first.consumed.local < 624);
    assert_eq!(
        first.consumed.local,
        first.rows.iter().filter(|row| source_of(row) == TrackSourcePage::Local).count()
    );

    let all = collect_union(&input, sort);
    assert_eq!(all.len(), 2_224);
    assert_eq!(all.iter().filter(|row| source_of(row) == TrackSourcePage::Local).count(), 624);
}

#[test]
fn remote_only_union_is_paged_and_complete() {
    let sort = TrackSort::from_str_value("title-asc");
    let input = fixture(0, 0, 1_201, 0, sort);
    let first = page(&input, Offsets::default(), sort);
    assert_eq!(first.rows.len(), TRACKS_PAGE);
    assert!(first.has_more);
    assert_eq!(first.consumed.local, 0);
    assert_eq!(collect_union(&input, sort).len(), 1_201);
}

#[test]
fn local_only_and_plex_only_unions_are_complete() {
    let sort = TrackSort::from_str_value("title-asc");
    let local = fixture(1_201, 0, 0, 0, sort);
    let plex = fixture(0, 5_137, 0, 0, sort);
    assert_eq!(collect_union(&local, sort).len(), 1_201);
    assert_eq!(collect_union(&plex, sort).len(), 5_137);
}
