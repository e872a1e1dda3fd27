use qbz_qt::album_versions::{split_versions, AlbumVersionGroup, VersionTrack};
use qbz_qt::genre_cache::{first_version_rows, GenreDetailCache, GenreRequest, GENRE_RAW_CACHE_LIMIT};

fn copy(key: &str, source: &str, title: &str, count: usize, depth: u32) -> Vec<VersionTrack> {
    (0..count)
        .map(|index| VersionTrack {
            id: index as i64 + 1,
            group_key: key.to_string(),
            disc_number: Some(1),
            track_number: Some(index as u32 + 1),
            quality_tier: 1,
            bit_depth: depth,
            sample_rate: 44_100,
            group_title: title.to_string(),
            source: Some(source.to_string()),
            collection_artwork_path: None,
            artwork_path: None,
        })
        .collect()
}

fn ids(rows: &[VersionTrack]) -> Vec<i64> {
    rows.iter().map(|t| t.id).collect()
}

fn load(cache: &mut GenreDetailCache, album: &str, filter: &str, versions: Vec<AlbumVersionGroup>) -> bool {
    let all: Vec<VersionTrack> = versions.iter().flat_map(|v| v.tracks.clone()).collect();
    let selected = first_version_rows(&versions);
    assert_eq!(cache.genre_album_tracks(album.to_string(), filter.to_string()), GenreRequest::Spawn);
    cache.complete_genre_load(album.to_string(), filter.to_string(), all, versions, selected, format!("doc:{album}"))
}

#[test]
fn genres_version_selection_returns_one_expanded_albums_copy() {
    let album = "test:genres-version-picker";
    let mut cd = copy("genres-cd", "plex", "Album", 2, 16);
    let mut hires = copy("genres-hires", "jellyfin", "Album (Remastered)", 3, 24);
    for track in &mut cd {
        track.id += 100;
    }
    for track in &mut hires {
        track.id += 200;
    }
    let versions = vec![
        AlbumVersionGroup { dir: "genres-hires".to_string(), tracks: hires.clone() },
        AlbumVersionGroup { dir: "genres-cd".to_string(), tracks: cd.clone() },
    ];
    let mut cache = GenreDetailCache::new();
    assert!(load(&mut cache, album, "{}", versions));

    let doc = cache.genre_version_selection(album, 1).expect("second version");
    assert_eq!(doc.version_index, 1);
    assert_eq!(doc.versions.len(), 2);
    assert_eq!(doc.selected.len(), 2);
    assert_eq!(ids(&doc.selected), ids(&cd));

    let back = cache.genre_version_selection(album, 0).expect("first version again");
    assert_eq!(back.version_index, 0);
    assert_eq!(back.versions.len(), 2);
    assert_eq!(back.selected.len(), 3);
    assert_eq!(ids(&back.selected), ids(&hires));
    assert!(cache.genre_version_selection(album, 2).is_none());
    assert!(cache.genre_version_selection(album, -1).is_none());
    assert!(cache.genre_version_selection("test:other", 0).is_none());
}

#[test]
fn a_finished_load_is_served_from_its_document_and_a_second_request_joins_the_first() {
    let mut cache = GenreDetailCache::new();
    let versions = split_versions(&copy("cd", "plex", "Album", 2, 16));
    assert_eq!(cache.genre_album_tracks("a".into(), "{}".into()), GenreRequest::Spawn);
    assert_eq!(cache.genre_album_tracks("a".into(), "{}".into()), GenreRequest::Pending);
    let selected = first_version_rows(&versions);
    assert_eq!(selected.len(), 2);
    assert!(cache.complete_genre_load("a".into(), "{}".into(), selected.clone(), versions, selected, "doc-a".into()));
    assert_eq!(cache.genre_album_tracks("a".into(), "{}".into()), GenreRequest::Cached("doc-a".to_string()));
    assert_eq!(cache.filter_of("a"), "{}");
    assert_eq!(cache.raw_tracks("a").map(|r| r.len()), Some(2));
    // Another filter is a new load.
    assert_eq!(cache.genre_album_tracks("a".into(), "{\"plex\":true}".into()), GenreRequest::Spawn);
    cache.clear();
    assert!(cache.raw_tracks("a").is_none());
    assert_eq!(cache.filter_of("a"), "");
}

#[test]
fn a_load_superseded_by_another_filter_does_not_publish() {
    let mut cache = GenreDetailCache::new();
    let versions = split_versions(&copy("cd", "plex", "Album", 2, 16));
    assert_eq!(cache.genre_album_tracks("a".into(), "old".into()), GenreRequest::Spawn);
    assert_eq!(cache.genre_album_tracks("a".into(), "new".into()), GenreRequest::Spawn);
    let rows = first_version_rows(&versions);
    assert!(!cache.complete_genre_load("a".into(), "old".into(), rows.clone(), versions.clone(), rows.clone(), "stale".into()));
    assert!(cache.raw_tracks("a").is_none());
    assert!(cache.complete_genre_load("a".into(), "new".into(), rows.clone(), versions, rows, "fresh".into()));
    assert_eq!(cache.genre_album_tracks("a".into(), "new".into()), GenreRequest::Cached("fresh".to_string()));
    // A load that found no copy keeps the fetched tracks but no document.
    assert_eq!(cache.genre_album_tracks("b".into(), "x".into()), GenreRequest::Spawn);
    let fetched = copy("cd", "plex", "Album", 1, 16);
    assert!(cache.complete_genre_load("b".into(), "x".into(), fetched, Vec::new(), Vec::new(), "empty".into()));
    assert_eq!(cache.raw_tracks("b").map(|r| r.len()), Some(1));
    assert_eq!(cache.genre_album_tracks("b".into(), "x".into()), GenreRequest::Spawn);
}

#[test]
fn only_the_latest_copy_switch_publishes() {
    let mut cache = GenreDetailCache::new();
    let mut tracks = copy("hires", "jellyfin", "Album", 3, 24);
    tracks.extend(copy("cd", "plex", "Album", 2, 16));
    let versions = split_versions(&tracks);
    assert!(load(&mut cache, "a", "{}", versions));
    let first = cache.genre_album_select_version("a".into());
    let second = cache.genre_album_select_version("a".into());
    assert_ne!(first, second);
    let pick = cache.genre_version_selection("a", 1).unwrap();
    assert!(!cache.commit_genre_version("a".into(), first, pick.selected.clone(), "first".into()));
    assert!(cache.commit_genre_version("a".into(), second, pick.selected.clone(), "second".into()));
    assert_eq!(cache.genre_album_tracks("a".into(), "{}".into()), GenreRequest::Cached("second".to_string()));
    // A load that starts after a switch keeps that switch from publishing.
    let third = cache.genre_album_select_version("a".into());
    assert_eq!(cache.genre_album_tracks("a".into(), "other".into()), GenreRequest::Spawn);
    assert!(!cache.commit_genre_version("a".into(), third, pick.selected, "late".into()));
    assert!(!cache.commit_genre_version("never-opened".into(), 1, Vec::new(), "x".into()));
}

#[test]
fn the_fetched_tracks_of_at_most_the_limit_albums_are_kept_and_the_least_id_goes_first() {
    let mut cache = GenreDetailCache::new();
    for n in 0..GENRE_RAW_CACHE_LIMIT {
        let album = format!("album-{:02}", n + 10);
        assert!(load(&mut cache, &album, "{}", split_versions(&copy("cd", "plex", "Album", 1, 16))));
    }
    assert!(cache.raw_tracks("album-10").is_some());
    assert!(load(&mut cache, "album-99", "{}", split_versions(&copy("cd", "plex", "Album", 1, 16))));
    assert!(cache.raw_tracks("album-10").is_none());
    assert_eq!(cache.genre_album_tracks("album-10".into(), "{}".into()), GenreRequest::Spawn);
    assert!(cache.raw_tracks("album-11").is_some());
    assert!(cache.raw_tracks("album-99").is_some());
    // Reloading a kept album pushes nobody out.
    assert_eq!(cache.genre_album_tracks("album-11".into(), "other".into()), GenreRequest::Spawn);
    assert!(cache.complete_genre_load("album-11".into(), "other".into(), copy("cd", "plex", "Album", 1, 16), Vec::new(), Vec::new(), String::new()));
    assert!(cache.raw_tracks("album-12").is_some());
}
