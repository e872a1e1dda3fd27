use qbz_qt::album_identity::{
    coalesce_album_versions, copies_match, copy_groups, logical_album_id, source_order,
    track_overlap, AlbumCopy, TrackEvidence,
};
use qbz_qt::album_versions::{
    album_version_art_key, disc_rows, genre_detail_art, split_versions, version_artwork_ref,
    version_info, versions_info, AlbumAction, AlbumVersionGroup, AlbumVersions, DiscAction, DiscRow,
    GenreDetails, VersionTrack,
};

fn ev(title: &str, secs: u64) -> TrackEvidence {
    TrackEvidence { title: title.to_string(), duration_secs: secs }
}

/// The id the documented formula gives: FNV-1a over the sorted ids, each as
/// its little-endian byte length and then its bytes.
fn fnv_reference(ids: &[&str]) -> String {
    let mut hash = 0xcbf29ce484222325_u64;
    let mut sorted: Vec<&str> = ids.to_vec();
    sorted.sort();
    for id in sorted {
        for byte in (id.len() as u64).to_le_bytes().into_iter().chain(id.bytes()) {
            hash ^= u64::from(byte);
            hash = hash.wrapping_mul(0x100000001b3);
        }
    }
    format!("logical:{hash:016x}")
}

#[test]
fn logical_album_id_hashes_the_sorted_ids() {
    let ids = vec!["plex:eden".to_string(), "421".to_string(), "subsonic:é".to_string()];
    let got = logical_album_id(&ids);
    assert_eq!(got, fnv_reference(&["plex:eden", "421", "subsonic:é"]));
    let reversed: Vec<String> = ids.iter().rev().cloned().collect();
    assert_eq!(logical_album_id(&reversed), got);
    assert_eq!(logical_album_id(&Vec::new()), "logical:cbf29ce484222325");
    assert!(got.starts_with("logical:") && got.len() == 24);
}

#[test]
fn sources_rank_the_users_own_files_first() {
    assert_eq!(source_order("user"), 0);
    assert_eq!(source_order("local"), 0);
    assert_eq!(source_order("qobuz_purchase"), 1);
    assert_eq!(source_order("plex"), 2);
    assert_eq!(source_order("jellyfin"), 3);
    assert_eq!(source_order("navidrome"), 4);
    assert_eq!(source_order("somewhere"), 5);
}

#[test]
fn album_copy_matching_allows_bonus_tracks_but_not_one_shared_compilation_track() {
    let album = vec![ev("One", 201), ev("Two", 202), ev("Three", 203), ev("Four", 204), ev("Five", 205)];
    let deluxe = vec![
        ev("One", 201),
        ev("Two", 202),
        ev("Three", 203),
        ev("Four", 204),
        ev("Five", 205),
        ev("Bonus A", 180),
        ev("Bonus B", 181),
    ];
    assert!(copies_match(&album, &deluxe));
    let compilation = vec![ev("One", 201), ev("Else", 202), ev("Other", 203), ev("Nope", 204)];
    assert!(!copies_match(&album, &compilation));
}

#[test]
fn track_overlap_is_one_to_one_and_tolerates_five_seconds() {
    let left = vec![ev("Song", 100), ev("Song", 100), ev("Intro (2012 Remaster)", 50)];
    let right = vec![ev("song", 104), ev("Intro", 56), ev("", 0)];
    assert_eq!(track_overlap(&left, &right), 1);
    let right = vec![ev("song", 104), ev("SONG", 95), ev("Intro", 55)];
    assert_eq!(track_overlap(&left, &right), 3);
    assert!(!copies_match(&Vec::new(), &right));
    assert!(copies_match(&vec![ev("Single", 200)], &vec![ev("single", 199)]));
}

fn t(id: i64, dir: &str, disc: Option<u32>, no: Option<u32>, tier: u8, depth: u32) -> VersionTrack {
    VersionTrack {
        id,
        group_key: dir.to_string(),
        disc_number: disc,
        track_number: no,
        quality_tier: tier,
        bit_depth: depth,
        sample_rate: 44_100,
        group_title: "Album".to_string(),
        source: None,
        collection_artwork_path: None,
        artwork_path: None,
    }
}

#[test]
fn copies_order_by_best_rank_then_size_then_directory() {
    let tracks = vec![
        t(1, "cd", Some(1), Some(2), 1, 16),
        t(2, "hires", Some(1), Some(1), 2, 24),
        t(3, "cd", Some(1), Some(1), 1, 16),
        t(4, "cd-deluxe", Some(1), Some(1), 1, 16),
        t(5, "cd-deluxe", Some(1), Some(2), 1, 16),
        t(6, "cd-deluxe", Some(1), Some(3), 1, 16),
    ];
    let v = split_versions(&tracks);
    let dirs: Vec<&str> = v.iter().map(|g| g.dir.as_str()).collect();
    assert_eq!(dirs, vec!["hires", "cd-deluxe", "cd"]);
    let cd: Vec<i64> = v[2].tracks.iter().map(|t| t.id).collect();
    assert_eq!(cd, vec![3, 1]);
}

#[test]
fn the_version_picker_switches_only_to_another_existing_copy() {
    let tracks = vec![
        t(1, "a", None, Some(1), 1, 16),
        t(2, "b", Some(2), Some(1), 2, 24),
        t(3, "b", None, Some(2), 2, 24),
    ];
    let mut a = AlbumVersions::new();
    assert!(!a.open_versions("x".into(), &Vec::new()));
    assert!(a.open_versions("album:1".into(), &tracks));
    assert_eq!(a.current_version_dir(), "b");
    assert_eq!(a.select_version(-1), None);
    assert_eq!(a.select_version(0), None);
    assert_eq!(a.select_version(5), None);
    assert_eq!(a.select_version(1), Some(("album:1".to_string(), 1)));
    assert_eq!(a.current_version_dir(), "a");
    a.select_version(0);
    let disc1: Vec<i64> = a.current_disc_tracks(1).iter().map(|t| t.id).collect();
    assert_eq!(disc1, vec![3]);
    match a.disc_action(2, "shuffle") {
        DiscAction::Play(ts, shuffle) => {
            assert_eq!(ts.len(), 1);
            assert!(shuffle);
        }
        _ => panic!("expected play"),
    }
    assert!(matches!(a.disc_action(3, "play"), DiscAction::Nothing));
    assert!(matches!(a.disc_action(1, "dance"), DiscAction::Nothing));
    match a.disc_action(1, "later") {
        DiscAction::Enqueue(ts, mode) => {
            assert_eq!(ts.len(), 1);
            assert_eq!(mode, "later");
        }
        _ => panic!("expected enqueue"),
    }
}

/// One copy of `count` tracks in directory `key`; the quality rank is the one
/// the application computes for the format (FLAC tier 1, DSD tier 2).
fn copy(key: &str, source: &str, title: &str, count: usize, tier: u8, depth: u32, rate: u64) -> Vec<VersionTrack> {
    (0..count)
        .map(|index| VersionTrack {
            id: index as i64 + 1,
            group_key: key.to_string(),
            disc_number: Some(1),
            track_number: Some(index as u32 + 1),
            quality_tier: tier,
            bit_depth: depth,
            sample_rate: rate,
            group_title: title.to_string(),
            source: Some(source.to_string()),
            collection_artwork_path: None,
            artwork_path: None,
        })
        .collect()
}

#[test]
fn versions_sort_by_quality_then_track_count_and_stay_distinct() {
    let mut tracks = copy("cd-short", "plex", "Album", 10, 1, 16, 44_100);
    tracks.extend(copy("hires-short", "jellyfin", "Album (2012 Remaster)", 9, 1, 24, 96_000));
    tracks.extend(copy("hires-deluxe", "subsonic", "Album - Deluxe Edition", 12, 1, 24, 96_000));
    let versions = split_versions(&tracks);
    assert_eq!(versions.len(), 3);
    assert_eq!(versions[0].dir, "hires-deluxe");
    assert_eq!(versions[1].dir, "hires-short");
    assert_eq!(versions[2].dir, "cd-short");

    let info = version_info(&versions[0].tracks);
    assert_eq!(info.version, "Deluxe Edition");
    assert_eq!(info.track_count, 12);
}

#[test]
fn dsd_version_is_preselected_ahead_of_pcm_hires() {
    let mut tracks = copy("pcm-24-96", "user", "Rust in Peace", 9, 1, 24, 96_000);
    tracks.extend(copy("purchased-dsd", "qobuz_purchase", "Rust in Peace", 9, 2, 1, 2_822_400));
    let versions = split_versions(&tracks);
    assert_eq!(versions[0].dir, "purchased-dsd");
}

fn album_copy(id: &str, source: &str, title: &str, tracks: &[(&str, u64)], bit_depth: u32, rate: u64) -> AlbumCopy {
    AlbumCopy {
        id: id.to_string(),
        title: title.to_string(),
        artist: "Talk Talk".to_string(),
        all_artists: "Talk Talk".to_string(),
        identity_tracks: tracks.iter().map(|(t, d)| ev(t, *d)).collect(),
        source: source.to_string(),
        sources: vec![source.to_string()],
        quality_tier: 1,
        bit_depth,
        sample_rate: rate,
        track_count: tracks.len() as u32,
        artwork_path: None,
        artwork_source: None,
        genres: Vec::new(),
    }
}

#[test]
fn merged_card_joins_genres_of_every_copy_sorted_without_case_duplicates() {
    let tracks = [("The Rainbow", 568), ("Eden", 421)];
    let mut local = album_copy("eden|talk talk", "user", "Spirit of Eden", &tracks, 16, 44_100);
    local.genres = vec!["ambient".to_string(), "rock".to_string()];
    let mut plex = album_copy("plex:eden", "plex", "Spirit of Eden", &tracks, 24, 96_000);
    plex.genres = vec!["Rock".to_string(), "Art Pop".to_string()];
    let albums = vec![local, plex];
    let rows = coalesce_album_versions(&albums);
    assert_eq!(rows.len(), 1);
    assert_eq!(rows[0].genres, vec!["ambient", "Art Pop", "Rock"]);
}

#[test]
fn merged_card_credits_every_artist_once_sorted_by_artist_key() {
    let tracks = [("The Rainbow", 568), ("Eden", 421)];
    let mut local = album_copy("eden|talk talk", "user", "Spirit of Eden", &tracks, 16, 44_100);
    local.all_artists = " Mark Hollis , ,Lee Harris".to_string();
    let mut plex = album_copy("plex:eden", "plex", "Spirit of Eden", &tracks, 24, 96_000);
    plex.all_artists = "talk talk,MARK HOLLIS,Beyoncé".to_string();
    let albums = vec![local, plex];
    let rows = coalesce_album_versions(&albums);
    assert_eq!(rows.len(), 1);
    // best copy (plex) first, then each name in key order; repeats of one
    // artist key keep the first seen
    assert_eq!(rows[0].all_artists, "Beyoncé,Lee Harris,MARK HOLLIS,Talk Talk");
}

#[test]
fn a_single_copy_credits_its_own_artists_in_key_order() {
    let tracks = [("The Rainbow", 568)];
    let mut only = album_copy("eden|talk talk", "user", "Spirit of Eden", &tracks, 16, 44_100);
    only.all_artists = "Talk Talk,Beyonce, beyoncé ".to_string();
    let rows = coalesce_album_versions(&vec![only]);
    assert_eq!(rows.len(), 1);
    assert_eq!(rows[0].all_artists, "Beyonce,Talk Talk");
}

#[test]
fn album_copies_require_content_evidence_and_keep_every_source() {
    let tracks = [("The Rainbow", 568), ("Eden", 421), ("Desire", 439), ("Inheritance", 341)];
    let local = album_copy("eden|talk talk", "user", "Spirit of Eden", &tracks, 16, 44_100);
    let plex = album_copy("plex:eden", "plex", "Spirit of Eden (2012 Remaster)", &tracks, 24, 96_000);
    let albums = vec![local, plex];
    let rows = coalesce_album_versions(&albums);
    assert_eq!(rows.len(), 1);
    assert_eq!(albums[rows[0].representative].source, "plex");
    assert_eq!(rows[0].sources, vec!["user", "plex"]);
    assert_eq!(rows[0].version_ids.len(), 2);
    assert_eq!(rows[0].title, "Spirit of Eden");
    assert_eq!(rows[0].id, logical_album_id(&rows[0].version_ids));

    let unrelated = album_copy(
        "subsonic:other",
        "subsonic",
        "Spirit of Eden",
        &[("Completely Different", 568), ("Still Different", 421)],
        24,
        96_000,
    );
    let mut albums = albums;
    albums.push(unrelated);
    let rows = coalesce_album_versions(&albums);
    assert_eq!(rows.len(), 2, "title and artist alone must never merge");
}

#[test]
fn coverless_best_audio_copy_uses_the_best_available_group_cover() {
    let tracks = [("Eres Toda una Mujer", 209), ("Amar y Querer", 191)];
    let mut jellyfin = album_copy("jellyfin:romanticos", "jellyfin", "Siempre Romanticos!", &tracks, 24, 96_000);
    jellyfin.artwork_path = None;
    let mut plex = album_copy("plex:romanticos", "plex", "Siempre Romanticos!", &tracks, 16, 44_100);
    plex.artwork_path = Some("/library/metadata/romanticos/thumb".to_string());
    let albums = vec![plex, jellyfin];
    let rows = coalesce_album_versions(&albums);
    assert_eq!(rows.len(), 1);
    assert_eq!(albums[rows[0].representative].source, "jellyfin");
    assert_eq!(
        rows[0].artwork,
        Some(("/library/metadata/romanticos/thumb".to_string(), "plex".to_string()))
    );
}

#[test]
fn unusable_names_and_missing_evidence_stay_alone_in_id_order() {
    let tracks = [("A", 100)];
    let mut unknown = album_copy("b", "user", "Unknown Album", &tracks, 16, 44_100);
    unknown.artist = "X".into();
    let mut no_tracks = album_copy("a", "user", "Real", &[], 16, 44_100);
    no_tracks.artist = "X".into();
    let groups = copy_groups(&vec![unknown, no_tracks]);
    assert_eq!(groups, vec![vec![1], vec![0]]);
}

fn art(t: VersionTrack, source: Option<&str>, collection: Option<&str>, own: Option<&str>) -> VersionTrack {
    VersionTrack {
        source: source.map(|s| s.to_string()),
        collection_artwork_path: collection.map(|s| s.to_string()),
        artwork_path: own.map(|s| s.to_string()),
        ..t
    }
}

#[test]
fn a_box_set_gets_one_divider_per_disc_in_disc_order() {
    let tracks = vec![
        t(10, "box", Some(2), Some(1), 1, 16),
        t(11, "box", None, Some(1), 1, 16),
        t(12, "box", Some(2), Some(2), 1, 16),
        t(13, "box", Some(3), Some(1), 1, 16),
        t(14, "box", Some(1), Some(2), 1, 16),
    ];
    assert_eq!(
        disc_rows(&tracks),
        vec![
            DiscRow { disc: 1, track_id: 11 },
            DiscRow { disc: 2, track_id: 10 },
            DiscRow { disc: 3, track_id: 13 },
        ]
    );
    let single = vec![t(1, "a", Some(1), Some(1), 1, 16), t(2, "a", None, Some(2), 1, 16)];
    assert!(disc_rows(&single).is_empty());
    assert!(disc_rows(&Vec::new()).is_empty());
}

#[test]
fn a_coverless_copy_borrows_the_first_cover_in_picker_order() {
    let plain = t(1, "a", Some(1), Some(1), 1, 16);
    let coverless = vec![art(plain.clone(), Some("plex"), Some(""), None)];
    let second = vec![
        art(t(2, "b", Some(1), Some(1), 1, 16), Some("jellyfin"), None, Some("/b/1.jpg")),
        art(t(3, "b", Some(1), Some(2), 1, 16), None, Some("/b/box.jpg"), None),
    ];
    let groups = vec![
        AlbumVersionGroup { dir: "a".to_string(), tracks: coverless.clone() },
        AlbumVersionGroup { dir: "b".to_string(), tracks: second.clone() },
    ];
    // the collection cover wins over an earlier track cover
    assert_eq!(
        version_artwork_ref(&second, &groups),
        Some((None, "/b/box.jpg".to_string()))
    );
    assert_eq!(
        version_artwork_ref(&coverless, &groups),
        Some((None, "/b/box.jpg".to_string()))
    );
    let own = vec![art(plain, Some("plex"), None, Some("/a/1.jpg"))];
    assert_eq!(
        version_artwork_ref(&own, &groups),
        Some((Some("plex".to_string()), "/a/1.jpg".to_string()))
    );
    let bare = vec![AlbumVersionGroup { dir: "a".to_string(), tracks: coverless.clone() }];
    assert_eq!(version_artwork_ref(&coverless, &bare), None);

    assert_eq!(album_version_art_key("local:7", 12), "album-version:local:7:12");
    assert_eq!(album_version_art_key("x", 0), "album-version:x:0");
    let (key, found) = genre_detail_art("g1", &groups, 0);
    assert_eq!(key, "album-version:g1:0");
    assert!(found.is_some());
    let (key, found) = genre_detail_art("g1", &bare, 0);
    assert_eq!(key, "");
    assert!(found.is_none());
}

#[test]
fn album_actions_start_at_the_clicked_row_of_the_shown_copy() {
    let rows = vec![
        t(5, "a", Some(1), Some(1), 1, 16),
        t(6, "a", Some(1), Some(2), 1, 16),
        t(7, "a", Some(2), Some(1), 1, 16),
    ];
    let mut genres = GenreDetails::new();
    genres.insert("g".to_string(), rows.clone());
    match genres.genre_album_action("g", "play", Some(7)) {
        AlbumAction::Play(ts, start, shuffle) => {
            assert_eq!(ts.len(), 3);
            assert_eq!(start, 2);
            assert!(!shuffle);
        }
        _ => panic!("expected play"),
    }
    match genres.genre_album_action("g", "shuffle", Some(99)) {
        AlbumAction::Play(_, start, shuffle) => {
            assert_eq!(start, 0);
            assert!(shuffle);
        }
        _ => panic!("expected play"),
    }
    match genres.genre_album_action("g", "next", None) {
        AlbumAction::Enqueue(ts, mode) => {
            assert_eq!(ts.len(), 3);
            assert_eq!(mode, "next");
        }
        _ => panic!("expected enqueue"),
    }
    assert!(matches!(genres.genre_album_action("g", "radio", None), AlbumAction::Nothing));
    assert!(matches!(genres.genre_album_action("other", "play", None), AlbumAction::Nothing));

    match genres.genre_disc_action("g", 1, "queue") {
        DiscAction::Enqueue(ts, mode) => {
            let ids: Vec<i64> = ts.iter().map(|t| t.id).collect();
            assert_eq!(ids, vec![5, 6]);
            assert_eq!(mode, "queue");
        }
        _ => panic!("expected enqueue"),
    }
    assert!(matches!(genres.genre_disc_action("g", 4, "play"), DiscAction::Nothing));
    assert!(matches!(genres.genre_disc_action("other", 1, "play"), DiscAction::Nothing));

    let mut a = AlbumVersions::new();
    assert!(matches!(a.selected_album_action("play", None), AlbumAction::Nothing));
    assert!(a.open_versions("album:9".into(), &rows));
    assert_eq!(a.current_version_tracks().len(), 3);
    match a.selected_album_action("play", Some(6)) {
        AlbumAction::Play(_, start, _) => assert_eq!(start, 1),
        _ => panic!("expected play"),
    }
}

#[test]
fn the_picker_lists_every_copy_with_its_edition_and_size() {
    let mut tracks = copy("std", "plex", "Album", 3, 1, 16, 44_100);
    tracks.extend(copy("dlx", "plex", "Album (Deluxe Edition)", 5, 1, 16, 44_100));
    let versions = split_versions(&tracks);
    let infos = versions_info(&versions);
    assert_eq!(infos.len(), 2);
    assert_eq!(infos[0].version, "Deluxe Edition");
    assert_eq!(infos[0].track_count, 5);
    assert_eq!(infos[1].version, "");
    assert_eq!(infos[1].track_count, 3);
    let empty = version_info(&Vec::new());
    assert_eq!(empty.version, "");
    assert_eq!(empty.track_count, 0);
}

#[test]
fn selected_version_owns_art_and_coverless_version_falls_back() {
    let mut jellyfin = copy("jf-hires", "jellyfin", "Album", 2, 1, 24, 96_000);
    let mut plex = copy("plex-cd", "plex", "Album", 2, 1, 16, 44_100);
    plex[0].artwork_path = Some("/library/metadata/album/thumb".to_string());
    let versions = vec![
        AlbumVersionGroup { dir: "jf-hires".to_string(), tracks: jellyfin.clone() },
        AlbumVersionGroup { dir: "plex-cd".to_string(), tracks: plex.clone() },
    ];

    let fallback = version_artwork_ref(&jellyfin, &versions).expect("Plex fallback");
    assert_eq!(fallback.0.as_deref(), Some("plex"));
    assert_eq!(fallback.1, "/library/metadata/album/thumb");

    jellyfin[1].artwork_path = Some("jf:item:cover".to_string());
    let selected = version_artwork_ref(&jellyfin, &versions).expect("selected cover");
    assert_eq!(selected.0.as_deref(), Some("jellyfin"));
    assert_eq!(selected.1, "jf:item:cover");

    assert_ne!(album_version_art_key("logical:album", 0), album_version_art_key("logical:album", 1));
}

#[test]
fn genres_disc_menu_targets_its_album_and_disc_only() {
    let album = "test:genres-disc-actions";
    let rows = vec![
        t(11, "d", Some(1), None, 0, 0),
        t(21, "d", Some(2), None, 0, 0),
        t(22, "d", Some(2), None, 0, 0),
    ];
    let mut genres = GenreDetails::new();
    genres.insert(album.to_string(), rows);

    let selected = genres.genre_disc_tracks(album, 2);
    assert_eq!(selected.iter().map(|t| t.id).collect::<Vec<_>>(), [21, 22]);
    assert!(genres.genre_disc_tracks("test:another-album", 2).is_empty());

    genres.remove(album);
    assert!(genres.genre_disc_tracks(album, 2).is_empty());
}

#[test]
fn switching_copies_yields_the_document_of_the_copy_shown() {
    let tracks = vec![
        t(1, "a", None, Some(1), 1, 16),
        t(2, "b", Some(2), Some(1), 2, 24),
        t(3, "b", None, Some(2), 2, 24),
    ];
    let mut a = AlbumVersions::new();
    assert!(a.open_versions("album:1".into(), &tracks));
    assert!(a.select_version_doc(0).is_none());
    let d = a.select_version_doc(1).expect("a document for copy 1");
    assert_eq!(d.album_id, "album:1");
    assert_eq!(d.version_index, 1);
    assert_eq!(d.art_key, "album-version:album:1:1");
    assert_eq!(d.versions.len(), 2);
    assert_eq!(d.tracks.iter().map(|t| t.id).collect::<Vec<_>>(), vec![1]);
    assert!(d.discs.is_empty());
    assert!(a.select_version_doc(1).is_none());
    let b = a.version_doc("album:1", 0).expect("copy 0 has tracks");
    assert_eq!(b.tracks.iter().map(|t| t.id).collect::<Vec<_>>(), vec![3, 2]);
    assert_eq!(b.discs.iter().map(|r| (r.disc, r.track_id)).collect::<Vec<_>>(), vec![(1, 3), (2, 2)]);
    assert!(a.version_doc("album:1", 5).is_none());
}
