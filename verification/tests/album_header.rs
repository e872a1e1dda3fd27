use qbz_qt::album_header::{header_all_artists, header_artist, header_genres, HeaderTrack};

fn track(artist: &str, album_artist: Option<&str>, genres: &[&str]) -> HeaderTrack {
    HeaderTrack {
        artist: artist.to_string(),
        album_artist: album_artist.map(|a| a.to_string()),
        genres: genres.iter().map(|g| g.to_string()).collect(),
    }
}

#[test]
fn a_copy_whose_tracks_disagree_is_by_various_artists() {
    let same = vec![track("A", Some("Band"), &[]), track("B", Some("Band"), &[])];
    assert_eq!(header_artist(&same, "Various Artists"), "Band");
    let mixed = vec![track("A", Some("Band"), &[]), track("A", None, &[])];
    assert_eq!(header_artist(&mixed, "Various Artists"), "Various Artists");
    let plain = vec![track("Solo", None, &[])];
    assert_eq!(header_artist(&plain, "Various Artists"), "Solo");
}

#[test]
fn every_credited_artist_is_listed_once_in_first_appearance_order() {
    let tracks = vec![
        track("A", None, &[]),
        track(" B ", None, &[]),
        track("A", None, &[]),
        track("   ", None, &[]),
        track("C", None, &[]),
    ];
    assert_eq!(header_all_artists(&tracks), "A, B, C");
    assert_eq!(header_all_artists(&vec![track("", None, &[])]), "");
    assert_eq!(header_all_artists(&vec![track("Solo", None, &[])]), "Solo");
}

#[test]
fn genres_are_sorted_by_lower_case_and_repeats_up_to_case_dropped() {
    let tracks = vec![
        track("A", None, &["Rock", "pop"]),
        track("A", None, &["rock", "Jazz"]),
        track("A", None, &[]),
    ];
    assert_eq!(header_genres(&tracks), vec!["Jazz", "pop", "Rock"]);
    assert!(header_genres(&vec![track("A", None, &[])]).is_empty());
}
