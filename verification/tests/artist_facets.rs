use qbz_qt::artist_facets::{artist_facets, FacetAlbum};

fn album(source: &str, sources: &[&str], format: &str, tier: &str, year: Option<u32>) -> FacetAlbum {
    FacetAlbum {
        source: source.to_string(),
        sources: sources.iter().map(|s| s.to_string()).collect(),
        format: format.to_string(),
        tier: tier.to_string(),
        year,
    }
}

#[test]
fn an_artist_row_lists_each_facet_once_in_order() {
    let albums = vec![
        album("local", &[], "FLAC", "hires", Some(2001)),
        album("plex", &["plex", "jellyfin"], "mp3", "", None),
        album("local", &[], "flac", "cd", Some(1999)),
        album("subsonic", &[], "Alac", "hires", Some(2001)),
    ];
    let f = artist_facets(&albums);
    assert_eq!(f.sources, vec!["jellyfin", "local", "plex", "subsonic"]);
    assert_eq!(f.formats, vec!["alac", "flac", "mp3"]);
    assert_eq!(f.quality_tiers, vec!["cd", "hires"]);
    assert_eq!(f.years, vec![1999, 2001]);
    assert_eq!(f.year, "2001");
}

#[test]
fn an_artist_without_albums_has_no_facets() {
    let f = artist_facets(&Vec::new());
    assert!(f.sources.is_empty());
    assert!(f.formats.is_empty());
    assert!(f.quality_tiers.is_empty());
    assert!(f.years.is_empty());
    assert_eq!(f.year, "");
    let f = artist_facets(&vec![album("local", &[], "wav", "", None)]);
    assert_eq!(f.sources, vec!["local"]);
    assert_eq!(f.formats, vec!["wav"]);
    assert!(f.quality_tiers.is_empty());
    assert_eq!(f.year, "");
}
