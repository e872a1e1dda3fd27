use qbz_qt::album_identity::{coalesce_album_versions, AlbumCopy, TrackEvidence};
use qbz_qt::album_catalog::pruned_albums_filter;
use qbz_qt::label_json::{Json, Member};
use qbz_qt::media_variants::{
    catalog_media_variants, logical_album_media_variants, source_raw_or_kind, MediaVariant, PhysicalMedia,
};

fn variant(tier: &str, format: &str, source: &str) -> MediaVariant {
    MediaVariant { quality_tier: tier.to_string(), format: format.to_string(), source: source.to_string() }
}

fn key(v: &MediaVariant) -> (String, String, String) {
    (v.source.clone(), v.quality_tier.clone(), v.format.clone())
}

fn copy(id: &str, source: &str, tier: u8, bit_depth: u32, rate: u64) -> AlbumCopy {
    let tracks = [("Holy Wars", 383), ("Hangar 18", 311), ("Take No Prisoners", 208)];
    AlbumCopy {
        id: id.to_string(),
        title: "Rust in Peace".to_string(),
        artist: "Megadeth".to_string(),
        all_artists: "Megadeth".to_string(),
        identity_tracks: tracks
            .iter()
            .map(|(t, d)| TrackEvidence { title: t.to_string(), duration_secs: *d })
            .collect(),
        source: source.to_string(),
        sources: vec![source.to_string()],
        quality_tier: tier,
        bit_depth,
        sample_rate: rate,
        track_count: 3,
        artwork_path: None,
        artwork_source: None,
        genres: Vec::new(),
    }
}

#[test]
fn logical_album_keeps_all_media_variants_and_selects_dsd_by_default() {
    let pcm = copy("pcm-24-96", "user", 2, 24, 96_000);
    let dsd = copy("purchased-dsd", "qobuz_purchase", 3, 1, 2_822_400);
    let physical = vec![
        PhysicalMedia { id: "pcm-24-96".into(), variants: vec![variant("hires", "FLAC", "local")] },
        PhysicalMedia { id: "purchased-dsd".into(), variants: vec![variant("dsd", "DSD", "qobuz_purchase")] },
    ];
    let albums = vec![pcm, dsd];
    let rows = coalesce_album_versions(&albums);
    assert_eq!(rows.len(), 1);
    let logical = &rows[0];
    assert_eq!(albums[logical.representative].id, "purchased-dsd");
    let own = vec![variant("dsd", "DSD", "qobuz_purchase")];
    let variants = logical_album_media_variants(&logical.id, Some(&logical.version_ids), &physical, &own);
    assert!(variants
        .iter()
        .any(|v| v.quality_tier == "dsd" && v.format == "DSD" && v.source == "qobuz_purchase"));
    assert!(variants.iter().any(|v| v.quality_tier == "hires" && v.format == "FLAC" && v.source == "local"));
    assert_eq!(variants.len(), 2);
}

#[test]
fn variants_are_ordered_by_source_tier_and_format_each_once() {
    let physical = vec![
        PhysicalMedia {
            id: "b".into(),
            variants: vec![variant("hires", "FLAC", "plex"), variant("cd", "FLAC", "plex"), variant("cd", "FLAC", "plex")],
        },
        PhysicalMedia { id: "a".into(), variants: vec![variant("cd", "MP3", "jellyfin"), variant("cd", "FLAC", "plex")] },
    ];
    let ids = vec!["a".to_string(), "missing".to_string(), "b".to_string()];
    let got: Vec<_> = logical_album_media_variants("logical:x", Some(&ids), &physical, &Vec::new())
        .iter()
        .map(key)
        .collect();
    assert_eq!(
        got,
        vec![
            ("jellyfin".to_string(), "cd".to_string(), "MP3".to_string()),
            ("plex".to_string(), "cd".to_string(), "FLAC".to_string()),
            ("plex".to_string(), "hires".to_string(), "FLAC".to_string()),
        ]
    );
}

#[test]
fn a_card_without_version_media_falls_back_to_its_own_id_then_its_own_media() {
    let physical = vec![PhysicalMedia { id: "plex:1".into(), variants: vec![variant("cd", "FLAC", "plex")] }];
    let own = vec![variant("hires", "ALAC", "local")];
    let by_id = logical_album_media_variants("plex:1", None, &physical, &own);
    assert_eq!(by_id.iter().map(key).collect::<Vec<_>>(), vec![("plex".into(), "cd".into(), "FLAC".into())]);
    let ids = vec!["gone".to_string()];
    let by_id = logical_album_media_variants("plex:1", Some(&ids), &physical, &own);
    assert_eq!(by_id.len(), 1);
    assert_eq!(by_id[0].source, "plex");
    let own_only = logical_album_media_variants("local:7", None, &physical, &own);
    assert_eq!(own_only, own);
    let recorded_empty = vec![PhysicalMedia { id: "local:7".into(), variants: Vec::new() }];
    assert!(logical_album_media_variants("local:7", None, &recorded_empty, &own).is_empty());
}

fn member(key: &str, value: Json) -> Member {
    Member { key: key.to_string(), value }
}

#[test]
fn the_saved_albums_filter_keeps_true_keys_of_usable_sources_only() {
    let saved = Json::Object(vec![
        member("hires", Json::Bool(true)),
        member("jellyfin", Json::Bool(true)),
        member("local", Json::Bool(false)),
        member("plex", Json::Bool(true)),
        member("subsonic", Json::Str("true".to_string())),
    ]);
    assert_eq!(pruned_albums_filter(Some(&saved), true, false, true), vec!["hires", "plex"]);
    assert_eq!(pruned_albums_filter(Some(&saved), false, true, true), vec!["hires", "jellyfin"]);
    let only_plex = Json::Object(vec![member("plex", Json::Bool(true))]);
    assert!(pruned_albums_filter(Some(&only_plex), false, true, true).is_empty());
    assert!(pruned_albums_filter(Some(&Json::Bool(true)), true, true, true).is_empty());
    assert!(pruned_albums_filter(None, true, true, true).is_empty());
}

#[test]
fn catalog_cards_get_one_variant_per_source_with_the_upper_case_format() {
    let sources = vec!["plex".to_string(), "local".to_string()];
    let got = catalog_media_variants(&sources, "plex", "plex", "hires", "flac");
    assert_eq!(got.iter().map(key).collect::<Vec<_>>(), vec![
        ("plex".to_string(), "hires".to_string(), "FLAC".to_string()),
        ("local".to_string(), "hires".to_string(), "FLAC".to_string()),
    ]);
    let own = catalog_media_variants(&Vec::new(), "local", "qobuz_purchase", "dsd", "dsf");
    assert_eq!(own, vec![variant("dsd", "DSF", "qobuz_purchase")]);
    let badge = catalog_media_variants(&Vec::new(), "local", "", "cd", "Mp3");
    assert_eq!(badge, vec![variant("cd", "MP3", "local")]);
    assert_eq!(source_raw_or_kind("  ", "plex"), "plex");
    assert_eq!(source_raw_or_kind("jellyfin", "plex"), "jellyfin");
}
