use qbz_qt::portrait_resolve::{
    DiscogsHit, LastFmHit, MusicBrainzHit, PortraitFound, PortraitLookup, QobuzHit, ResolveStep,
};

fn q(name: &str, key: &str, image: Option<&str>) -> QobuzHit {
    QobuzHit { name: name.to_string(), key: key.to_string(), image: image.map(str::to_string) }
}

fn found(url: &str, source: &str, name: &str) -> ResolveStep {
    ResolveStep::Found(PortraitFound {
        url: url.to_string(),
        source: source.to_string(),
        canonical_name: name.to_string(),
    })
}

#[test]
fn the_catalog_hit_of_the_same_artist_wins_first() {
    let (mut l, step) = PortraitLookup::start("Bjork".into(), "bjork".into());
    assert_eq!(step, ResolveStep::SearchQobuz { query: "Bjork".to_string() });
    let hits = vec![q("Björk Guðmunds", "bjork gudmunds", Some("https://q/a.jpg")), q("Björk", "bjork", Some("https://q/b.jpg"))];
    assert_eq!(l.on_qobuz(&hits), found("https://q/b.jpg", "qobuz", "Björk"));
}

#[test]
fn a_placeholder_falls_through_to_last_fm_and_its_spelling() {
    let (mut l, _) = PortraitLookup::start("the beatles".into(), "beatles".into());
    let hits = vec![q("The Beatles", "beatles", Some("https://x/spacer.gif"))];
    assert_eq!(l.on_qobuz(&hits), ResolveStep::LastFm);
    let lastfm = LastFmHit {
        name: "The Beatles".into(),
        key: "beatles".into(),
        has_mbid: false,
        image: Some("https://lastfm/2a96cbd8b46e442fc41c2b86b821562f.png".into()),
    };
    assert_eq!(l.on_lastfm(Some(lastfm)), ResolveStep::MusicBrainz);
    assert_eq!(l.canonical_name, "The Beatles");
    // MusicBrainz off: the catalog is searched again under the new spelling.
    assert_eq!(l.on_musicbrainz(None), ResolveStep::SearchQobuz { query: "The Beatles".to_string() });
    assert_eq!(l.on_qobuz(&Vec::new()), ResolveStep::Discogs { query: "The Beatles".to_string() });
    let discogs = vec![
        DiscogsHit { result_type: "label".into(), title_key: "beatles".into(), cover: Some("https://d/l.jpg".into()), thumb: None },
        DiscogsHit { result_type: "artist".into(), title_key: "beatles".into(), cover: None, thumb: Some("https://d/t.jpg".into()) },
    ];
    assert_eq!(l.on_discogs(&discogs), found("https://d/t.jpg", "discogs", "The Beatles"));
}

#[test]
fn last_fm_images_and_confident_musicbrainz_spellings_are_taken() {
    let (mut l, _) = PortraitLookup::start("Air".into(), "air".into());
    assert_eq!(l.on_qobuz(&Vec::new()), ResolveStep::LastFm);
    let lastfm = LastFmHit { name: "AIR".into(), key: "air".into(), has_mbid: true, image: Some("https://lastfm/air.png".into()) };
    assert_eq!(l.on_lastfm(Some(lastfm)), found("https://lastfm/air.png", "lastfm", "AIR"));

    let (mut l, _) = PortraitLookup::start("Blur".into(), "blur".into());
    l.on_qobuz(&Vec::new());
    let other = LastFmHit { name: "Blurred".into(), key: "blurred".into(), has_mbid: true, image: Some("https://x".into()) };
    assert_eq!(l.on_lastfm(Some(other)), ResolveStep::MusicBrainz);
    let unsure = MusicBrainzHit { name: "BLUR".into(), key: "blur".into(), confident: false };
    assert_eq!(l.on_musicbrainz(Some(unsure)), ResolveStep::Discogs { query: "Blur".to_string() });
    assert_eq!(l.on_discogs(&Vec::new()), ResolveStep::NotFound);

    let (mut l, _) = PortraitLookup::start("Blur".into(), "blur".into());
    l.on_qobuz(&Vec::new());
    l.on_lastfm(None);
    let sure = MusicBrainzHit { name: "BLUR".into(), key: "blur".into(), confident: true };
    assert_eq!(l.on_musicbrainz(Some(sure)), ResolveStep::SearchQobuz { query: "BLUR".to_string() });
    assert!(l.has_mbid);
    let cover_blank = vec![DiscogsHit { result_type: "artist".into(), title_key: "blur".into(), cover: Some(" ".into()), thumb: Some("https://d/t.jpg".into()) }];
    assert_eq!(l.on_qobuz(&Vec::new()), ResolveStep::Discogs { query: "BLUR".to_string() });
    assert_eq!(l.on_discogs(&cover_blank), ResolveStep::NotFound);
}

#[test]
fn lookups_and_hits_are_keyed_by_the_artist_key_of_their_names() {
    let (l, step) = PortraitLookup::begin("Björk ".to_string());
    assert_eq!(l.original_key, "bjork");
    assert_eq!(l.canonical_key, "bjork");
    assert_eq!(step, ResolveStep::SearchQobuz { query: "Björk ".to_string() });
    assert_eq!(QobuzHit::new("BJÖRK".to_string(), None).key, "bjork");
    assert_eq!(LastFmHit::new("The Beatles".to_string(), true, None).key, "the beatles");
    assert_eq!(MusicBrainzHit::new("Sigur Rós".to_string(), true).key, "sigur ros");
    assert_eq!(DiscogsHit::new("artist".to_string(), " Blur (2) ", None, None).title_key, "blur");
    assert_eq!(DiscogsHit::new("artist".to_string(), "Blur (UK)", None, None).title_key, "blur uk");
}
