use qbz_qt::artist_images::{
    plex_portraits, preferred_portrait, resolved_portrait, row_portrait, Admission, ArtistImageRegistry, LookupStep, LookupWorker,
    MAX_REMOTE_ARTISTS_PER_PROCESS,
};

fn pair(a: &str, b: &str) -> (String, String) {
    (a.to_string(), b.to_string())
}

#[test]
fn registering_returns_the_cached_portrait_and_marks_only_rows_without_any_image() {
    let mut r = ArtistImageRegistry::new();
    assert_eq!(r.register("artist:air".into(), "Air".into(), "air".into(), false), None);
    assert!(r.candidates.is_empty(), "no profile, nothing registered");
    assert!(r.needs_images("/p1/library.db"));
    r.switch_profile(
        "/p1/library.db".into(),
        vec![pair("air", "/old.jpg"), pair("", "/x.jpg"), pair("blur", "  "), pair("air", "/air.jpg")],
    );
    assert!(!r.needs_images("/p1/library.db"));
    assert_eq!(r.images.len(), 2);
    assert_eq!(r.register("artist:air".into(), "Air".into(), "air".into(), false), Some("/air.jpg".to_string()));
    assert_eq!(r.register("artist:blur".into(), "Blur".into(), "blur".into(), true), None);
    assert_eq!(r.register("artist:cure".into(), "The Cure".into(), "cure".into(), false), None);
    assert_eq!(r.register("".into(), "X".into(), "x".into(), false), None);
    assert_eq!(r.candidates.len(), 3);
    // A second registration of a key replaces the first.
    r.register("artist:cure".into(), "The Cure".into(), "cure".into(), true);
    assert_eq!(r.candidates.len(), 3);
    assert!(r.candidates.iter().all(|c| !c.needs_remote));
}

#[test]
fn visible_rows_are_looked_up_once_per_artist_and_profile() {
    let mut r = ArtistImageRegistry::new();
    r.switch_profile("/p1".into(), Vec::new());
    r.register("k:cure".into(), "The Cure".into(), "cure".into(), false);
    r.register("k:va".into(), "Various Artists".into(), "various artists".into(), false);
    r.register("k:cure2".into(), "Cure".into(), "cure".into(), false);
    r.register("k:blur".into(), "Blur".into(), "blur".into(), true);
    let keys = vec!["k:va".to_string(), "k:cure".to_string(), "k:none".to_string(), "k:cure2".to_string(), "k:blur".to_string()];
    assert!(r.request_visible(&keys, true).is_empty());
    let sent = r.request_visible(&keys, false);
    assert_eq!(sent.iter().map(|c| c.key.as_str()).collect::<Vec<_>>(), vec!["k:cure"]);
    assert!(r.request_visible(&keys, false).is_empty());
    // A new profile forgets the rows but not what was looked up under the old one.
    r.switch_profile("/p2".into(), Vec::new());
    r.register("k:cure".into(), "The Cure".into(), "cure".into(), false);
    assert_eq!(r.request_visible(&vec!["k:cure".to_string()], false).len(), 1);
}

#[test]
fn a_custom_portrait_wins_and_blank_ones_count_as_none() {
    assert_eq!(preferred_portrait(Some("/custom.jpg"), Some("https://u")), Some("/custom.jpg".to_string()));
    assert_eq!(preferred_portrait(None, Some("https://u")), Some("https://u".to_string()));
    assert_eq!(preferred_portrait(Some("  "), Some("https://u")), None);
    assert_eq!(preferred_portrait(None, Some("")), None);
    assert_eq!(preferred_portrait(None, None), None);
}

#[test]
fn a_found_portrait_is_cached_and_stops_lookups_for_every_row_of_the_artist() {
    let mut r = ArtistImageRegistry::new();
    r.switch_profile("/p1".into(), Vec::new());
    r.register("k:cure".into(), "The Cure".into(), "cure".into(), false);
    r.register("k:blur".into(), "Blur".into(), "blur".into(), false);
    r.register("k:cure2".into(), "Cure".into(), "cure".into(), false);
    assert!(r.publish("/p0", Some("/p0"), "cure".into(), "/c.jpg".into()).is_empty());
    assert!(r.publish("/p1", Some("/p2"), "cure".into(), "/c.jpg".into()).is_empty());
    let keys = r.publish("/p1", Some("/p1"), "cure".into(), "/c.jpg".into());
    assert_eq!(keys, vec!["k:cure", "k:cure2"]);
    assert!(r.candidates.iter().filter(|c| c.normalized == "cure").all(|c| !c.needs_remote));
    assert!(r.candidates.iter().any(|c| c.normalized == "blur" && c.needs_remote));
    assert_eq!(r.register("k:cure3".into(), "CURE".into(), "cure".into(), false), Some("/c.jpg".to_string()));
}

#[test]
fn the_worker_drops_stale_and_offline_rows_and_spends_a_bounded_budget() {
    assert_eq!(LookupWorker::admission("/p1", Some("/p2"), false), Admission::Stale);
    assert_eq!(LookupWorker::admission("/p1", None, false), Admission::Stale);
    assert_eq!(LookupWorker::admission("/p1", Some("/p1"), true), Admission::Offline);
    assert_eq!(LookupWorker::admission("/p1", Some("/p1"), false), Admission::Go);

    let mut r = ArtistImageRegistry::new();
    r.switch_profile("/p1".into(), Vec::new());
    r.register("k:cure".into(), "The Cure".into(), "cure".into(), false);
    assert_eq!(r.request_visible(&vec!["k:cure".to_string()], false).len(), 1);
    assert!(r.request_visible(&vec!["k:cure".to_string()], false).is_empty());
    r.forget_attempt("/p1", "cure");
    assert_eq!(r.request_visible(&vec!["k:cure".to_string()], false).len(), 1);

    let mut w = LookupWorker::new();
    assert_eq!(w.after_stored(Some("/s.jpg".into()), false), LookupStep::Publish("/s.jpg".to_string()));
    assert_eq!(w.after_stored(None, true), LookupStep::Skip);
    assert_eq!(w.remote_attempts, 0);
    assert_eq!(w.after_stored(None, false), LookupStep::Resolve { wait: false });
    assert_eq!(w.after_stored(None, false), LookupStep::Resolve { wait: true });
    for _ in 2..MAX_REMOTE_ARTISTS_PER_PROCESS {
        assert_eq!(w.after_stored(None, false), LookupStep::Resolve { wait: true });
    }
    assert_eq!(w.after_stored(None, false), LookupStep::Skip);
    assert_eq!(w.remote_attempts, MAX_REMOTE_ARTISTS_PER_PROCESS + 1);
    assert_eq!(resolved_portrait(Some("/custom.jpg".into()), Some("https://u".into())), Some("/custom.jpg".to_string()));
    assert_eq!(resolved_portrait(None, Some("https://u".into())), Some("https://u".to_string()));
    assert_eq!(resolved_portrait(None, None), None);
}

#[test]
fn plex_portraits_take_the_first_usable_image_per_artist_and_cached_ones_win_on_rows() {
    let artists = vec![
        ("radiohead".to_string(), None),
        ("radiohead".to_string(), Some("".to_string())),
        ("radiohead".to_string(), Some("/plex/rh1".to_string())),
        ("".to_string(), Some("/plex/x".to_string())),
        ("air".to_string(), Some("/plex/air".to_string())),
        ("radiohead".to_string(), Some("/plex/rh2".to_string())),
    ];
    assert_eq!(
        plex_portraits(&artists),
        vec![pair("radiohead", "/plex/rh1"), pair("air", "/plex/air")]
    );
    assert_eq!(
        row_portrait(Some("/cache/air.jpg".into()), "/plex/air".into(), "plex".into()),
        pair("/cache/air.jpg", "local")
    );
    assert_eq!(row_portrait(None, "/plex/air".into(), "plex".into()), pair("/plex/air", "plex"));
}
