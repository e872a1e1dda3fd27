use qbz_qt::link::{
    command_names_exe, default_enabled, detect_platform, is_enabled, reconcile_at_startup, LinkProperty,
    QbzLink, ResolveOutcome,
};

#[test]
fn platform_detection_is_specific_and_case_insensitive() {
    assert_eq!(detect_platform("HTTPS://OPEN.QOBUZ.COM/album/a"), "qobuz");
    assert_eq!(detect_platform("spotify:track:123"), "spotify");
    assert_eq!(detect_platform("https://music.apple.com/a"), "apple");
    assert_eq!(detect_platform("https://listen.tidal.com/track/1"), "tidal");
    assert_eq!(detect_platform("https://www.deezer.com/track/1"), "deezer");
    assert_eq!(detect_platform("https://song.link/x"), "songlink");
    assert_eq!(detect_platform("https://example.com"), "");
}

#[test]
fn windows_defaults_off_others_on() {
    assert!(!default_enabled(true));
    assert!(default_enabled(false));
    assert!(!is_enabled(None, true));
    assert!(is_enabled(None, false));
    assert!(is_enabled(Some(true), true));
}

#[test]
fn startup_drops_only_this_executables_stale_handler() {
    let cmd = "\"C:\\Program Files\\QBZ\\QBZ.EXE\" \"%1\"";
    let exe = "C:\\Program Files\\QBZ\\qbz.exe";
    assert!(command_names_exe(cmd, exe));
    assert!(reconcile_at_startup(false, true, Some(cmd), exe));
    assert!(!reconcile_at_startup(true, true, Some(cmd), exe));
    assert!(!reconcile_at_startup(false, false, Some(cmd), exe));
    assert!(!reconcile_at_startup(false, true, Some("\"D:\\other.exe\" \"%1\""), exe));
    assert!(!reconcile_at_startup(false, true, None, exe));
}

#[test]
fn the_link_modal_flow() {
    let mut l = QbzLink::new();
    assert!(l.boot());
    assert!(!l.boot());
    let notified = l.show();
    assert!(l.modal_open);
    assert_eq!(notified.last(), Some(&LinkProperty::ModalOpen));
    assert_eq!(notified.len(), 7);
    l.url_edited("https://www.deezer.com/track/1".into());
    assert_eq!(l.platform, "deezer");
    assert_eq!(l.submit("   "), None);
    assert_eq!(l.submit("  https://www.deezer.com/track/1 ").as_deref(), Some("https://www.deezer.com/track/1"));
    assert!(l.resolving);
    assert_eq!(l.submit("https://x"), None);
    assert!(!l.finish(ResolveOutcome::NotOnQobuz("not on Qobuz".into())));
    assert!(!l.resolving);
    assert_eq!(l.error, "not on Qobuz");
    assert!(l.modal_open);
    l.submit("https://open.spotify.com/playlist/1");
    assert!(!l.finish(ResolveOutcome::PlaylistDetected("spotify".into())));
    assert!(l.playlist_detected);
    assert_eq!(l.playlist_provider, "spotify");
    l.submit("https://open.qobuz.com/album/1");
    assert!(l.finish(ResolveOutcome::Resolved));
    assert!(!l.modal_open);
    l.show();
    assert_eq!(l.url, "");
    assert!(!l.playlist_detected);
    l.open_importer();
    assert!(!l.modal_open);
    l.show();
    l.close();
    assert!(!l.modal_open);
}
