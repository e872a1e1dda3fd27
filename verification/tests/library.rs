use qbz_qt::library::{
    favorite_playlist_ids, is_favorite_playlist, listen_log_is_enabled, ListenLog, LogTick,
    QbzLibrary, Sidepanel, SidepanelSection,
};

#[test]
fn a_superseded_sidepanel_load_never_paints() {
    let mut lib = QbzLibrary::new();
    let (g1, d) = lib.sidepanel_select_artist::<String>("1".into(), "Air".into());
    assert!(d.loading);
    let (g2, _) = lib.sidepanel_select_artist::<String>("2".into(), "Beck".into());
    assert_ne!(g1, g2);
    let sections = vec![SidepanelSection { title: "Albums".to_string(), albums: vec!["a".to_string()] }];
    assert!(lib.sidepanel.finish(g1, "1".into(), "Air".into(), Ok(sections)).is_none());
    let sections = vec![
        SidepanelSection { title: "Albums".to_string(), albums: vec!["a".to_string(), "b".to_string()] },
        SidepanelSection { title: "Live".to_string(), albums: Vec::new() },
        SidepanelSection { title: "EPs".to_string(), albums: vec!["c".to_string()] },
    ];
    let doc = lib.sidepanel.finish(g2, "2".into(), "Beck".into(), Ok(sections)).unwrap();
    assert!(!doc.loading);
    assert_eq!(doc.total, 3);
    let titles: Vec<&str> = doc.sections.iter().map(|s| s.title.as_str()).collect();
    assert_eq!(titles, vec!["Albums", "EPs"]);
    let err = lib.sidepanel.finish::<String>(g2, "2".into(), "Beck".into(), Err("offline".into())).unwrap();
    assert_eq!(err.error, "offline");
    assert_eq!(err.total, 0);
    let cleared = lib.sidepanel_clear::<String>();
    assert_eq!(cleared.artist_id, "");
    assert!(lib.sidepanel.finish::<String>(g2, "2".into(), "Beck".into(), Ok(Vec::new())).is_none());
    let s = Sidepanel::new();
    assert_eq!(s.generation, 0);
}

#[test]
fn favorite_playlists_read_from_the_store() {
    assert_eq!(favorite_playlist_ids(None), Vec::<u64>::new());
    assert_eq!(favorite_playlist_ids(Some(vec![3, 9])), vec![3, 9]);
    let ids = vec![3, 9];
    assert!(is_favorite_playlist(Some(&ids), 9));
    assert!(!is_favorite_playlist(Some(&ids), 4));
    assert!(!is_favorite_playlist(None, 9));
}

#[test]
fn three_empty_ticks_close_an_open_row() {
    let mut l = ListenLog::new();
    assert_eq!(l.on_tick(false, true, 0, 0, false), LogTick::Ignore);
    assert_eq!(l.on_tick(true, false, 0, 0, false), LogTick::Ignore);
    assert_eq!(l.empty_ticks, 0);
    assert_eq!(l.on_tick(true, true, 0, 0, false), LogTick::Ignore);
    assert_eq!(l.on_tick(true, true, 0, 0, false), LogTick::Ignore);
    assert_eq!(l.on_tick(true, true, 0, 0, false), LogTick::Stop);
    assert_eq!(l.empty_ticks, 0);
    assert_eq!(l.on_tick(true, true, 0, 0, false), LogTick::Ignore);
    assert_eq!(l.on_tick(true, true, 7, 12, true), LogTick::Progress(12_000, true));
    assert_eq!(l.empty_ticks, 0);
    l.empty_ticks = 2;
    l.reset_ticks();
    assert_eq!(l.empty_ticks, 0);
}

#[test]
fn listening_history_switch_follows_the_logger() {
    assert!(listen_log_is_enabled(None));
    assert!(!listen_log_is_enabled(Some(true)));
    assert!(listen_log_is_enabled(Some(false)));
}
