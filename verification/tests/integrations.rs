use qbz_qt::integrations::{integration_action, ActionStep, IntegrationAction};
use qbz_qt::integrations::{
    begin_listenbrainz_validation, decide_scrobble_policy, discord_enabled,
    finish_listenbrainz_validation, integration_snapshot_matches, lb_duration_ms,
    meta_from_track, scrobble_tick, Connectivity, DiscoverPrefs, IntegrationUi, Integrations,
    ListenBrainzValidationStart, OfflineMode, OfflineModeSettings, OfflineStatus, ScrobbleAction,
    ScrobbleTick, ScrobblerSettings, TrackFacts,
};
use qbz_qt::integrations::{
    listenbrainz_token_text, service_step, QueueFlush, QueuedScrobble, ScrobblePolicy, ServiceStep, LASTFM_MAX_AGE_SECS,
};

fn status(mode: OfflineMode, connectivity: Connectivity, offline_session: bool) -> OfflineStatus {
    OfflineStatus {
        mode,
        connectivity,
        captive_portal: false,
        induced: mode == OfflineMode::InducedOffline,
        offline_session,
    }
}

#[test]
fn listenbrainz_validation_reports_progress_and_ignores_reentrant_empty_submit() {
    let mut ui = IntegrationUi::default();
    assert_eq!(
        begin_listenbrainz_validation(
            &mut ui,
            true,
            "Validating...".into(),
            "Missing token".into(),
        ),
        ListenBrainzValidationStart::Started
    );
    assert!(ui.listenbrainz_busy);
    assert_eq!(ui.status_text, "Validating...");
    assert_eq!(ui.status_kind, 1);

    assert_eq!(
        begin_listenbrainz_validation(
            &mut ui,
            false,
            "Validating again...".into(),
            "Missing token".into(),
        ),
        ListenBrainzValidationStart::Busy
    );
    assert!(ui.listenbrainz_busy);
    assert_eq!(ui.status_text, "Validating...");
    assert_eq!(ui.status_kind, 1);

    finish_listenbrainz_validation(&mut ui, "Connected as listener".into(), 2);
    assert!(!ui.listenbrainz_busy);
    assert_eq!(ui.status_text, "Connected as listener");
    assert_eq!(ui.status_kind, 2);
}

#[test]
fn listenbrainz_missing_token_is_an_idle_error() {
    let mut ui = IntegrationUi::default();
    assert_eq!(
        begin_listenbrainz_validation(
            &mut ui,
            false,
            "Validating...".into(),
            "Missing token".into(),
        ),
        ListenBrainzValidationStart::MissingToken
    );
    assert!(!ui.listenbrainz_busy);
    assert_eq!(ui.status_text, "Missing token");
    assert_eq!(ui.status_kind, 3);
}

#[test]
fn manual_offline_respects_immediate_and_accumulated_modes() {
    let manual = status(OfflineMode::InducedOffline, Connectivity::Up, false);
    let accumulated = OfflineModeSettings::default();
    assert_eq!(
        decide_scrobble_policy(manual, accumulated, true, true).action,
        ScrobbleAction::Queue
    );

    let immediate = OfflineModeSettings {
        allow_immediate_scrobbling: true,
        allow_accumulated_scrobbling: false,
    };
    assert_eq!(
        decide_scrobble_policy(manual, immediate, true, true).action,
        ScrobbleAction::SendNow
    );
}

#[test]
fn physical_offline_only_retains_when_accumulation_is_enabled() {
    let physical = status(OfflineMode::RealOffline, Connectivity::Down, false);
    assert_eq!(
        decide_scrobble_policy(physical, OfflineModeSettings::default(), true, true).action,
        ScrobbleAction::Queue
    );

    let disabled = OfflineModeSettings {
        allow_accumulated_scrobbling: false,
        ..OfflineModeSettings::default()
    };
    assert_eq!(
        decide_scrobble_policy(physical, disabled, true, true).action,
        ScrobbleAction::Drop
    );
}

#[test]
fn logged_out_gate_allows_independent_network_but_can_opt_out() {
    let login_screen = status(OfflineMode::Online, Connectivity::Up, false);
    let offline_shell = status(OfflineMode::RealOffline, Connectivity::Up, true);

    for logged_out in [login_screen, offline_shell] {
        assert_eq!(
            decide_scrobble_policy(logged_out, OfflineModeSettings::default(), false, true).action,
            ScrobbleAction::SendNow
        );
        assert_eq!(
            decide_scrobble_policy(logged_out, OfflineModeSettings::default(), false, false)
                .action,
            ScrobbleAction::Drop
        );
    }
}

#[test]
fn live_send_failure_only_queues_in_accumulated_mode() {
    let online = status(OfflineMode::Online, Connectivity::Up, false);
    let accumulated = decide_scrobble_policy(online, OfflineModeSettings::default(), true, true);
    assert_eq!(accumulated.action, ScrobbleAction::SendNow);
    assert!(accumulated.queue_on_failure);

    let no_accumulation = decide_scrobble_policy(
        online,
        OfflineModeSettings {
            allow_accumulated_scrobbling: false,
            ..OfflineModeSettings::default()
        },
        true,
        true,
    );
    assert_eq!(no_accumulation.action, ScrobbleAction::SendNow);
    assert!(!no_accumulation.queue_on_failure);
}

#[test]
fn queued_integration_requires_the_exact_track_and_generation() {
    assert!(integration_snapshot_matches(Some(41), Some(7), 41, 7));
    assert!(!integration_snapshot_matches(Some(41), Some(7), 42, 7));
    assert!(!integration_snapshot_matches(Some(41), Some(7), 41, 8));
    assert!(!integration_snapshot_matches(Some(41), Some(7), 41, 9));
}

#[test]
fn task_owned_snapshot_needs_no_prior_track_identity() {
    assert!(integration_snapshot_matches(None, None, 99, 12));
}

#[test]
fn discover_preferences_rebind_between_guest_and_account_profiles() {
    let mut i = Integrations::new();
    i.init_for_user(
        "guest".into(),
        Ok(ScrobblerSettings::default()),
        Some(DiscoverPrefs { show_recommendations: true }),
    );
    i.set_show_recommendations(false, Ok(()))
        .expect("persist guest preference");
    assert!(!i.show_recommendations());

    i.init_for_user(
        "account".into(),
        Ok(ScrobblerSettings::default()),
        Some(DiscoverPrefs { show_recommendations: true }),
    );
    assert!(i.show_recommendations(), "account must not inherit guest prefs");

    i.unbind_qobuz_user();
    assert!(i.show_recommendations(), "unbound state uses safe defaults");

    i.init_for_user(
        "guest".into(),
        Ok(ScrobblerSettings::default()),
        Some(DiscoverPrefs { show_recommendations: false }),
    );
    assert!(!i.show_recommendations(), "guest preference survives logout");
}

#[test]
fn rebinding_the_same_profile_keeps_the_generation_and_another_bumps_it() {
    let mut i = Integrations::new();
    i.init_for_user("a".into(), Ok(ScrobblerSettings::default()), None);
    let g = i.generation;
    i.init_for_user("a".into(), Ok(ScrobblerSettings::default()), None);
    assert_eq!(i.generation, g);
    i.init_for_user("b".into(), Ok(ScrobblerSettings::default()), None);
    assert_eq!(i.generation, g + 1);
    i.init_for_user("c".into(), Err("store locked".into()), None);
    assert_eq!(i.generation, g + 1);
    assert_eq!(i.scrobble_dir.as_deref(), Some("b"));
}

#[test]
fn an_unbound_profile_refuses_the_recommendations_switch() {
    let mut i = Integrations::new();
    assert!(i.set_show_recommendations(false, Ok(())).is_err());
    assert!(i.show_recommendations());
}

#[test]
fn toggles_request_a_flush_only_when_saved_and_switched_on() {
    let mut i = Integrations::new();
    assert!(i.set_scrobble_enabled(true, Err("disk full".into())).is_err());
    assert!(!i.take_flush_request());
    assert!(!i.settings.enabled);
    assert!(i.set_scrobble_enabled(false, Ok(())).is_ok());
    assert!(!i.take_flush_request());
    assert!(i.set_lastfm_enabled(true, Ok(())).is_ok());
    assert!(i.take_flush_request());
    assert!(!i.take_flush_request());
    assert!(i.set_scrobble_collapsed(true, Ok(())).is_ok());
    assert!(!i.take_flush_request());
    assert!(i.settings.ui_collapsed);
    i.set_qobuz_authenticated(true);
    assert!(i.take_flush_request());
    i.set_qobuz_authenticated(true);
    assert!(!i.take_flush_request());
    i.scrobble_policy_changed();
    assert!(i.take_flush_request());
}

#[test]
fn scrobbler_handles_drop_a_blank_token() {
    let mut i = Integrations::new();
    i.settings.lastfm_username = "alice".into();
    i.settings.listenbrainz_username = "bob".into();
    i.settings.listenbrainz_token = "   ".into();
    assert_eq!(i.scrobbler_handles(), ("alice".to_string(), "bob".to_string(), None));
    i.settings.listenbrainz_token = " tok ".into();
    assert_eq!(i.scrobbler_handles().2, Some(" tok ".to_string()));
}

#[test]
fn scrobblers_are_live_only_with_master_switch_service_switch_and_credentials() {
    let mut s = ScrobblerSettings::default();
    s.lastfm_enabled = true;
    s.lastfm_session_key = "key".into();
    assert!(!s.lastfm_active());
    s.enabled = true;
    assert!(s.lastfm_active());
    s.lastfm_session_key.clear();
    assert!(!s.lastfm_active());
    s.listenbrainz_enabled = true;
    s.listenbrainz_token = "t".into();
    assert!(s.listenbrainz_active());
}

#[test]
fn a_track_edge_supersedes_every_armed_continuation() {
    let mut i = Integrations::new();
    let armed = i.generation;
    let g = i.track_change_edge();
    assert_ne!(g, armed);
    assert!(!integration_snapshot_matches(Some(41), Some(armed), 41, g));
    assert_eq!(scrobble_tick(41, armed, 41, g, true, 500, 240), ScrobbleTick::Abandon);
}

#[test]
fn the_delayed_scrobble_waits_on_the_player_position() {
    assert_eq!(scrobble_tick(7, 3, 7, 3, true, 100, 240), ScrobbleTick::Wait);
    assert_eq!(scrobble_tick(7, 3, 7, 3, false, 300, 240), ScrobbleTick::Wait);
    assert_eq!(scrobble_tick(7, 3, 7, 3, true, 240, 240), ScrobbleTick::Fire);
    assert_eq!(scrobble_tick(7, 3, 8, 3, true, 300, 240), ScrobbleTick::Abandon);
}

#[test]
fn fire_meta_carries_the_version_and_a_clean_album() {
    let m = meta_from_track(&TrackFacts {
        title: "Song".into(),
        version: Some("Remix".into()),
        artist: "Artist".into(),
        album: String::new(),
        duration_secs: 200,
    });
    assert_eq!(m.track, "Song (Remix)");
    assert_eq!(m.artist, "Artist");
    assert_eq!(m.album, None);
    assert_eq!(m.duration_secs, 200);
    let m = meta_from_track(&TrackFacts {
        title: "Song".into(),
        version: Some(String::new()),
        artist: "Artist".into(),
        album: "Album".into(),
        duration_secs: 0,
    });
    assert_eq!(m.track, "Song");
    assert_eq!(m.album.as_deref(), Some("Album"));
}

#[test]
fn listenbrainz_duration_is_in_milliseconds_when_known() {
    assert_eq!(lb_duration_ms(0), None);
    assert_eq!(lb_duration_ms(215), Some(215_000));
}

#[test]
fn discord_is_opt_in() {
    assert!(!discord_enabled(None));
    assert!(discord_enabled(Some(true)));
    assert!(!discord_enabled(Some(false)));
}

#[test]
fn the_ui_snapshot_never_carries_the_pending_token() {
    let mut ui = IntegrationUi::default();
    ui.set_lastfm_pending("tok".into(), "https://auth".into());
    assert_eq!(ui.pending_lastfm_token(), "tok");
    let snap = ui.ui_snapshot();
    assert_eq!(snap.pending_lastfm_token(), "");
    assert_eq!(snap.lastfm_auth_url, "https://auth");
    ui.clear_lastfm_pending();
    assert_eq!(ui.pending_lastfm_token(), "");
}

#[test]
fn lastfm_sign_in_runs_one_request_at_a_time_and_forgets_the_token_once_connected() {
    let mut ui = IntegrationUi::default();
    assert_eq!(ui.lastfm_auth_url_to_open(), None);
    assert_eq!(ui.begin_lastfm_finish("no token".into()), None);
    assert_eq!(ui.status_text, "no token");
    assert_eq!(ui.status_kind, 3);

    assert!(ui.begin_lastfm_connect());
    assert!(!ui.begin_lastfm_connect());
    ui.finish_lastfm_connect(
        Some(("tok".into(), "https://last.fm/auth".into())),
        "authorize".into(),
        0,
    );
    assert!(!ui.lastfm_busy);
    assert_eq!(ui.pending_lastfm_token(), "tok");
    assert_eq!(ui.lastfm_auth_url_to_open(), Some("https://last.fm/auth".to_string()));

    assert_eq!(ui.begin_lastfm_finish("no token".into()), Some("tok".to_string()));
    assert_eq!(ui.begin_lastfm_finish("no token".into()), None);
    ui.finish_lastfm_finish(false, "failed".into(), 3);
    assert_eq!(ui.pending_lastfm_token(), "tok");
    assert_eq!(ui.status_text, "failed");

    assert_eq!(ui.begin_lastfm_finish("no token".into()), Some("tok".to_string()));
    ui.finish_lastfm_finish(true, "connected".into(), 1);
    assert_eq!(ui.pending_lastfm_token(), "");
    assert_eq!(ui.lastfm_auth_url_to_open(), None);
    assert!(!ui.lastfm_busy);

    ui.finish_lastfm_connect(None, "error".into(), 3);
    assert_eq!(ui.pending_lastfm_token(), "");
    assert_eq!(ui.status_kind, 3);

    ui.set_lastfm_pending("t2".into(), "u2".into());
    ui.lastfm_busy = true;
    ui.lastfm_disconnected("bye".into());
    assert_eq!(ui.pending_lastfm_token(), "");
    assert_eq!(ui.lastfm_auth_url, "");
    assert!(!ui.lastfm_busy);
    assert_eq!(ui.status_kind, 1);

    ui.listenbrainz_busy = true;
    ui.listenbrainz_disconnected("lb bye".into());
    assert!(!ui.listenbrainz_busy);
    assert_eq!(ui.status_text, "lb bye");
}

#[test]
fn a_due_scrobble_is_sent_queued_or_dropped_per_service() {
    let send = ScrobblePolicy { action: ScrobbleAction::SendNow, queue_on_failure: true };
    let queue = ScrobblePolicy { action: ScrobbleAction::Queue, queue_on_failure: true };
    let drop = ScrobblePolicy { action: ScrobbleAction::Drop, queue_on_failure: false };
    assert_eq!(service_step(false, send), ServiceStep::Nothing);
    assert_eq!(service_step(true, send), ServiceStep::Send(true));
    assert_eq!(
        service_step(true, ScrobblePolicy { queue_on_failure: false, ..send }),
        ServiceStep::Send(false)
    );
    assert_eq!(service_step(true, queue), ServiceStep::Queue);
    assert_eq!(service_step(true, drop), ServiceStep::Nothing);
}

fn q(id: i64, timestamp: i64) -> QueuedScrobble {
    QueuedScrobble { id, timestamp }
}

#[test]
fn a_lastfm_flush_passes_over_stale_scrobbles_and_stops_at_the_first_failure() {
    let now = 2_000_000_000;
    let old = now - LASTFM_MAX_AGE_SECS - 1;
    let items = vec![q(1, old), q(2, now - 10), q(3, old), q(4, now - 5), q(5, now - 1)];
    let mut f = QueueFlush::lastfm(items, now);
    assert_eq!(f.next_send(), Some(1));
    assert_eq!(f.sent_ids, vec![1]);
    f.record(true);
    assert_eq!(f.next_send(), Some(3));
    assert_eq!(f.sent_ids, vec![1, 2, 3]);
    f.record(false);
    assert!(f.stopped);
    assert_eq!(f.next_send(), None);
    // the failed item and everything after it stay queued
    assert_eq!(f.sent_ids, vec![1, 2, 3]);
}

#[test]
fn a_listenbrainz_flush_sends_everything_in_order() {
    let mut f = QueueFlush::listenbrainz(vec![q(7, 0), q(8, 1)]);
    let mut sent = Vec::new();
    while let Some(i) = f.next_send() {
        sent.push(f.items[i].id);
        f.record(true);
    }
    assert_eq!(sent, vec![7, 8]);
    assert_eq!(f.sent_ids, vec![7, 8]);
    assert!(!f.stopped);
}

#[test]
fn a_first_connection_switches_the_service_on_and_asks_for_a_flush() {
    let mut i = Integrations::new();
    assert!(i.lastfm_session_stored("key".into(), "ann".into(), Ok(())));
    assert_eq!(i.settings.lastfm_session_key, "key");
    assert_eq!(i.settings.lastfm_username, "ann");
    assert!(i.take_flush_request());
    assert!(i.set_lastfm_enabled(true, Ok(())).is_ok());
    assert!(!i.lastfm_session_stored("k2".into(), "bob".into(), Err("disk".into())));
    assert_eq!(i.settings.lastfm_session_key, "key");
    assert!(i.take_flush_request());

    assert!(i.listenbrainz_token_stored("tok".into(), "cy".into(), Ok(())));
    assert_eq!(i.settings.listenbrainz_token, "tok");
    assert_eq!(i.settings.listenbrainz_username, "cy");
    assert_eq!(listenbrainz_token_text("  tok \n"), "tok");
    assert_eq!(listenbrainz_token_text("   "), "");
}

#[test]
fn integration_actions_dispatch_to_their_first_step() {
    assert_eq!(integration_action("lastfm-finish"), IntegrationAction::LastFmFinish);
    assert_eq!(integration_action("bogus"), IntegrationAction::Unknown);
    let mut ui = IntegrationUi::default();
    assert_eq!(ui.begin_action("listen-history-clear", String::new()), ActionStep::ClearListenHistory);
    assert_eq!(ui.begin_action("lastfm-open-auth-url", String::new()), ActionStep::Nothing);
    assert_eq!(ui.begin_action("lastfm-finish", "Start the sign-in first".to_string()), ActionStep::Nothing);
    assert_eq!(ui.status_text, "Start the sign-in first");
    assert_eq!(ui.status_kind, 3);
    assert_eq!(ui.begin_action("lastfm-connect", String::new()), ActionStep::RequestLastFmToken);
    assert!(ui.lastfm_busy);
    assert_eq!(ui.begin_action("lastfm-connect", String::new()), ActionStep::Nothing);
    ui.finish_lastfm_connect(Some(("tok".to_string(), "https://auth".to_string())), "Authorize".to_string(), 1);
    assert_eq!(ui.begin_action("lastfm-open-auth-url", String::new()), ActionStep::OpenUrl("https://auth".to_string()));
    assert_eq!(ui.begin_action("lastfm-finish", String::new()), ActionStep::ExchangeLastFmToken("tok".to_string()));
    assert!(ui.lastfm_busy);
    assert_eq!(ui.begin_action("lastfm-disconnect", String::new()), ActionStep::DisconnectLastFm);
    assert_eq!(ui.begin_action("listenbrainz-disconnect", String::new()), ActionStep::DisconnectListenBrainz);
    assert_eq!(ui.begin_action("nope", String::new()), ActionStep::Nothing);
}
