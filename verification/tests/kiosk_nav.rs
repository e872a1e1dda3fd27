use qbz_qt::kiosk_nav::{NavModel, Zone};
use qbz_qt::kiosk_nav_bridge::QbzKioskNav;
use qbz_qt::kiosk_profile::{resolve, KioskProfile};

/// A library-shaped view: 5 tabs, a 6-wide grid, 12 albums.
fn library() -> NavModel {
    let mut m = NavModel::default();
    m.publish(5, 6, 5 + 12, false);
    m
}

#[test]
fn defaults_match_the_slint_global() {
    let m = NavModel::default();
    assert_eq!(m.zone, Zone::Content);
    assert_eq!(m.index, 0);
    assert_eq!(m.columns, 1);
    assert_eq!(m.count, 0);
    assert!(!m.nav_active);
    assert_eq!(m.tabs, 0);
    assert!(!m.shelves);
    assert_eq!(m.hmove, 0);
    assert_eq!(m.dir, 0);
    assert_eq!(m.activate_seq, 0);
}

#[test]
fn first_nav_key_latches_the_ring() {
    let mut m = library();
    assert!(!m.nav_active);
    m.right();
    assert!(m.nav_active, "the ring gates on this; clicks never set it");
}

#[test]
fn tab_strip_moves_within_its_own_range() {
    let mut m = library();
    for _ in 0..10 {
        m.right();
    }
    assert_eq!(m.index, 4, "clamped to tabs - 1");
    for _ in 0..10 {
        m.left();
    }
    assert_eq!(m.index, 0);
}

#[test]
fn down_from_tabs_lands_on_the_first_item_row() {
    let mut m = library();
    m.down();
    assert_eq!(m.zone, Zone::Content);
    assert_eq!(m.index, 5, "= tabs");
}

#[test]
fn down_from_tabs_skips_to_the_player_when_the_view_is_empty() {
    let mut m = NavModel::default();
    m.publish(5, 6, 5, false);
    m.down();
    assert_eq!(m.zone, Zone::Player);
    assert_eq!(m.index, 0);
}

#[test]
fn grid_right_stops_at_the_row_edge_and_at_the_end_of_the_data() {
    let mut m = library();
    m.down();
    for _ in 0..10 {
        m.right();
    }
    assert_eq!(m.index, 10, "column 5 of 6 — the row edge, not the count");

    let mut m = NavModel::default();
    m.publish(5, 6, 5 + 9, false);
    m.down();
    for _ in 0..3 {
        m.down();
    }
    let before = m.index;
    for _ in 0..10 {
        m.right();
    }
    assert!(
        m.index < m.count,
        "never past the data ({before} -> {})",
        m.index
    );
}

#[test]
fn grid_up_from_row_zero_reaches_the_tab_strip() {
    let mut m = library();
    m.down();
    m.right();
    m.up();
    assert_eq!(m.index, 1, "column 1 -> tab 1");
    assert_eq!(m.zone, Zone::Content);
}

#[test]
fn grid_up_from_a_far_column_clamps_onto_the_last_tab() {
    let mut m = library();
    m.down();
    for _ in 0..5 {
        m.right();
    }
    m.up();
    assert_eq!(m.index, 4, "min(tabs - 1, column) with 5 tabs and 6 columns");
}

#[test]
fn up_from_the_tab_strip_wraps_to_the_rail() {
    let mut m = library();
    m.up();
    assert_eq!(m.zone, Zone::Rail);
    assert_eq!(m.index, 0);
}

#[test]
fn up_from_row_zero_of_a_tabless_view_reaches_the_rail_in_one_press() {
    let mut m = NavModel::default();
    m.publish(0, 1, 14, false);
    m.up();
    assert_eq!(m.zone, Zone::Rail);
    assert_eq!(m.index, 0);
    assert!(m.index >= 0, "the index never falls below 0");
}

#[test]
fn the_zone_cycle_is_closed_in_both_directions() {
    let mut m = library();
    m.zone = Zone::Player;
    m.down();
    assert_eq!(m.zone, Zone::Rail);
    m.down();
    assert_eq!(m.zone, Zone::Content);
    m.up();
    assert_eq!(m.zone, Zone::Rail);
    m.up();
    assert_eq!(m.zone, Zone::Player);
    m.up();
    assert_eq!(m.zone, Zone::Content);
}

#[test]
fn walking_down_a_grid_ends_on_the_player() {
    let mut m = library();
    m.down();
    m.down();
    assert_eq!(m.index, 11);
    m.down();
    assert_eq!(m.zone, Zone::Player);
}

#[test]
fn rail_index_clamps_to_the_tile_count() {
    let mut m = library();
    m.up();
    for _ in 0..20 {
        m.right();
    }
    assert_eq!(m.index, 6, "7 tiles in the rail");
    for _ in 0..20 {
        m.left();
    }
    assert_eq!(m.index, 0);
}

#[test]
fn shelf_views_pulse_hmove_instead_of_moving_the_index() {
    let mut m = NavModel::default();
    m.publish(3, 1, 3 + 4, true);
    m.down();
    let at = m.index;
    m.right();
    assert_eq!(m.index, at, "index must not move between shelves");
    assert_eq!(m.hmove, 1);
    assert_eq!(m.take_hmove(), 1);
    assert_eq!(m.hmove, 0, "the consumer resets it");
    assert_eq!(m.take_hmove(), 0, "a pulse is never applied twice");
    m.left();
    assert_eq!(m.hmove, -1);
}

#[test]
fn tab_strip_left_right_never_pulses_hmove_even_in_a_shelf_view() {
    let mut m = NavModel::default();
    m.publish(3, 1, 3 + 4, true);
    m.right();
    assert_eq!(m.index, 1);
    assert_eq!(m.hmove, 0);
}

#[test]
fn dir_records_the_last_vertical_direction() {
    let mut m = library();
    m.down();
    assert_eq!(m.dir, 1);
    m.up();
    assert_eq!(m.dir, -1);
    m.right();
    assert_eq!(m.dir, 0, "horizontal moves clear it");
}

#[test]
fn the_view_switch_reset_keeps_the_session_latch() {
    let mut m = library();
    m.down();
    m.right();
    m.up();
    m.reset_for_view();
    assert_eq!(m.zone, Zone::Content);
    assert_eq!(m.index, 0);
    assert_eq!(m.dir, 0);
    assert_eq!(m.hmove, 0);
    assert!(m.nav_active, "the ring is a session latch, not per-view");
}

#[test]
fn activate_pulses_monotonically() {
    let mut m = library();
    let before = m.activate_seq;
    m.bump_activate();
    m.bump_activate();
    assert_eq!(m.activate_seq, before + 2);
    assert!(m.nav_active);
}

#[test]
fn a_republish_clamps_the_index_into_the_new_data() {
    let mut m = library();
    m.down();
    for _ in 0..4 {
        m.right();
    }
    assert_eq!(m.index, 9);
    m.publish(5, 6, 5 + 3, false);
    assert_eq!(m.index, 7, "clamped to count - 1, so an item still owns it");
    assert!(m.index < m.count);
}

#[test]
fn a_publish_with_no_items_parks_on_the_first_tab() {
    let mut m = library();
    m.down();
    m.publish(5, 6, 0, false);
    assert_eq!(m.index, 0, "max(0, -1)");
}

#[test]
fn a_publish_never_disturbs_the_rail_cursor() {
    let mut m = library();
    m.up();
    for _ in 0..3 {
        m.right();
    }
    assert_eq!(m.zone, Zone::Rail);
    assert_eq!(m.index, 3, "the MyQBZ tile");
    m.publish(5, 6, 5 + 1, false);
    assert_eq!(m.index, 3, "still the MyQBZ tile");
    assert_eq!(m.zone, Zone::Rail);
}

#[test]
fn a_zero_column_publish_cannot_panic() {
    let mut m = NavModel::default();
    m.publish(0, 0, 5, false);
    assert_eq!(m.columns, 1, "clamped at the publish seam");
    m.down();
    m.right();
    m.left();
    m.up();
}

#[test]
fn the_player_zone_ignores_horizontal_movement() {
    let mut m = library();
    m.zone = Zone::Player;
    m.index = 0;
    m.left();
    m.right();
    assert_eq!(m.index, 0);
    assert_eq!(m.zone, Zone::Player);
}

#[test]
fn zone_strings_match_the_slint_comparisons() {
    assert_eq!(Zone::Rail.as_str(), "rail");
    assert_eq!(Zone::Content.as_str(), "content");
    assert_eq!(Zone::Player.as_str(), "player");
}

#[test]
fn the_bridge_defaults_mirror_the_model_defaults() {
    let r = QbzKioskNav::new();
    assert_eq!(r.zone, "content");
    assert_eq!(r.index, 0);
    assert_eq!(r.columns, 1);
    assert_eq!(r.count, 0);
    assert!(!r.nav_active);
    assert_eq!(r.tabs, 0);
    assert!(!r.shelves);
    assert_eq!(r.hmove, 0);
    assert_eq!(r.dir, 0);
    assert_eq!(r.activate_seq, 0);
}

#[test]
fn bridge_nav_right_mirrors_and_notifies_the_pulse_last() {
    let mut b = QbzKioskNav::new();
    b.publish_nav(3, 1, 3 + 4, true);
    b.nav_down();
    b.notices.clear();
    b.nav_right();
    assert_eq!(b.hmove, 1);
    assert_eq!(b.take_hmove(), 1);
    assert_eq!(b.hmove, 0);
}

#[test]
fn env_wins_and_is_case_insensitive() {
    assert!(resolve(Some("kiosk"), "desktop"));
    assert!(resolve(Some("KIOSK"), "desktop"));
    assert!(resolve(Some("  Kiosk  "), "desktop"));
}

#[test]
fn env_can_force_desktop_back_on() {
    assert!(!resolve(Some("desktop"), "kiosk"));
    assert!(
        !resolve(Some("anything-else"), "kiosk"),
        "anything but kiosk is the desktop profile"
    );
}

#[test]
fn an_empty_env_value_falls_through_to_the_pref() {
    for pref in ["kiosk", "desktop"] {
        let empty = resolve(Some(""), pref);
        let blank = resolve(Some("   "), pref);
        let unset = resolve(None, pref);
        assert_eq!(empty, unset);
        assert_eq!(blank, unset);
    }
}

#[test]
fn the_screen_id_follows_the_latch() {
    let mut p = KioskProfile::new();
    p.kiosk = true;
    assert_eq!(p.shell_screen(), "kiosk");
    p.kiosk = false;
    assert_eq!(p.shell_screen(), "shell");
}

#[test]
fn the_live_toggle_flips_the_latch_and_names_what_to_persist() {
    let mut p = KioskProfile::new();
    assert!(!p.init_at_boot(None, "desktop"));
    let t = p.toggle();
    assert!(t.kiosk);
    assert_eq!(t.pref_value, "kiosk");
    assert_eq!(t.screen, "kiosk");
    assert!(p.active());
    let t = p.toggle();
    assert_eq!(t.pref_value, "desktop");
    assert_eq!(t.screen, "shell");
}
