use qbz_qt::label::{
    assemble_label_doc, build_jump_tabs, critics_count, derive_releases, label_play_start, is_critics_container, sort_cards, LabelDoc, LabelSections,
    LabelState, ReleaseCard, ReleaseSort,
};

fn card(title: &str, artist: &str, year: &str, tier: &str) -> ReleaseCard {
    ReleaseCard {
        id: format!("{title}-{year}"),
        title: title.to_string(),
        artist: artist.to_string(),
        year: year.to_string(),
        quality_tier: tier.to_string(),
    }
}

fn state_with(albums: Vec<ReleaseCard>) -> LabelState {
    let mut s = LabelState::new();
    s.albums = albums;
    s.sort_by = "newest".to_string();
    s
}

#[test]
fn sorting_uses_the_plain_year() {
    let mut items = vec![card("A", "X", "1999", "cd"), card("B", "Y", "2021", "cd")];
    sort_cards(&mut items, ReleaseSort::from_str_value("newest"));
    assert_eq!(items[0].year, "2021");
    sort_cards(&mut items, ReleaseSort::from_str_value("oldest"));
    assert_eq!(items[0].year, "1999");
    sort_cards(&mut items, ReleaseSort::from_str_value("title-desc"));
    assert_eq!(items[0].title, "B");
}

#[test]
fn hires_count_is_over_the_full_catalog_not_the_filter() {
    let mut s = state_with(vec![
        card("A", "X", "2020", "hires"),
        card("B", "Y", "2019", "cd"),
    ]);
    s.query = "b".to_string();
    let v = s.releases_view("Unknown");
    assert_eq!(v.shown, 1);
    assert_eq!(v.visible.len(), 1);
    assert_eq!(v.hires_count, 1);
}

#[test]
fn fast_path_returns_the_catalog_untouched() {
    let s = state_with(vec![card("A", "X", "2020", "cd")]);
    let v = s.releases_view("Unknown");
    assert_eq!(v.visible.len(), 1);
    assert!(v.grouped.is_empty());
    assert_eq!(v.shown, 1);
}

#[test]
fn group_by_artist_buckets_in_first_appearance_order() {
    let mut s = state_with(vec![
        card("A", "Zeta", "2020", "cd"),
        card("B", "Alpha", "2019", "cd"),
        card("C", "Zeta", "2018", "cd"),
    ]);
    s.group_by = true;
    s.sort_by = "artist-asc".to_string();
    let v = s.releases_view("Unknown");
    assert!(v.visible.is_empty());
    assert_eq!(v.shown, 3);
    assert_eq!(v.grouped.len(), 2);
    assert_eq!(v.grouped[0].title, "Alpha");
    assert_eq!(v.grouped[1].albums.len(), 2);
}

#[test]
fn jump_tabs_only_list_non_empty_sections() {
    let mut doc = LabelDoc::default();
    let tabs = build_jump_tabs(&doc.sections);
    assert_eq!(tabs.len(), 1);
    assert_eq!(tabs[0].id, "about");
    doc.sections.releases = 1;
    doc.sections.more_labels = 1;
    let tabs = build_jump_tabs(&doc.sections);
    let ids: Vec<&str> = tabs.iter().map(|t| t.id.as_str()).collect();
    assert_eq!(ids, vec!["about", "releases", "labels"]);
}

#[test]
fn equal_keys_keep_their_catalog_order() {
    let mut items = vec![
        card("Zed", "X", "2020", "cd"),
        card("Abe", "Y", "2020", "cd"),
        card("Mid", "Z", "2019", "cd"),
    ];
    sort_cards(&mut items, ReleaseSort::YearDesc);
    let titles: Vec<&str> = items.iter().map(|c| c.title.as_str()).collect();
    assert_eq!(titles, vec!["Zed", "Abe", "Mid"]);
    sort_cards(&mut items, ReleaseSort::TitleAsc);
    let titles: Vec<&str> = items.iter().map(|c| c.title.as_str()).collect();
    assert_eq!(titles, vec!["Abe", "Mid", "Zed"]);
}

#[test]
fn title_order_ignores_case_and_unknown_orders_keep_the_catalog() {
    let mut items = vec![card("beta", "X", "1", "cd"), card("Alpha", "Y", "2", "cd")];
    sort_cards(&mut items, ReleaseSort::TitleAsc);
    assert_eq!(items[0].title, "Alpha");
    let before = items.clone();
    sort_cards(&mut items, ReleaseSort::from_str_value("popularity"));
    assert_eq!(items, before);
}

#[test]
fn the_filter_searches_title_and_artist_and_the_hires_switch() {
    let albums = vec![
        card("Kind of Blue", "Miles", "1959", "hires"),
        card("Blue Train", "Coltrane", "1957", "cd"),
        card("Giant Steps", "Coltrane", "1960", "cd"),
    ];
    let v = derive_releases(&albums, "  BLUE ", "oldest", false, false, "Unknown");
    let titles: Vec<&str> = v.visible.iter().map(|c| c.title.as_str()).collect();
    assert_eq!(titles, vec!["Blue Train", "Kind of Blue"]);
    let v = derive_releases(&albums, "coltrane", "", true, false, "Unknown");
    assert_eq!(v.shown, 0);
    let v = derive_releases(&albums, "", "", true, false, "Unknown");
    assert_eq!(v.shown, 1);
    assert_eq!(v.hires_count, 1);
}

#[test]
fn cards_without_an_artist_group_under_the_unknown_title() {
    let albums = vec![card("A", "", "2020", "cd"), card("B", "X", "2019", "cd")];
    let v = derive_releases(&albums, "", "newest", false, true, "Unknown");
    assert_eq!(v.grouped.len(), 2);
    assert_eq!(v.grouped[0].title, "Unknown");
    assert_eq!(v.grouped[0].artist, "");
    assert_eq!(v.grouped[1].title, "X");
}

#[test]
fn open_label_parses_the_trimmed_id_and_supersedes_the_previous_open() {
    let mut s = LabelState::new();
    assert_eq!(s.open_label("not-a-label", false), None);
    assert_eq!(s.open_label(" 42 ", true), None);
    assert_eq!(s.label_id, None);
    let (g1, id) = s.open_label(" 42 ", false).unwrap();
    assert_eq!(id, 42);
    assert!(s.loading);
    let (g2, _) = s.open_label("+43", false).unwrap();
    assert_ne!(g1, g2);
    let mut doc = LabelDoc::default();
    doc.name = "Old".into();
    doc.sections.releases = 3;
    assert!(!s.apply_label_page(g1, doc.clone(), vec![1, 2]));
    assert!(s.play_queue.is_empty());
    assert!(s.loading);
    assert_eq!(s.doc.name, "");
    assert!(s.apply_label_page(g2, doc, vec![7, 8, 9]));
    assert!(!s.loading);
    assert_eq!(s.play_queue, vec![7, 8, 9]);
    assert_eq!(label_play_start(&s.play_queue, "8"), Some(1));
    assert_eq!(s.doc.name, "Old");
    let ids: Vec<&str> = s.doc.jump_tabs.iter().map(|t| t.id.as_str()).collect();
    assert_eq!(ids, vec!["about", "releases"]);
    assert_eq!(s.open_label("18446744073709551616", false), None);
    assert_eq!(s.play_queue, vec![7, 8, 9]);
    s.doc.description = "About".into();
    s.doc.is_following = true;
    s.republish_for_language();
    assert_eq!(s.doc.description, "About");
    assert!(s.doc.is_following);
    assert!(s.open_label(" 0042 ", false).is_some());
    assert!(s.play_queue.is_empty(), "opening a label clears the popular-tracks queue");
    assert_eq!(s.doc.id, Some(42));
}

#[test]
fn releases_paging_follows_the_reported_flags_and_ignores_stale_pages() {
    let mut s = LabelState::new();
    assert_eq!(s.open_releases(false), None);
    s.open_label("7", false).unwrap();
    s.sort_by = "title-asc".into();
    let (g, id) = s.open_releases(false).unwrap();
    assert_eq!(id, 7);
    assert_eq!(s.sort_by, "newest");
    assert!(s.releases_loading);
    assert_eq!(s.releases_load_more(), None);
    let page: Vec<ReleaseCard> = (0..500).map(|i| card(&format!("T{i}"), "A", "2000", "cd")).collect();
    assert!(s.apply_releases_page(g, 0, page, None, None));
    assert_eq!(s.albums.len(), 500);
    assert_eq!(s.releases_offset, 500);
    assert_eq!(s.releases_total, 500);
    assert!(s.releases_has_more);
    assert_eq!(s.releases_load_more(), Some((g, 7)));
    assert_eq!(s.releases_load_more(), None);
    assert!(!s.apply_releases_page(g.wrapping_add(1), 500, vec![card("X", "A", "1", "cd")], None, None));
    assert!(s.apply_releases_page(g, 500, vec![card("X", "A", "1", "cd")], Some(501), None));
    assert!(!s.releases_has_more);
    assert_eq!(s.releases_total, 501);
    assert!(s.fail_releases_page(g));
    assert!(!s.releases_loading);
}

#[test]
fn critics_container_is_found_by_its_id() {
    assert!(is_critics_container(Some("Press-Awards")));
    assert!(is_critics_container(Some("CRITICS_PICKS")));
    assert!(!is_critics_container(Some("new-releases")));
    assert!(!is_critics_container(None));
}

#[test]
fn follow_flips_at_once_and_reverts_only_on_the_same_label() {
    let mut s = LabelState::new();
    assert_eq!(s.toggle_follow(), None);
    assert!(!s.doc.is_following);
    s.open_label("42", false).unwrap();
    assert_eq!(s.toggle_follow(), Some((42, true)));
    assert!(s.doc.is_following);
    s.follow_failed(7, true);
    assert!(s.doc.is_following);
    s.follow_failed(42, true);
    assert!(!s.doc.is_following);
}

#[test]
fn a_popular_track_click_plays_the_list_from_that_track() {
    let queue = vec![11, 22, 33, 22];
    assert_eq!(label_play_start(&queue, "22"), Some(1));
    assert_eq!(label_play_start(&queue, "99"), Some(0));
    assert_eq!(label_play_start(&queue, "abc"), None);
    assert_eq!(label_play_start(&Vec::new(), "22"), None);
}

#[test]
fn the_label_document_is_assembled_from_its_parts() {
    let containers = vec![
        (None, 4usize),
        (Some("new-releases".to_string()), 9usize),
        (Some("Press-Awards".to_string()), 3usize),
        (Some("critics".to_string()), 7usize),
    ];
    assert_eq!(critics_count(&containers), 3);
    assert_eq!(critics_count(&vec![(Some("new".to_string()), 2usize)]), 0);
    let sections = LabelSections { top_tracks: 0, releases: 5, critics: 3, playlists: 0, artists: 0, more_labels: 2 };
    let image = qbz_qt::label_json::Json::Str("https://x/logo.jpg".to_string());
    let doc = assemble_label_doc(
        42,
        "ECM".to_string(),
        Some(&image),
        "A long story".to_string(),
        "A long…".to_string(),
        &vec![7, 42],
        sections,
    );
    assert_eq!(doc.id, Some(42));
    assert_eq!(doc.name, "ECM");
    assert_eq!(doc.image_url, "https://x/logo.jpg");
    assert!(doc.art_path.is_empty());
    assert!(doc.description_truncated);
    assert!(doc.is_following);
    let ids: Vec<&str> = doc.jump_tabs.iter().map(|t| t.id.as_str()).collect();
    assert_eq!(ids, vec!["about", "releases", "critics", "labels"]);
    let other = assemble_label_doc(9, String::new(), None, "x".to_string(), "x".to_string(), &vec![42], sections);
    assert!(!other.is_following);
    assert!(!other.description_truncated);
    assert!(other.image_url.is_empty());
}
