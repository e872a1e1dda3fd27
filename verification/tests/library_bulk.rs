use qbz_qt::library_bulk::{
    bulk_action_plan, bulk_plan, feed_rows_for, mixtape_items, remove_plan, BulkPlan, FeedItem, QueueMode, RemovePlan,
};

fn item(kind: &str, id: &str, source: &str, image: &str) -> FeedItem {
    FeedItem {
        kind: kind.to_string(),
        id: id.to_string(),
        title: format!("Title {id}"),
        artist: format!("Artist {id}"),
        source: source.to_string(),
        image_url: image.to_string(),
    }
}

#[test]
fn each_bar_offers_its_own_actions() {
    assert_eq!(bulk_plan("track", 2, "queue"), BulkPlan::Enqueue(QueueMode::Queue));
    assert_eq!(bulk_plan("track", 2, "play-next"), BulkPlan::Enqueue(QueueMode::Next));
    assert_eq!(bulk_plan("album", 1, "play-later"), BulkPlan::Enqueue(QueueMode::Later));
    assert_eq!(bulk_plan("track", 1, "add-to-playlist"), BulkPlan::AddToPlaylist);
    assert_eq!(bulk_plan("track", 1, "add-to-mixtape"), BulkPlan::AddToMixtape);
    assert_eq!(bulk_plan("album", 1, "add-to-mixtape"), BulkPlan::Ignore);
    assert_eq!(bulk_plan("album", 3, "remove-selected"), BulkPlan::Remove);
    assert_eq!(bulk_plan("track", 0, "queue"), BulkPlan::Ignore);
    assert_eq!(bulk_plan("artist", 2, "queue"), BulkPlan::Ignore);
    assert_eq!(bulk_plan("track", 2, "make-offline"), BulkPlan::Ignore);
    assert_eq!(QueueMode::Next.word(), "next");
    assert_eq!(QueueMode::Later.word(), "later");
    assert_eq!(QueueMode::Queue.word(), "queue");
}

#[test]
fn a_selection_names_feed_rows_in_selection_order_and_drops_the_rest() {
    let feed = vec![
        item("album", "7", "qobuz", ""),
        item("track", "1", "qobuz", "https://img/1"),
        item("track", "2", "plex", ""),
        item("track", "1", "local", ""),
    ];
    let ids = vec!["2".to_string(), "9".to_string(), "1".to_string(), "7".to_string()];
    let rows = feed_rows_for(&feed, "track", &ids);
    assert_eq!(rows, vec![2, 1]);
    let items = mixtape_items(&feed, &rows);
    assert_eq!(items.len(), 2);
    assert_eq!(items[0].source, "local");
    assert_eq!(items[0].source_item_id, "2");
    assert_eq!(items[0].artwork_url, None);
    assert_eq!(items[1].source, "qobuz");
    assert_eq!(items[1].item_type, "track");
    assert_eq!(items[1].title, "Title 1");
    assert_eq!(items[1].subtitle.as_deref(), Some("Artist 1"));
    assert_eq!(items[1].artwork_url.as_deref(), Some("https://img/1"));
}

#[test]
fn removal_is_refused_offline_and_announced_for_tracks() {
    assert_eq!(remove_plan(true, "track"), RemovePlan::RefuseOffline);
    assert_eq!(remove_plan(false, "track"), RemovePlan::Remove { announce: true });
    assert_eq!(remove_plan(false, "album"), RemovePlan::Remove { announce: false });
}

#[test]
fn bulk_actions_read_their_ids_from_the_json_array() {
    let (ids, plan) = bulk_action_plan("track", "[\"t1\", \"t2\"]", "play-next");
    assert_eq!(ids, vec!["t1".to_string(), "t2".to_string()]);
    assert_eq!(plan, BulkPlan::Enqueue(QueueMode::Next));
    let (ids, plan) = bulk_action_plan("album", "not json", "remove-selected");
    assert!(ids.is_empty());
    assert_eq!(plan, BulkPlan::Ignore);
    let (ids, plan) = bulk_action_plan("album", "[]", "queue");
    assert!(ids.is_empty());
    assert_eq!(plan, BulkPlan::Ignore);
    let (ids, plan) = bulk_action_plan("track", "[1, 2]", "queue");
    assert!(ids.is_empty());
    assert_eq!(plan, BulkPlan::Ignore);
}
