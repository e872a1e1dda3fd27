use qbz_qt::local_routes::{
    AlbumDetailFinish, AlbumDetailLoads,
    artists_need_albums, browse_route, filter_is_blank, media_gates, plex_section_rows, tab_load, tracks_route,
    LegacyReason, SurfaceRoute, TabLoad,
};

#[test]
fn every_tab_name_routes_to_its_loader() {
    assert_eq!(tab_load("albums"), TabLoad::Albums);
    assert_eq!(tab_load("albums-legacy"), TabLoad::AlbumsLegacy);
    assert_eq!(tab_load("genres"), TabLoad::AlbumsLegacy);
    assert_eq!(tab_load("artists"), TabLoad::Artists);
    assert_eq!(tab_load("folders"), TabLoad::Folders);
    assert_eq!(tab_load("tracks"), TabLoad::Tracks);
    assert_eq!(tab_load("ephemeral"), TabLoad::Nothing);
    assert_eq!(tab_load("Albums"), TabLoad::Unknown);
    assert_eq!(tab_load(""), TabLoad::Unknown);
}

#[test]
fn the_catalog_serves_browsing_only_when_requested_in_folder_mode() {
    assert_eq!(browse_route(true, "folder"), SurfaceRoute::Catalog);
    assert_eq!(browse_route(true, "metadata"), SurfaceRoute::Legacy(LegacyReason::MetadataMode));
    assert_eq!(
        browse_route(false, "folder"),
        SurfaceRoute::Legacy(LegacyReason::FeatureDisabledOrSessionFailed)
    );
    assert!(artists_need_albums(browse_route(false, "folder"), 0));
    assert!(!artists_need_albums(browse_route(false, "folder"), 3));
    assert!(!artists_need_albums(SurfaceRoute::Catalog, 0));
    assert_eq!(tracks_route(true, true), SurfaceRoute::Catalog);
    assert_eq!(tracks_route(true, false), SurfaceRoute::Legacy(LegacyReason::FeatureDisabledOrSessionFailed));
    assert_eq!(tracks_route(false, true), SurfaceRoute::Legacy(LegacyReason::LegacyPagination));
}

#[test]
fn plex_sections_are_marked_by_the_selected_keys_and_gates_read_the_server_words() {
    let sections = vec![("1".to_string(), "Music".to_string()), ("7".to_string(), "Audiobooks".to_string())];
    let rows = plex_section_rows(&sections, &vec!["7".to_string()]);
    assert_eq!(rows.len(), 2);
    assert_eq!((rows[0].key.as_str(), rows[0].title.as_str(), rows[0].selected), ("1", "Music", false));
    assert_eq!((rows[1].key.as_str(), rows[1].title.as_str(), rows[1].selected), ("7", "Audiobooks", true));
    assert_eq!(media_gates(&vec!["subsonic".to_string()]), (false, true));
    assert_eq!(media_gates(&vec!["jellyfin".to_string(), "subsonic".to_string()]), (true, true));
    assert_eq!(media_gates(&Vec::new()), (false, false));
    assert!(filter_is_blank("  \n"));
    assert!(!filter_is_blank("{}"));
}

#[test]
fn only_the_latest_album_request_under_the_same_profile_is_shown() {
    let mut loads = AlbumDetailLoads::new("p1".to_string());
    let first = loads.open("p1".to_string());
    let second = loads.open("p1".to_string());
    assert_ne!(first, second);
    assert_eq!(loads.finish(first, "p1", false, false, "localalbum"), AlbumDetailFinish::Discard);
    assert_eq!(
        loads.finish(second, "p1", false, false, "localalbum"),
        AlbumDetailFinish::Publish { open_library: false }
    );
    assert_eq!(loads.finish(second, "p2", false, false, "localalbum"), AlbumDetailFinish::Discard);
    assert_eq!(
        loads.finish(second, "p1", true, true, "localalbum"),
        AlbumDetailFinish::Publish { open_library: true }
    );
    assert_eq!(
        loads.finish(second, "p1", true, true, "home"),
        AlbumDetailFinish::Publish { open_library: false }
    );
}
