//! Verified core of the QBZ Qt front end: the navigation, selection,
//! scrobbling, label-page and library state machines, with the outside
//! world (Qt, files, the network) left to the embedding application.

pub mod kiosk_nav;
pub mod kiosk_nav_bridge;
pub mod kiosk_profile;
pub mod integrations;
pub mod selection;
pub mod page_cache;
pub mod text;
pub mod label;
pub mod generation;
pub mod link;
pub mod local_names;
pub mod local_session;
pub mod library;
pub mod album_identity;
pub mod album_versions;
pub mod tracks_page;
pub mod album_stream;
pub mod album_catalog;
pub mod artist_facets;
pub mod album_header;
pub mod album_credits;
pub mod label_json;
pub mod media_variants;
pub mod genre_cache;
pub mod local_routes;
pub mod library_bulk;
pub mod artist_images;
pub mod depth_ring;
pub mod portrait_resolve;
