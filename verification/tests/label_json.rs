use qbz_qt::label_json::{
    duration_secs, extract_label_image, mmss, name_display, parse_artist, parse_artist_image,
    parse_explore_image, parse_more_labels, parse_playlist, parse_playlist_image, parse_top_track,
    queue_facts, value_to_string, Json, JsonNumber, Member,
};

fn s(v: &str) -> Json {
    Json::Str(v.to_string())
}

fn n(v: u64) -> Json {
    Json::Number(JsonNumber { text: v.to_string(), as_u64: Some(v), as_i64: i64::try_from(v).ok() })
}

fn obj(members: Vec<(&str, Json)>) -> Json {
    Json::Object(members.into_iter().map(|(k, v)| Member { key: k.to_string(), value: v }).collect())
}

fn arr(items: Vec<Json>) -> Json {
    Json::Array(items)
}

#[test]
fn extract_label_image_bare_string_and_object() {
    assert_eq!(extract_label_image(None), "");
    let bare = s("https://x/y.jpg");
    assert_eq!(extract_label_image(Some(&bare)), "https://x/y.jpg");
    let o = obj(vec![("large", s("L")), ("mega", s("M"))]);
    // mega wins (the Svelte extraction order).
    assert_eq!(extract_label_image(Some(&o)), "M");
    assert_eq!(extract_label_image(Some(&obj(vec![("small", s("S"))]))), "S");
    assert_eq!(extract_label_image(Some(&n(3))), "");
}

#[test]
fn names_numbers_and_images_read_in_every_shape() {
    assert_eq!(value_to_string(&s("12")), "12");
    assert_eq!(value_to_string(&n(42)), "42");
    assert_eq!(value_to_string(&Json::Null), "");
    assert_eq!(name_display(&s("Bob")), "Bob");
    assert_eq!(name_display(&obj(vec![("display", s("Bobby"))])), "Bobby");
    assert_eq!(name_display(&obj(vec![("other", s("x"))])), "");
    assert_eq!(parse_explore_image(&obj(vec![("small", s("sm")), ("thumbnail", s("th"))])), "th");
    let artist = obj(vec![
        ("image", obj(vec![("small", s(""))])),
        ("picture", s("")),
        ("images", obj(vec![("portrait", obj(vec![("hash", s("abc")), ("format", s("jpg"))]))])),
    ]);
    // an empty image URL and an empty picture fall through to the portrait
    assert_eq!(
        parse_artist_image(&artist),
        "https://static.qobuz.com/images/artists/covers/medium/abc.jpg"
    );
    assert_eq!(parse_artist_image(&obj(vec![("picture", s("p.jpg"))])), "p.jpg");
    assert_eq!(parse_artist_image(&obj(vec![])), "");
    let playlist = obj(vec![
        ("image", obj(vec![("rectangle", s("")), ("covers", arr(vec![s("c1"), s("c2")]))])),
    ]);
    assert_eq!(parse_playlist_image(&playlist), "c1");
    let playlist = obj(vec![("images150", arr(vec![s("i150")])), ("images", arr(vec![s("i")]))]);
    assert_eq!(parse_playlist_image(&playlist), "i150");
    let playlist = obj(vec![("image", obj(vec![("rectangle", s("rect"))]))]);
    assert_eq!(parse_playlist_image(&playlist), "rect");
}

#[test]
fn a_popular_track_takes_its_main_artist_from_the_track_level_list() {
    let raw = obj(vec![
        ("id", n(123456)),
        ("title", s("Song")),
        ("duration", n(245)),
        ("performer", Json::Null),
        (
            "artists",
            arr(vec![
                obj(vec![("name", s("Guest")), ("id", n(1)), ("roles", arr(vec![s("featured-artist")]))]),
                obj(vec![
                    ("name", obj(vec![("display", s("Main"))])),
                    ("id", n(2)),
                    ("roles", arr(vec![s("composer"), s("main-artist")])),
                ]),
            ]),
        ),
        (
            "album",
            obj(vec![("id", s("alb1")), ("title", s("Album")), ("image", obj(vec![("large", s("L"))]))]),
        ),
        ("audio_info", obj(vec![("maximum_bit_depth", n(24))])),
        ("parental_warning", Json::Bool(true)),
    ]);
    let t = parse_top_track(0, &raw);
    assert_eq!(t.id, "123456");
    assert_eq!(t.number, "1");
    assert_eq!(t.title, "Song");
    assert_eq!(t.artist, "Main");
    assert_eq!(t.artist_id, "2");
    assert_eq!(t.album, "Album");
    assert_eq!(t.album_id, "alb1");
    assert_eq!(t.artwork_url, "L");
    assert_eq!(t.duration, "4:05");
    assert_eq!(t.bit_depth, Some(24));
    assert!(t.explicit);
    // no streamable key: the endpoint was terse, the track is not dead
    assert!(!t.not_streamable);

    let q = queue_facts(&t, "hires");
    assert_eq!(q.id, 123456);
    assert_eq!(q.duration_secs, 245);
    assert_eq!(q.artwork_url.as_deref(), Some("L"));
    assert_eq!(q.album_id.as_deref(), Some("alb1"));
    assert_eq!(q.artist_id, Some(2));
    assert!(q.streamable);
    assert!(q.hires);
}

#[test]
fn a_popular_track_falls_back_through_performer_and_rights() {
    // a null performer is taken as it is: no artist
    let raw = obj(vec![("performer", Json::Null), ("artist", obj(vec![("name", s("A"))]))]);
    let t = parse_top_track(4, &raw);
    assert_eq!(t.artist, "");
    assert_eq!(t.number, "5");
    assert_eq!(t.id, "");
    assert_eq!(t.duration, "0:00");
    // an empty artists list falls through to the artist
    let raw = obj(vec![
        ("artists", arr(vec![])),
        ("artist", obj(vec![("name", s("A")), ("id", s("7"))])),
        ("rights", obj(vec![("streamable", Json::Bool(false))])),
        ("maximum_bit_depth", n(16)),
    ]);
    let t = parse_top_track(0, &raw);
    assert_eq!(t.artist, "A");
    assert_eq!(t.artist_id, "7");
    assert!(t.not_streamable);
    assert_eq!(t.bit_depth, Some(16));
    // the first artist stands in when none is the main one
    let raw = obj(vec![("artists", arr(vec![obj(vec![("name", s("First"))])]))]);
    assert_eq!(parse_top_track(0, &raw).artist, "First");
    let q = queue_facts(&parse_top_track(0, &raw), "cd");
    assert_eq!(q.id, 0);
    assert_eq!(q.artwork_url, None);
    assert_eq!(q.artist_id, None);
    assert!(!q.hires);
}

#[test]
fn durations_are_written_as_minutes_and_read_back() {
    assert_eq!(mmss(0), "0:00");
    assert_eq!(mmss(59), "0:59");
    assert_eq!(mmss(61), "1:01");
    assert_eq!(mmss(3_600), "60:00");
    for secs in [0u32, 7, 60, 245, 3_599, 86_399] {
        assert_eq!(duration_secs(&mmss(secs)), secs as u64);
    }
    assert_eq!(duration_secs("x:10"), 10);
    assert_eq!(duration_secs("3"), 180);
    assert_eq!(duration_secs("1:2:3"), 62);
}

#[test]
fn playlist_artist_and_label_cards() {
    let p = obj(vec![
        ("id", n(99)),
        ("name", s("Mix")),
        ("owner", obj(vec![("name", s(""))])),
        ("tracks_count", n(12)),
        ("images300", arr(vec![s("p300")])),
    ]);
    let c = parse_playlist(&p);
    assert_eq!(c.id, "99");
    assert_eq!(c.title, "Mix");
    assert_eq!(c.subtitle, "Qobuz · 12");
    assert_eq!(c.art_url, "p300");
    let p = obj(vec![("owner", obj(vec![("name", s("Ann"))]))]);
    assert_eq!(parse_playlist(&p).subtitle, "Ann · 0");

    let a = parse_artist(&obj(vec![("id", s("5")), ("name", s("Nina")), ("picture", s("n.jpg"))]));
    assert_eq!((a.id.as_str(), a.title.as_str(), a.art_url.as_str()), ("5", "Nina", "n.jpg"));

    let items = vec![
        obj(vec![("id", n(1)), ("name", s("Open")), ("image", s("o"))]),
        obj(vec![("id", s("2")), ("name", s("Text id"))]),
        obj(vec![("id", n(3)), ("name", s("Other")), ("image", obj(vec![("thumbnail", s("t"))]))]),
    ];
    let more = parse_more_labels(Some(&items), 1);
    assert_eq!(more.len(), 1);
    assert_eq!((more[0].id.as_str(), more[0].title.as_str(), more[0].art_url.as_str()), ("3", "Other", "t"));
    assert!(parse_more_labels(None, 1).is_empty());
}
