//! The label page's raw catalog items — popular tracks, playlists, artists,
//! other labels — read off their JSON form: images in their several shapes,
//! names, ids and the track facts a row shows.
use vstd::prelude::*;
use crate::text::{
    all_digits, chars_of, decimal, digit_char, digit_value, digits_value, is_digit, unsigned_digits,
    string_from_chars, parse_u64, push_decimal, spec_parse_u64, str_equals, str_is_empty,
};

verus! {

/// A JSON number as the catalog sent it: its text, and its value when it is
/// a whole number that fits `u64` or `i64`.
pub struct JsonNumber {
    pub text: String,
    pub as_u64: Option<u64>,
    pub as_i64: Option<i64>,
}

/// One member of a JSON object.
pub struct Member {
    pub key: String,
    pub value: Json,
}

/// A JSON value. An object keeps its members in order, each key once.
pub enum Json {
    Null,
    Bool(bool),
    Number(JsonNumber),
    Str(String),
    Array(Vec<Json>),
    Object(Vec<Member>),
}

// ---------------------------------------------------------------------------
// Reading values
// ---------------------------------------------------------------------------

/// The value of the first member named `key`.
pub open spec fn member_at(ms: Seq<Member>, key: Seq<char>) -> Option<Json>
    decreases ms.len(),
{
    if ms.len() == 0 {
        None
    } else {
        let r = member_at(ms.drop_last(), key);
        if r is Some {
            r
        } else if ms.last().key@ == key {
            Some(ms.last().value)
        } else {
            None
        }
    }
}

/// `v.get(key)`: the member `key` of an object; nothing for anything else.
pub open spec fn jget(v: Option<Json>, key: Seq<char>) -> Option<Json> {
    match v {
        Some(Json::Object(ms)) => member_at(ms@, key),
        _ => None,
    }
}

/// `as_str`.
pub open spec fn jstr(v: Option<Json>) -> Option<Seq<char>> {
    match v {
        Some(Json::Str(s)) => Some(s@),
        _ => None,
    }
}

/// `as_u64`.
pub open spec fn ju64(v: Option<Json>) -> Option<u64> {
    match v {
        Some(Json::Number(n)) => n.as_u64,
        _ => None,
    }
}

/// `as_bool`.
pub open spec fn jbool(v: Option<Json>) -> Option<bool> {
    match v {
        Some(Json::Bool(b)) => Some(b),
        _ => None,
    }
}

/// The first element of an array, if it is one and has any.
pub open spec fn jfirst(v: Option<Json>) -> Option<Json> {
    match v {
        Some(Json::Array(a)) => if a@.len() > 0 {
            Some(a@[0])
        } else {
            None
        },
        _ => None,
    }
}

pub fn get<'a>(v: &'a Json, key: &str) -> (r: Option<&'a Json>)
    ensures
        match r {
            Some(x) => jget(Some(*v), key@) == Some(*x),
            None => jget(Some(*v), key@) is None,
        },
{
    match v {
        Json::Object(ms) => {
            let mut i: usize = 0;
            while i < ms.len()
                invariant
                    0 <= i <= ms@.len(),
                    *v == Json::Object(*ms),
                    member_at(ms@.take(i as int), key@) is None,
                decreases ms@.len() - i,
            {
                proof {
                    assert(ms@.take(i + 1).drop_last() =~= ms@.take(i as int));
                    assert(ms@.take(i + 1).last() == ms@[i as int]);
                }
                if str_equals(ms[i].key.as_str(), key) {
                    proof {
                        assert(ms@[i as int].key@ == key@);
                        assert(member_at(ms@.take(i + 1), key@) == Some(ms@[i as int].value));
                        lemma_member_prefix(ms@, key@, i + 1);
                        assert(*v == Json::Object(*ms));
                        assert(jget(Some(*v), key@) == Some(ms@[i as int].value));
                    }
                    let r = &ms[i].value;
                    assert(*r == ms@[i as int].value);
                    return Some(r);
                }
                i = i + 1;
            }
            proof {
                assert(ms@.take(i as int) =~= ms@);
            }
            None
        },
        _ => None,
    }
}

proof fn lemma_member_prefix(ms: Seq<Member>, key: Seq<char>, j: int)
    requires
        0 <= j <= ms.len(),
        member_at(ms.take(j), key) is Some,
    ensures
        member_at(ms, key) == member_at(ms.take(j), key),
    decreases ms.len() - j,
{
    if j < ms.len() {
        assert(ms.take(j + 1).drop_last() =~= ms.take(j));
        lemma_member_prefix(ms, key, j + 1);
    } else {
        assert(ms.take(j) =~= ms);
    }
}

pub fn as_str(v: Option<&Json>) -> (r: Option<&String>)
    ensures
        match r {
            Some(s) => jstr(opt_json(v)) == Some(s@),
            None => jstr(opt_json(v)) is None,
        },
{
    match v {
        Some(Json::Str(s)) => Some(s),
        _ => None,
    }
}

pub fn as_u64(v: Option<&Json>) -> (r: Option<u64>)
    ensures
        r == ju64(opt_json(v)),
{
    match v {
        Some(Json::Number(n)) => n.as_u64,
        _ => None,
    }
}

pub fn as_bool(v: Option<&Json>) -> (r: Option<bool>)
    ensures
        r == jbool(opt_json(v)),
{
    match v {
        Some(Json::Bool(b)) => Some(*b),
        _ => None,
    }
}

pub fn first<'a>(v: Option<&'a Json>) -> (r: Option<&'a Json>)
    ensures
        match r {
            Some(x) => jfirst(opt_json(v)) == Some(*x),
            None => jfirst(opt_json(v)) is None,
        },
{
    match v {
        Some(Json::Array(a)) => if a.len() > 0 {
            Some(&a[0])
        } else {
            None
        },
        _ => None,
    }
}

/// A borrowed value, as a value.
pub open spec fn opt_json(v: Option<&Json>) -> Option<Json> {
    match v {
        Some(x) => Some(*x),
        None => None,
    }
}

/// `v.get(key)` on a value that may be absent.
pub fn get_in<'a>(v: Option<&'a Json>, key: &str) -> (r: Option<&'a Json>)
    ensures
        opt_json(r) == jget(opt_json(v), key@),
{
    match v {
        Some(x) => get(x, key),
        None => None,
    }
}

// ---------------------------------------------------------------------------
// Images and names
// ---------------------------------------------------------------------------

/// `a`, else `b`.
pub open spec fn or_else(a: Option<Seq<char>>, b: Option<Seq<char>>) -> Option<Seq<char>> {
    if a is Some {
        a
    } else {
        b
    }
}

pub open spec fn or_empty(a: Option<Seq<char>>) -> Seq<char> {
    match a {
        Some(s) => s,
        None => Seq::empty(),
    }
}

/// The first of three string members.
pub open spec fn first_str3(v: Option<Json>, a: Seq<char>, b: Seq<char>, c: Seq<char>) -> Option<Seq<char>> {
    or_else(jstr(jget(v, a)), or_else(jstr(jget(v, b)), jstr(jget(v, c))))
}

/// The first of five string members.
pub open spec fn first_str5(
    v: Option<Json>,
    a: Seq<char>,
    b: Seq<char>,
    c: Seq<char>,
    d: Seq<char>,
    e: Seq<char>,
) -> Option<Seq<char>> {
    or_else(jstr(jget(v, a)), or_else(jstr(jget(v, b)), first_str3(v, c, d, e)))
}

fn str_member(v: Option<&Json>, key: &str) -> (r: Option<String>)
    ensures
        match r {
            Some(s) => jstr(jget(opt_json(v), key@)) == Some(s@),
            None => jstr(jget(opt_json(v), key@)) is None,
        },
{
    match as_str(get_in(v, key)) {
        Some(s) => Some(s.clone()),
        None => None,
    }
}

fn first_of3(v: Option<&Json>, a: &str, b: &str, c: &str) -> (r: Option<String>)
    ensures
        match r {
            Some(s) => first_str3(opt_json(v), a@, b@, c@) == Some(s@),
            None => first_str3(opt_json(v), a@, b@, c@) is None,
        },
{
    match str_member(v, a) {
        Some(s) => Some(s),
        None => match str_member(v, b) {
            Some(s) => Some(s),
            None => str_member(v, c),
        },
    }
}

fn first_of5(v: Option<&Json>, a: &str, b: &str, c: &str, d: &str, e: &str) -> (r: Option<String>)
    ensures
        match r {
            Some(s) => first_str5(opt_json(v), a@, b@, c@, d@, e@) == Some(s@),
            None => first_str5(opt_json(v), a@, b@, c@, d@, e@) is None,
        },
{
    match str_member(v, a) {
        Some(s) => Some(s),
        None => match str_member(v, b) {
            Some(s) => Some(s),
            None => first_of3(v, c, d, e),
        },
    }
}

fn or_empty_string(o: Option<String>) -> (r: String)
    ensures
        r@ == match o {
            Some(s) => s@,
            None => Seq::empty(),
        },
{
    match o {
        Some(s) => s,
        None => String::new(),
    }
}

/// A label logo: a bare string, or the first of its
/// mega, extra-large, large, thumbnail and small sizes; "" for none.
pub open spec fn spec_extract_label_image(image: Option<Json>) -> Seq<char> {
    match image {
        None => Seq::empty(),
        Some(j) => match jstr(image) {
            Some(s) => s,
            None => or_empty(
                first_str5(image, "mega"@, "extralarge"@, "large"@, "thumbnail"@, "small"@),
            ),
        },
    }
}

pub fn extract_label_image(image: Option<&Json>) -> (r: String)
    ensures
        r@ == spec_extract_label_image(opt_json(image)),
{
    match image {
        None => String::new(),
        Some(j) => match as_str(image) {
            Some(s) => s.clone(),
            None => or_empty_string(first_of5(image, "mega", "extralarge", "large", "thumbnail", "small")),
        },
    }
}

/// A value as text: a string as it is, a number as the
/// catalog wrote it, anything else as "".
pub open spec fn spec_value_to_string(v: Json) -> Seq<char> {
    match v {
        Json::Str(s) => s@,
        Json::Number(n) => n.text@,
        _ => Seq::empty(),
    }
}

pub fn value_to_string(v: &Json) -> (r: String)
    ensures
        r@ == spec_value_to_string(*v),
{
    match v {
        Json::Str(s) => s.clone(),
        Json::Number(n) => n.text.clone(),
        _ => String::new(),
    }
}

/// A name: a bare string, or the `display` of an object.
pub open spec fn spec_name_display(v: Json) -> Seq<char> {
    match jstr(Some(v)) {
        Some(s) => s,
        None => or_empty(jstr(jget(Some(v), "display"@))),
    }
}

pub fn name_display(v: &Json) -> (r: String)
    ensures
        r@ == spec_name_display(*v),
{
    match as_str(Some(v)) {
        Some(s) => s.clone(),
        None => or_empty_string(str_member(Some(v), "display")),
    }
}

/// An image: a bare string, or the first of its large,
/// extra-large, medium, thumbnail and small sizes.
pub open spec fn spec_parse_image_value(v: Json) -> Seq<char> {
    match jstr(Some(v)) {
        Some(s) => s,
        None => or_empty(
            first_str5(Some(v), "large"@, "extralarge"@, "medium"@, "thumbnail"@, "small"@),
        ),
    }
}

pub fn parse_image_value(v: &Json) -> (r: String)
    ensures
        r@ == spec_parse_image_value(*v),
{
    match as_str(Some(v)) {
        Some(s) => s.clone(),
        None => or_empty_string(first_of5(Some(v), "large", "extralarge", "medium", "thumbnail", "small")),
    }
}

/// An image of the label explorer: a bare string,
/// or the first of its large, thumbnail and small sizes.
pub open spec fn spec_parse_explore_image(v: Json) -> Seq<char> {
    match jstr(Some(v)) {
        Some(s) => s,
        None => or_empty(first_str3(Some(v), "large"@, "thumbnail"@, "small"@)),
    }
}

pub fn parse_explore_image(v: &Json) -> (r: String)
    ensures
        r@ == spec_parse_explore_image(*v),
{
    match as_str(Some(v)) {
        Some(s) => s.clone(),
        None => or_empty_string(first_of3(Some(v), "large", "thumbnail", "small")),
    }
}

/// The portrait URL the catalog builds from an image hash and format.
pub open spec fn portrait_url(hash: Seq<char>, format: Seq<char>) -> Seq<char> {
    "https://static.qobuz.com/images/artists/covers/medium/"@ + hash + "."@ + format
}

/// An artist's picture: its image when that gives a
/// URL, else its picture when not empty, else the URL of its portrait's
/// hash and format, else "".
pub open spec fn spec_parse_artist_image(raw: Json) -> Seq<char> {
    let v = Some(raw);
    let from_image = match jget(v, "image"@) {
        Some(img) => spec_parse_image_value(img),
        None => Seq::empty(),
    };
    let portrait = jget(jget(v, "images"@), "portrait"@);
    if from_image.len() > 0 {
        from_image
    } else if or_empty(jstr(jget(v, "picture"@))).len() > 0 {
        or_empty(jstr(jget(v, "picture"@)))
    } else if jstr(jget(portrait, "hash"@)) is Some && jstr(jget(portrait, "format"@)) is Some {
        portrait_url(or_empty(jstr(jget(portrait, "hash"@))), or_empty(jstr(jget(portrait, "format"@))))
    } else {
        Seq::empty()
    }
}

pub fn parse_artist_image(raw: &Json) -> (r: String)
    ensures
        r@ == spec_parse_artist_image(*raw),
{
    match get(raw, "image") {
        Some(image) => {
            let url = parse_image_value(image);
            if !str_is_empty(url.as_str()) {
                return url;
            }
        },
        None => {},
    }
    match str_member(Some(raw), "picture") {
        Some(pic) => {
            if !str_is_empty(pic.as_str()) {
                return pic;
            }
        },
        None => {},
    }
    let portrait = get_in(get(raw, "images"), "portrait");
    match (str_member(portrait, "hash"), str_member(portrait, "format")) {
        (Some(hash), Some(format)) => {
            let s = String::from_str("https://static.qobuz.com/images/artists/covers/medium/");
            let s = s.concat(hash.as_str());
            let s = s.concat(".");
            s.concat(format.as_str())
        },
        _ => String::new(),
    }
}

/// The first string of an array member.
pub open spec fn first_str_in(v: Option<Json>, key: Seq<char>) -> Option<Seq<char>> {
    jstr(jfirst(jget(v, key)))
}

fn first_str_member(v: Option<&Json>, key: &str) -> (r: Option<String>)
    ensures
        match r {
            Some(s) => first_str_in(opt_json(v), key@) == Some(s@),
            None => first_str_in(opt_json(v), key@) is None,
        },
{
    match as_str(first(get_in(v, key))) {
        Some(s) => Some(s.clone()),
        None => None,
    }
}

/// A playlist's picture: from its image, the
/// rectangle when not empty, else the first cover, else its large,
/// thumbnail or small size; else the first of its 300, 150 or plain image
/// lists; else "".
pub open spec fn spec_parse_playlist_image(raw: Json) -> Seq<char> {
    let v = Some(raw);
    let image = jget(v, "image"@);
    let from_image = if image is Some {
        if or_empty(jstr(jget(image, "rectangle"@))).len() > 0 {
            jstr(jget(image, "rectangle"@))
        } else {
            or_else(first_str_in(image, "covers"@), first_str3(image, "large"@, "thumbnail"@, "small"@))
        }
    } else {
        None
    };
    or_empty(
        or_else(
            from_image,
            or_else(
                first_str_in(v, "images300"@),
                or_else(first_str_in(v, "images150"@), first_str_in(v, "images"@)),
            ),
        ),
    )
}

pub fn parse_playlist_image(raw: &Json) -> (r: String)
    ensures
        r@ == spec_parse_playlist_image(*raw),
{
    let image = get(raw, "image");
    if image.is_some() {
        match str_member(image, "rectangle") {
            Some(rect) => {
                if !str_is_empty(rect.as_str()) {
                    return rect;
                }
            },
            None => {},
        }
        match first_str_member(image, "covers") {
            Some(cover) => {
                return cover;
            },
            None => {},
        }
        match first_of3(image, "large", "thumbnail", "small") {
            Some(s) => {
                return s;
            },
            None => {},
        }
    }
    match first_str_member(Some(raw), "images300") {
        Some(s) => {
            return s;
        },
        None => {},
    }
    match first_str_member(Some(raw), "images150") {
        Some(s) => {
            return s;
        },
        None => {},
    }
    or_empty_string(first_str_member(Some(raw), "images"))
}

// ---------------------------------------------------------------------------
// Popular tracks
// ---------------------------------------------------------------------------

/// Seconds as "m:ss".
pub open spec fn spec_mmss(secs: u32) -> Seq<char> {
    let m = secs / 60;
    let s = secs % 60;
    decimal(m as nat) + ":"@ + if s < 10 {
        seq!['0'] + decimal(s as nat)
    } else {
        decimal(s as nat)
    }
}

pub fn mmss(secs: u32) -> (r: String)
    ensures
        r@ == spec_mmss(secs),
{
    let mut out = String::new();
    push_decimal(&mut out, (secs / 60) as u64);
    out.append(":");
    let s = secs % 60;
    if s < 10 {
        out.append("0");
    }
    push_decimal(&mut out, s as u64);
    proof {
        reveal_strlit("0");
        assert(out@ =~= spec_mmss(secs));
    }
    out
}

/// A JSON value that may be absent, else `b`.
pub open spec fn or_else_json(a: Option<Json>, b: Option<Json>) -> Option<Json> {
    if a is Some {
        a
    } else {
        b
    }
}

/// One of an artist's roles is "main-artist".
pub open spec fn has_main_role(a: Json) -> bool {
    match jget(Some(a), "roles"@) {
        Some(Json::Array(rs)) => exists|i: int| 0 <= i < rs@.len() && jstr(Some(#[trigger] rs@[i])) == Some("main-artist"@),
        _ => false,
    }
}

/// The first artist of the list with the main-artist role.
pub open spec fn first_main(arr: Seq<Json>) -> Option<Json>
    decreases arr.len(),
{
    if arr.len() == 0 {
        None
    } else {
        let r = first_main(arr.drop_last());
        if r is Some {
            r
        } else if has_main_role(arr.last()) {
            Some(arr.last())
        } else {
            None
        }
    }
}

/// Who a popular track is by: the main artist of its `artists` list, else
/// the list's first; without such a list its performer, else its artist,
/// else its album's artist — each taken as soon as the member is there.
pub open spec fn spec_main_artist(raw: Json) -> Option<Json> {
    let v = Some(raw);
    let from_list = match jget(v, "artists"@) {
        Some(Json::Array(arr)) => or_else_json(
            first_main(arr@),
            if arr@.len() > 0 {
                Some(arr@[0])
            } else {
                None
            },
        ),
        _ => None,
    };
    or_else_json(
        from_list,
        or_else_json(
            jget(v, "performer"@),
            or_else_json(jget(v, "artist"@), jget(jget(v, "album"@), "artist"@)),
        ),
    )
}

fn is_main(a: &Json) -> (r: bool)
    ensures
        r == has_main_role(*a),
{
    match get(a, "roles") {
        Some(Json::Array(rs)) => {
            assert(jget(Some(*a), "roles"@) == Some(Json::Array(*rs)));
            let mut i: usize = 0;
            while i < rs.len()
                invariant
                    0 <= i <= rs@.len(),
                    jget(Some(*a), "roles"@) == Some(Json::Array(*rs)),
                    forall|k: int| 0 <= k < i ==> jstr(Some(#[trigger] rs@[k])) != Some("main-artist"@),
                decreases rs@.len() - i,
            {
                match as_str(Some(&rs[i])) {
                    Some(s) => {
                        if str_equals(s.as_str(), "main-artist") {
                            assert(jstr(Some(rs@[i as int])) == Some("main-artist"@));
                            return true;
                        }
                    },
                    None => {},
                }
                i = i + 1;
            }
            false
        },
        _ => false,
    }
}

fn main_artist(raw: &Json) -> (r: Option<&Json>)
    ensures
        opt_json(r) == spec_main_artist(*raw),
{
    match get(raw, "artists") {
        Some(Json::Array(arr)) => {
            assert(jget(Some(*raw), "artists"@) == Some(Json::Array(*arr)));
            let mut i: usize = 0;
            while i < arr.len()
                invariant
                    0 <= i <= arr@.len(),
                    jget(Some(*raw), "artists"@) == Some(Json::Array(*arr)),
                    first_main(arr@.take(i as int)) is None,
                decreases arr@.len() - i,
            {
                proof {
                    assert(arr@.take(i + 1).drop_last() =~= arr@.take(i as int));
                    assert(arr@.take(i + 1).last() == arr@[i as int]);
                }
                if is_main(&arr[i]) {
                    proof {
                        lemma_first_main_prefix(arr@, i + 1);
                    }
                    return Some(&arr[i]);
                }
                i = i + 1;
            }
            proof {
                assert(arr@.take(i as int) =~= arr@);
            }
            if arr.len() > 0 {
                return Some(&arr[0]);
            }
        },
        _ => {},
    }
    match get(raw, "performer") {
        Some(p) => {
            return Some(p);
        },
        None => {},
    }
    match get(raw, "artist") {
        Some(a) => {
            return Some(a);
        },
        None => {},
    }
    get_in(get(raw, "album"), "artist")
}

proof fn lemma_first_main_prefix(arr: Seq<Json>, j: int)
    requires
        0 <= j <= arr.len(),
        first_main(arr.take(j)) is Some,
    ensures
        first_main(arr) == first_main(arr.take(j)),
    decreases arr.len() - j,
{
    if j < arr.len() {
        assert(arr.take(j + 1).drop_last() =~= arr.take(j));
        lemma_first_main_prefix(arr, j + 1);
    } else {
        assert(arr.take(j) =~= arr);
    }
}

/// What a popular-track row reads off the label page.
pub struct TopTrack {
    pub id: String,
    pub number: String,
    pub title: String,
    pub artist: String,
    pub artist_id: String,
    pub album: String,
    pub album_id: String,
    pub duration: String,
    pub bit_depth: Option<u32>,
    pub explicit: bool,
    pub artwork_url: String,
    pub not_streamable: bool,
}

pub open spec fn opt_text(v: Option<Json>, f: spec_fn(Json) -> Seq<char>) -> Seq<char> {
    match v {
        Some(j) => f(j),
        None => Seq::empty(),
    }
}

/// A popular-track row, the `index`-th of the list:
/// its id (a whole number, else ""), its place from one, title, artist and
/// artist id from who it is by, album title, id and cover, duration as
/// "m:ss", the catalog's bit depth (from its audio info, else its own),
/// whether it is explicit, and whether it cannot be streamed — only when
/// the catalog says so, in its own or its rights' `streamable`.
pub open spec fn top_track_ok(index: usize, raw: Json, t: TopTrack) -> bool {
    let v = Some(raw);
    let album = jget(v, "album"@);
    let main = spec_main_artist(raw);
    let depth = match ju64(jget(jget(v, "audio_info"@), "maximum_bit_depth"@)) {
        Some(b) => Some(b),
        None => ju64(jget(v, "maximum_bit_depth"@)),
    };
    let streamable = match jbool(jget(v, "streamable"@)) {
        Some(b) => b,
        None => match jbool(jget(jget(v, "rights"@), "streamable"@)) {
            Some(b) => b,
            None => true,
        },
    };
    let duration = match ju64(jget(v, "duration"@)) {
        Some(d) => d,
        None => 0,
    };
    &&& t.id@ == match ju64(jget(v, "id"@)) {
        Some(n) => decimal(n as nat),
        None => Seq::empty(),
    }
    &&& t.number@ == decimal((index + 1) as nat)
    &&& t.title@ == or_empty(jstr(jget(v, "title"@)))
    &&& t.artist@ == opt_text(jget(main, "name"@), |j: Json| spec_name_display(j))
    &&& t.artist_id@ == opt_text(jget(main, "id"@), |j: Json| spec_value_to_string(j))
    &&& t.album@ == or_empty(jstr(jget(album, "title"@)))
    &&& t.album_id@ == opt_text(jget(album, "id"@), |j: Json| spec_value_to_string(j))
    &&& t.artwork_url@ == opt_text(jget(album, "image"@), |j: Json| spec_parse_image_value(j))
    &&& t.duration@ == spec_mmss(duration as u32)
    &&& t.bit_depth == match depth {
        Some(b) => Some(b as u32),
        None => None,
    }
    &&& t.explicit == match jbool(jget(v, "parental_warning"@)) {
        Some(b) => b,
        None => false,
    }
    &&& t.not_streamable == !streamable
}

pub fn parse_top_track(index: usize, raw: &Json) -> (t: TopTrack)
    requires
        index < usize::MAX,
    ensures
        top_track_ok(index, *raw, t),
{
    let id = match as_u64(get(raw, "id")) {
        Some(n) => {
            let mut s = String::new();
            push_decimal(&mut s, n);
            assert(s@ =~= decimal(n as nat));
            s
        },
        None => String::new(),
    };
    let mut number = String::new();
    push_decimal(&mut number, (index + 1) as u64);
    assert(number@ =~= decimal((index + 1) as nat));
    let title = or_empty_string(str_member(Some(raw), "title"));
    let duration_secs: u64 = match as_u64(get(raw, "duration")) {
        Some(d) => d,
        None => 0,
    };
    let album = get(raw, "album");
    let album_id = match get_in(album, "id") {
        Some(j) => value_to_string(j),
        None => String::new(),
    };
    let album_title = or_empty_string(str_member(album, "title"));
    let artwork_url = match get_in(album, "image") {
        Some(j) => parse_image_value(j),
        None => String::new(),
    };
    let main = main_artist(raw);
    let artist = match get_in(main, "name") {
        Some(j) => name_display(j),
        None => String::new(),
    };
    let artist_id = match get_in(main, "id") {
        Some(j) => value_to_string(j),
        None => String::new(),
    };
    let depth = match as_u64(get_in(get(raw, "audio_info"), "maximum_bit_depth")) {
        Some(b) => Some(b),
        None => as_u64(get(raw, "maximum_bit_depth")),
    };
    let bit_depth: Option<u32> = match depth {
        Some(b) => Some(#[verifier::truncate] (b as u32)),
        None => None,
    };
    let streamable = match as_bool(get(raw, "streamable")) {
        Some(b) => b,
        None => match as_bool(get_in(get(raw, "rights"), "streamable")) {
            Some(b) => b,
            None => true,
        },
    };
    let explicit = match as_bool(get(raw, "parental_warning")) {
        Some(b) => b,
        None => false,
    };
    let duration = mmss(#[verifier::truncate] (duration_secs as u32));
    TopTrack {
        id,
        number,
        title,
        artist,
        artist_id,
        album: album_title,
        album_id,
        duration,
        bit_depth,
        explicit,
        artwork_url,
        not_streamable: !streamable,
    }
}

// ---------------------------------------------------------------------------
// Playlists, artists and other labels
// ---------------------------------------------------------------------------

/// A card of the label page: id, title, subtitle and picture.
pub struct PageCard {
    pub id: String,
    pub title: String,
    pub subtitle: String,
    pub art_url: String,
}

/// A playlist card: its id as text, its name, "owner ·
/// track count" (the owner's name when not empty, else "Qobuz"), and its
/// picture.
pub open spec fn playlist_ok(raw: Json, c: PageCard) -> bool {
    let v = Some(raw);
    let owner_name = or_empty(jstr(jget(jget(v, "owner"@), "name"@)));
    let owner = if owner_name.len() > 0 {
        owner_name
    } else {
        "Qobuz"@
    };
    let count = match ju64(jget(v, "tracks_count"@)) {
        Some(n) => n,
        None => 0,
    };
    &&& c.id@ == opt_text(jget(v, "id"@), |j: Json| spec_value_to_string(j))
    &&& c.title@ == or_empty(jstr(jget(v, "name"@)))
    &&& c.subtitle@ == owner + " · "@ + decimal(count as nat)
    &&& c.art_url@ == spec_parse_playlist_image(raw)
}

pub fn parse_playlist(raw: &Json) -> (c: PageCard)
    ensures
        playlist_ok(*raw, c),
{
    let owner = match str_member(get(raw, "owner"), "name") {
        Some(name) => {
            if str_is_empty(name.as_str()) {
                String::from_str("Qobuz")
            } else {
                name
            }
        },
        None => String::from_str("Qobuz"),
    };
    let count: u64 = match as_u64(get(raw, "tracks_count")) {
        Some(n) => n,
        None => 0,
    };
    let id = match get(raw, "id") {
        Some(j) => value_to_string(j),
        None => String::new(),
    };
    let title = or_empty_string(str_member(Some(raw), "name"));
    let mut subtitle = owner.concat(" · ");
    push_decimal(&mut subtitle, count);
    PageCard { id, title, subtitle, art_url: parse_playlist_image(raw) }
}

/// An artist card: its id as text, its name and picture;
/// no subtitle.
pub open spec fn artist_card_ok(raw: Json, c: PageCard) -> bool {
    let v = Some(raw);
    &&& c.id@ == opt_text(jget(v, "id"@), |j: Json| spec_value_to_string(j))
    &&& c.title@ == opt_text(jget(v, "name"@), |j: Json| spec_name_display(j))
    &&& c.subtitle@.len() == 0
    &&& c.art_url@ == spec_parse_artist_image(raw)
}

pub fn parse_artist(raw: &Json) -> (c: PageCard)
    ensures
        artist_card_ok(*raw, c),
{
    let id = match get(raw, "id") {
        Some(j) => value_to_string(j),
        None => String::new(),
    };
    let title = match get(raw, "name") {
        Some(j) => name_display(j),
        None => String::new(),
    };
    PageCard { id, title, subtitle: String::new(), art_url: parse_artist_image(raw) }
}

/// A label of the explorer as a card: its id, name and picture.
pub open spec fn label_card(item: Json, id: u64) -> (Seq<char>, Seq<char>, Seq<char>) {
    let v = Some(item);
    (
        decimal(id as nat),
        or_empty(jstr(jget(v, "name"@))),
        opt_text(jget(v, "image"@), |j: Json| spec_parse_explore_image(j)),
    )
}

/// The "more labels" row: every explored label with
/// a whole-number id other than the open one, in order.
pub open spec fn more_labels(items: Seq<Json>, current: u64) -> Seq<(Seq<char>, Seq<char>, Seq<char>)>
    decreases items.len(),
{
    if items.len() == 0 {
        Seq::empty()
    } else {
        let head = more_labels(items.drop_last(), current);
        match ju64(jget(Some(items.last()), "id"@)) {
            Some(id) => if id != current {
                head.push(label_card(items.last(), id))
            } else {
                head
            },
            None => head,
        }
    }
}

pub open spec fn cards_view(s: Seq<PageCard>) -> Seq<(Seq<char>, Seq<char>, Seq<char>)> {
    s.map_values(|c: PageCard| (c.id@, c.title@, c.art_url@))
}

pub fn parse_more_labels(items: Option<&Vec<Json>>, current: u64) -> (r: Vec<PageCard>)
    ensures
        cards_view(r@) == match items {
            Some(v) => more_labels(v@, current),
            None => Seq::empty(),
        },
        forall|i: int| 0 <= i < r@.len() ==> (#[trigger] r@[i]).subtitle@.len() == 0,
{
    let mut out: Vec<PageCard> = Vec::new();
    match items {
        None => {
            assert(cards_view(out@) =~= Seq::<(Seq<char>, Seq<char>, Seq<char>)>::empty());
            out
        },
        Some(v) => {
            let mut i: usize = 0;
            while i < v.len()
                invariant
                    0 <= i <= v@.len(),
                    cards_view(out@) == more_labels(v@.take(i as int), current),
                    forall|k: int| 0 <= k < out@.len() ==> (#[trigger] out@[k]).subtitle@.len() == 0,
                decreases v@.len() - i,
            {
                let item = &v[i];
                proof {
                    assert(v@.take(i + 1).drop_last() =~= v@.take(i as int));
                    assert(v@.take(i + 1).last() == v@[i as int]);
                }
                match as_u64(get(item, "id")) {
                    Some(id) => {
                        if id != current {
                            let mut ids = String::new();
                            push_decimal(&mut ids, id);
                            assert(ids@ =~= decimal(id as nat));
                            let title = or_empty_string(str_member(Some(item), "name"));
                            let art_url = match get(item, "image") {
                                Some(j) => parse_explore_image(j),
                                None => String::new(),
                            };
                            let ghost before = cards_view(out@);
                            out.push(PageCard { id: ids, title, subtitle: String::new(), art_url });
                            proof {
                                assert(cards_view(out@) =~= before.push(label_card(v@[i as int], id)));
                            }
                        }
                    },
                    None => {},
                }
                i = i + 1;
            }
            proof {
                assert(v@.take(i as int) =~= v@);
            }
            out
        },
    }
}

// ---------------------------------------------------------------------------
// Queueing a popular track
// ---------------------------------------------------------------------------

/// The position of the first ':' in `s`, or -1.
pub open spec fn colon_at(s: Seq<char>) -> int
    decreases s.len(),
{
    if s.len() == 0 {
        -1
    } else {
        let k = colon_at(s.drop_last());
        if k >= 0 {
            k
        } else if s.last() == ':' {
            s.len() - 1
        } else {
            -1
        }
    }
}

/// The first piece of `s` split at ':'.
pub open spec fn first_piece(s: Seq<char>) -> Seq<char> {
    if colon_at(s) < 0 {
        s
    } else {
        s.take(colon_at(s))
    }
}

/// The second piece of `s` split at ':', if it has one.
pub open spec fn second_piece(s: Seq<char>) -> Option<Seq<char>> {
    if colon_at(s) < 0 {
        None
    } else {
        Some(first_piece(s.skip(colon_at(s) + 1)))
    }
}

pub open spec fn parsed_or_zero(p: Option<Seq<char>>) -> nat {
    match p {
        Some(t) => match spec_parse_u64(t) {
            Some(n) => n as nat,
            None => 0,
        },
        None => 0,
    }
}

/// The seconds of a "m:ss" duration: minutes times sixty plus seconds, a
/// piece that is not a whole number counting as nothing.
pub open spec fn spec_duration_secs(d: Seq<char>) -> nat {
    parsed_or_zero(Some(first_piece(d))) * 60 + parsed_or_zero(second_piece(d))
}

proof fn lemma_colon_at(s: Seq<char>)
    ensures
        -1 <= colon_at(s) < s.len(),
        colon_at(s) == -1 ==> forall|i: int| 0 <= i < s.len() ==> s[i] != ':',
        colon_at(s) >= 0 ==> s[colon_at(s)] == ':' && forall|i: int| 0 <= i < colon_at(s) ==> s[i] != ':',
    decreases s.len(),
{
    if s.len() > 0 {
        lemma_colon_at(s.drop_last());
        let t = s.drop_last();
        assert forall|i: int| 0 <= i < t.len() implies t[i] == s[i] by {}
    }
}

fn find_colon(v: &Vec<char>, from: usize) -> (r: usize)
    requires
        from <= v@.len(),
    ensures
        from <= r <= v@.len(),
        r == v@.len() ==> colon_at(v@.skip(from as int)) == -1,
        r < v@.len() ==> colon_at(v@.skip(from as int)) == r - from,
{
    let ghost t = v@.skip(from as int);
    let mut i: usize = from;
    while i < v.len() && v[i] != ':'
        invariant
            from <= i <= v@.len(),
            t == v@.skip(from as int),
            forall|k: int| from <= k < i ==> v@[k] != ':',
        decreases v@.len() - i,
    {
        i = i + 1;
    }
    proof {
        lemma_colon_at(t);
        let c = colon_at(t);
        if i == v.len() {
            if c >= 0 {
                assert(t[c] == v@[from + c]);
            }
        } else {
            assert(t[i - from] == ':');
            if c >= 0 && c < i - from {
                assert(t[c] == v@[from + c]);
            }
            if c == -1 {
                assert(t[i - from] != ':');
            }
        }
    }
    i
}

fn slice_chars(v: &Vec<char>, lo: usize, hi: usize) -> (r: String)
    requires
        lo <= hi <= v@.len(),
    ensures
        r@ == v@.subrange(lo as int, hi as int),
{
    let mut out: Vec<char> = Vec::new();
    let mut i: usize = lo;
    while i < hi
        invariant
            lo <= i <= hi,
            hi <= v@.len(),
            out@ == v@.subrange(lo as int, i as int),
        decreases hi - i,
    {
        out.push(v[i]);
        proof {
            assert(out@ =~= v@.subrange(lo as int, i + 1));
        }
        i = i + 1;
    }
    string_from_chars(&out)
}

fn parse_or_zero(s: &str) -> (r: u64)
    ensures
        r == match spec_parse_u64(s@) {
            Some(n) => n,
            None => 0,
        },
{
    match parse_u64(s) {
        Some(n) => n,
        None => 0,
    }
}

/// The seconds of a row's "m:ss" duration.
pub fn duration_secs(duration: &str) -> (r: u64)
    requires
        spec_duration_secs(duration@) <= u64::MAX,
    ensures
        r == spec_duration_secs(duration@),
{
    let v = chars_of(duration);
    let c = find_colon(&v, 0);
    proof {
        assert(v@.skip(0) =~= v@);
    }
    let first = slice_chars(&v, 0, c);
    proof {
        if c < v@.len() {
            assert(first@ =~= v@.take(c as int));
        } else {
            assert(first@ =~= v@);
        }
    }
    let m = parse_or_zero(first.as_str());
    let secs: u64 = if c < v.len() {
        let c2 = find_colon(&v, c + 1);
        let second = slice_chars(&v, c + 1, c2);
        proof {
            let rest = v@.skip(c + 1);
            if c2 < v@.len() {
                assert(second@ =~= rest.take(c2 - (c + 1)));
            } else {
                assert(second@ =~= rest);
            }
            assert(second_piece(duration@) == Some(first_piece(rest)));
        }
        parse_or_zero(second.as_str())
    } else {
        0
    };
    assert(m * 60 + secs == spec_duration_secs(duration@));
    m * 60 + secs
}

/// What a popular track is queued with besides its text.
pub struct QueueFacts {
    pub id: u64,
    pub duration_secs: u64,
    pub artwork_url: Option<String>,
    pub album_id: Option<String>,
    pub artist_id: Option<u64>,
    pub streamable: bool,
    pub hires: bool,
}

pub open spec fn non_empty(s: Seq<char>) -> Option<Seq<char>> {
    if s.len() == 0 {
        None
    } else {
        Some(s)
    }
}

pub open spec fn opt_string_view(o: Option<String>) -> Option<Seq<char>> {
    match o {
        Some(s) => Some(s@),
        None => None,
    }
}

/// A popular track as the queue takes it: its id
/// (0 when not a whole number), its duration in seconds, its cover and
/// album id when it has them, its artist id when a whole number, whether it
/// streams, and whether its quality tier is "hires".
pub fn queue_facts(row: &TopTrack, quality_tier: &str) -> (q: QueueFacts)
    requires
        spec_duration_secs(row.duration@) <= u64::MAX,
    ensures
        q.id == match spec_parse_u64(row.id@) {
            Some(n) => n,
            None => 0,
        },
        q.duration_secs == spec_duration_secs(row.duration@),
        opt_string_view(q.artwork_url) == non_empty(row.artwork_url@),
        opt_string_view(q.album_id) == non_empty(row.album_id@),
        q.artist_id == spec_parse_u64(row.artist_id@),
        q.streamable == !row.not_streamable,
        q.hires == (quality_tier@ == "hires"@),
{
    QueueFacts {
        id: parse_or_zero(row.id.as_str()),
        duration_secs: duration_secs(row.duration.as_str()),
        artwork_url: if str_is_empty(row.artwork_url.as_str()) {
            None
        } else {
            Some(row.artwork_url.clone())
        },
        album_id: if str_is_empty(row.album_id.as_str()) {
            None
        } else {
            Some(row.album_id.clone())
        },
        artist_id: parse_u64(row.artist_id.as_str()),
        streamable: !row.not_streamable,
        hires: str_equals(quality_tier, "hires"),
    }
}

// ---------------------------------------------------------------------------
// The duration text reads back
// ---------------------------------------------------------------------------

proof fn lemma_digit_char(d: nat)
    requires
        d < 10,
    ensures
        is_digit(digit_char(d)),
        digit_value(digit_char(d)) == d,
        digit_char(d) != ':',
        digit_char(d) != '+',
{
}

proof fn lemma_decimal(n: nat)
    ensures
        decimal(n).len() >= 1,
        all_digits(decimal(n)),
        digits_value(decimal(n)) == n,
        forall|i: int| 0 <= i < decimal(n).len() ==> #[trigger] decimal(n)[i] != ':' && decimal(n)[i] != '+',
    decreases n,
{
    if n < 10 {
        lemma_digit_char(n);
        assert(decimal(n).drop_last() =~= Seq::<char>::empty());
        assert(digits_value(Seq::<char>::empty()) == 0);
        assert(digits_value(decimal(n)) == digits_value(decimal(n).drop_last()) * 10 + digit_value(
            decimal(n).last(),
        ));
    } else {
        lemma_decimal(n / 10);
        lemma_digit_char(n % 10);
        let d = decimal(n / 10);
        assert(decimal(n) == d.push(digit_char(n % 10)));
        assert(decimal(n).drop_last() =~= d);
        assert(digits_value(decimal(n)) == digits_value(d) * 10 + digit_value(digit_char(n % 10)));
        assert((n / 10) * 10 + n % 10 == n) by (nonlinear_arith);
        assert forall|i: int| 0 <= i < decimal(n).len() implies is_digit(#[trigger] decimal(n)[i]) by {
            if i < d.len() {
                assert(decimal(n)[i] == d[i]);
            }
        }
        assert forall|i: int| 0 <= i < decimal(n).len() implies #[trigger] decimal(n)[i] != ':'
            && decimal(n)[i] != '+' by {
            if i < d.len() {
                assert(decimal(n)[i] == d[i]);
            }
        }
    }
}

proof fn lemma_leading_zero(s: Seq<char>)
    ensures
        digits_value(seq!['0'] + s) == digits_value(s),
    decreases s.len(),
{
    let t = seq!['0'] + s;
    if s.len() == 0 {
        assert(t =~= seq!['0']);
        assert(t.drop_last() =~= Seq::<char>::empty());
        assert(digits_value(Seq::<char>::empty()) == 0);
        assert(digits_value(t) == digits_value(t.drop_last()) * 10 + digit_value(t.last()));
        assert(digit_value('0') == 0);
    } else {
        lemma_leading_zero(s.drop_last());
        assert(t.drop_last() =~= seq!['0'] + s.drop_last());
        assert(t.last() == s.last());
        assert(digits_value(t) == digits_value(t.drop_last()) * 10 + digit_value(t.last()));
        assert(digits_value(s) == digits_value(s.drop_last()) * 10 + digit_value(s.last()));
    }
}

proof fn lemma_parse_digits(t: Seq<char>)
    requires
        t.len() > 0,
        all_digits(t),
        digits_value(t) <= u64::MAX,
    ensures
        spec_parse_u64(t) == Some(digits_value(t) as u64),
{
    assert(t[0] != '+') by {
        assert(is_digit(t[0]));
    }
    assert(unsigned_digits(t) == t);
}

proof fn lemma_colon_first(s: Seq<char>, k: int)
    requires
        0 <= k < s.len(),
        s[k] == ':',
        forall|i: int| 0 <= i < k ==> s[i] != ':',
    ensures
        colon_at(s) == k,
{
    lemma_colon_at(s);
}

proof fn lemma_no_colon(s: Seq<char>)
    requires
        forall|i: int| 0 <= i < s.len() ==> s[i] != ':',
    ensures
        colon_at(s) == -1,
        first_piece(s) == s,
{
    lemma_colon_at(s);
}

/// A duration written as "m:ss" reads back as the seconds it was written
/// from: the queue gets the duration the row shows.
pub proof fn lemma_duration_round_trip(secs: u32)
    ensures
        spec_duration_secs(spec_mmss(secs)) == secs,
{
    let m = (secs / 60) as nat;
    let sec = (secs % 60) as nat;
    let dm = decimal(m);
    let ss = if sec < 10 {
        seq!['0'] + decimal(sec)
    } else {
        decimal(sec)
    };
    reveal_strlit(":");
    let text = spec_mmss(secs);
    assert(text == dm + ":"@ + ss);
    lemma_decimal(m);
    lemma_decimal(sec);
    // the seconds text: digits, no colon, worth `sec`
    assert(all_digits(ss) && ss.len() > 0 && digits_value(ss) == sec
        && forall|i: int| 0 <= i < ss.len() ==> ss[i] != ':') by {
        if sec < 10 {
            lemma_leading_zero(decimal(sec));
            assert forall|i: int| 0 <= i < ss.len() implies is_digit(#[trigger] ss[i]) && ss[i] != ':' by {
                if i > 0 {
                    assert(ss[i] == decimal(sec)[i - 1]);
                }
            }
        }
    }
    // the first colon follows the minutes
    let k = dm.len() as int;
    assert(text[k] == ':');
    assert forall|i: int| 0 <= i < k implies text[i] != ':' by {
        assert(text[i] == dm[i]);
    }
    lemma_colon_first(text, k);
    assert(first_piece(text) =~= dm);
    assert(text.skip(k + 1) =~= ss);
    assert forall|i: int| 0 <= i < ss.len() implies ss[i] != ':' by {}
    lemma_no_colon(ss);
    assert(second_piece(text) == Some(ss));
    lemma_parse_digits(dm);
    lemma_parse_digits(ss);
    assert(m * 60 + sec == secs) by (nonlinear_arith)
        requires
            m == secs / 60,
            sec == secs % 60,
    ;
}

} // verus!
