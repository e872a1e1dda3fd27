//! The multi-select bars of the Library's Tracks and Albums tabs: what an
//! action on a selection does, which feed rows a selection names, and the
//! mixtape items made of selected tracks.
use vstd::prelude::*;
use crate::text::{str_equals, str_is_empty};

verus! {

/// How selected tracks join the queue.
#[derive(Clone, Copy, Debug, PartialEq, Eq, Structural)]
pub enum QueueMode {
    /// Appended.
    Queue,
    /// Inserted at the cursor.
    Next,
    /// Appended to the block the user queued by hand.
    Later,
}

impl QueueMode {
    /// The mode's word for the queue helper.
    pub fn word(&self) -> (r: &'static str)
        ensures
            r@ == match *self {
                QueueMode::Queue => "queue"@,
                QueueMode::Next => "next"@,
                QueueMode::Later => "later"@,
            },
    {
        proof {
            reveal_strlit("queue");
            reveal_strlit("next");
            reveal_strlit("later");
        }
        match self {
            QueueMode::Queue => "queue",
            QueueMode::Next => "next",
            QueueMode::Later => "later",
        }
    }
}

/// What an action on a selection does.
#[derive(Clone, Copy, Debug, PartialEq, Eq, Structural)]
pub enum BulkPlan {
    /// Nothing: an empty selection, or a scope or action the bar does not
    /// offer.
    Ignore,
    /// The selected tracks, or the tracks of the selected albums, join the
    /// queue.
    Enqueue(QueueMode),
    /// The playlist picker opens for the selected track ids.
    AddToPlaylist,
    /// The mixtape picker opens for the selected tracks.
    AddToMixtape,
    /// The selection is removed from the Library.
    Remove,
}

pub open spec fn spec_queue_mode(action: Seq<char>) -> Option<QueueMode> {
    if action == "queue"@ {
        Some(QueueMode::Queue)
    } else if action == "play-next"@ {
        Some(QueueMode::Next)
    } else if action == "play-later"@ {
        Some(QueueMode::Later)
    } else {
        None
    }
}

pub open spec fn spec_bulk_plan(scope: Seq<char>, selected: nat, action: Seq<char>) -> BulkPlan {
    if selected == 0 {
        BulkPlan::Ignore
    } else if scope == "track"@ {
        match spec_queue_mode(action) {
            Some(m) => BulkPlan::Enqueue(m),
            None => if action == "add-to-playlist"@ {
                BulkPlan::AddToPlaylist
            } else if action == "add-to-mixtape"@ {
                BulkPlan::AddToMixtape
            } else if action == "remove-selected"@ {
                BulkPlan::Remove
            } else {
                BulkPlan::Ignore
            },
        }
    } else if scope == "album"@ {
        match spec_queue_mode(action) {
            Some(m) => BulkPlan::Enqueue(m),
            None => if action == "remove-selected"@ {
                BulkPlan::Remove
            } else {
                BulkPlan::Ignore
            },
        }
    } else {
        BulkPlan::Ignore
    }
}

fn queue_mode(action: &str) -> (r: Option<QueueMode>)
    ensures
        r == spec_queue_mode(action@),
{
    if str_equals(action, "queue") {
        Some(QueueMode::Queue)
    } else if str_equals(action, "play-next") {
        Some(QueueMode::Next)
    } else if str_equals(action, "play-later") {
        Some(QueueMode::Later)
    } else {
        None
    }
}

/// What action `action` of the bar of `scope` ("track" or "album") does to
/// a selection of `selected` rows. The Albums bar offers
/// only the queue actions and removal.
pub fn bulk_plan(scope: &str, selected: usize, action: &str) -> (r: BulkPlan)
    ensures
        r == spec_bulk_plan(scope@, selected as nat, action@),
{
    if selected == 0 {
        return BulkPlan::Ignore;
    }
    if str_equals(scope, "track") {
        match queue_mode(action) {
            Some(m) => BulkPlan::Enqueue(m),
            None => if str_equals(action, "add-to-playlist") {
                BulkPlan::AddToPlaylist
            } else if str_equals(action, "add-to-mixtape") {
                BulkPlan::AddToMixtape
            } else if str_equals(action, "remove-selected") {
                BulkPlan::Remove
            } else {
                BulkPlan::Ignore
            },
        }
    } else if str_equals(scope, "album") {
        match queue_mode(action) {
            Some(m) => BulkPlan::Enqueue(m),
            None => if str_equals(action, "remove-selected") {
                BulkPlan::Remove
            } else {
                BulkPlan::Ignore
            },
        }
    } else {
        BulkPlan::Ignore
    }
}

/// The strings of a JSON array of strings, as `serde_json` reads `text`;
/// `None` when `text` is not such an array.
pub uninterp spec fn json_string_list(text: Seq<char>) -> Option<Seq<Seq<char>>>;

/// `serde_json::from_str::<Vec<String>>`: the ids of a JSON string array,
/// or `None` when the text is not one. What it accepts and yields is taken
/// from serde_json and named, not proved.
#[verifier::external_body]
fn parse_id_list(text: &str) -> (r: Option<Vec<String>>)
    ensures
        r is Some <==> json_string_list(text@) is Some,
        r matches Some(v) ==> v@.map_values(|s: String| s@) == json_string_list(text@)->0,
{
    serde_json::from_str::<Vec<String>>(text).ok()
}

/// An action of a bar on the ids the bar sent as a JSON array: the ids (none
/// when the text is not a JSON string array) and what the action does to
/// them.
pub fn bulk_action_plan(scope: &str, ids_json: &str, action: &str) -> (r: (Vec<String>, BulkPlan))
    ensures
        json_string_list(ids_json@) matches Some(l) ==> r.0@.map_values(|s: String| s@) == l,
        json_string_list(ids_json@) is None ==> r.0@.len() == 0,
        r.1 == spec_bulk_plan(scope@, r.0@.len() as nat, action@),
{
    let ids = match parse_id_list(ids_json) {
        Some(v) => v,
        None => Vec::new(),
    };
    let plan = bulk_plan(scope, ids.len(), action);
    (ids, plan)
}

/// A row of the Library feed, as the bars read it.
pub struct FeedItem {
    /// "track" or "album".
    pub kind: String,
    pub id: String,
    pub title: String,
    pub artist: String,
    /// Where the row comes from: "qobuz", "local", "plex", ...
    pub source: String,
    pub image_url: String,
}

/// The position of the first feed row of kind `kind` and id `id`, or -1.
pub open spec fn feed_index(feed: Seq<FeedItem>, kind: Seq<char>, id: Seq<char>) -> int
    decreases feed.len(),
{
    if feed.len() == 0 {
        -1
    } else {
        let earlier = feed_index(feed.drop_last(), kind, id);
        if earlier >= 0 {
            earlier
        } else if feed.last().kind@ == kind && feed.last().id@ == id {
            feed.len() - 1
        } else {
            -1
        }
    }
}

/// The feed positions a selection names, in selection order; ids not in the
/// feed are dropped.
pub open spec fn selection_rows(feed: Seq<FeedItem>, kind: Seq<char>, ids: Seq<String>) -> Seq<int>
    decreases ids.len(),
{
    if ids.len() == 0 {
        Seq::empty()
    } else {
        let rest = selection_rows(feed, kind, ids.drop_last());
        let k = feed_index(feed, kind, ids.last()@);
        if k >= 0 {
            rest.push(k)
        } else {
            rest
        }
    }
}

proof fn lemma_feed_index_bounds(feed: Seq<FeedItem>, kind: Seq<char>, id: Seq<char>)
    ensures
        -1 <= feed_index(feed, kind, id) < feed.len(),
        feed_index(feed, kind, id) >= 0 ==> feed[feed_index(feed, kind, id)].kind@ == kind && feed[feed_index(
            feed,
            kind,
            id,
        )].id@ == id,
    decreases feed.len(),
{
    if feed.len() > 0 {
        lemma_feed_index_bounds(feed.drop_last(), kind, id);
    }
}

fn find_feed(feed: &Vec<FeedItem>, kind: &str, id: &str) -> (r: Option<usize>)
    ensures
        match r {
            Some(k) => k as int == feed_index(feed@, kind@, id@),
            None => feed_index(feed@, kind@, id@) == -1,
        },
{
    let mut k: usize = 0;
    while k < feed.len()
        invariant
            0 <= k <= feed@.len(),
            feed_index(feed@.take(k as int), kind@, id@) == -1,
        decreases feed@.len() - k,
    {
        proof {
            assert(feed@.take(k + 1).drop_last() =~= feed@.take(k as int));
        }
        if str_equals(feed[k].kind.as_str(), kind) && str_equals(feed[k].id.as_str(), id) {
            proof {
                lemma_feed_index_prefix(feed@, kind@, id@, k as int + 1);
            }
            return Some(k);
        }
        k = k + 1;
    }
    proof {
        assert(feed@.take(k as int) =~= feed@);
    }
    None
}

/// The first match is found within any prefix that holds it.
proof fn lemma_feed_index_prefix(feed: Seq<FeedItem>, kind: Seq<char>, id: Seq<char>, n: int)
    requires
        0 <= n <= feed.len(),
        feed_index(feed.take(n), kind, id) >= 0,
    ensures
        feed_index(feed, kind, id) == feed_index(feed.take(n), kind, id),
    decreases feed.len() - n,
{
    if n < feed.len() {
        assert(feed.take(n + 1).drop_last() =~= feed.take(n));
        lemma_feed_index_prefix(feed, kind, id, n + 1);
    } else {
        assert(feed.take(n) =~= feed);
    }
}

/// The feed rows of kind `kind` that the selected ids name, in selection
/// order, as positions in the feed; an id not in the feed is
/// dropped.
pub fn feed_rows_for(feed: &Vec<FeedItem>, kind: &str, ids: &Vec<String>) -> (r: Vec<usize>)
    ensures
        r@.map_values(|k: usize| k as int) == selection_rows(feed@, kind@, ids@),
        forall|i: int| 0 <= i < r@.len() ==> (#[trigger] r@[i]) < feed@.len(),
{
    let mut out: Vec<usize> = Vec::new();
    let mut i: usize = 0;
    while i < ids.len()
        invariant
            0 <= i <= ids@.len(),
            out@.map_values(|k: usize| k as int) == selection_rows(feed@, kind@, ids@.take(i as int)),
            forall|j: int| 0 <= j < out@.len() ==> (#[trigger] out@[j]) < feed@.len(),
        decreases ids@.len() - i,
    {
        proof {
            assert(ids@.take(i + 1).drop_last() =~= ids@.take(i as int));
            assert(ids@.take(i + 1).last() == ids@[i as int]);
        }
        match find_feed(feed, kind, ids[i].as_str()) {
            Some(k) => {
                proof {
                    lemma_feed_index_bounds(feed@, kind@, ids@[i as int]@);
                }
                out.push(k);
                proof {
                    assert(out@.map_values(|k: usize| k as int) =~= selection_rows(
                        feed@,
                        kind@,
                        ids@.take(i as int),
                    ).push(k as int));
                }
            },
            None => {},
        }
        i = i + 1;
    }
    proof {
        assert(ids@.take(i as int) =~= ids@);
    }
    out
}

/// A track as the mixtape picker stores it.
pub struct MixtapeItem {
    pub item_type: String,
    /// "local" for local and Plex rows, "qobuz" for the rest.
    pub source: String,
    pub source_item_id: String,
    pub title: String,
    pub subtitle: Option<String>,
    pub artwork_url: Option<String>,
}

/// The mixtape source of a feed row: local and Plex rows are stored as
/// local, everything else as Qobuz.
pub open spec fn mixtape_source(source: Seq<char>) -> Seq<char> {
    if source == "local"@ || source == "plex"@ {
        "local"@
    } else {
        "qobuz"@
    }
}

pub open spec fn mixtape_item_of(row: FeedItem, item: MixtapeItem) -> bool {
    &&& item.item_type@ == "track"@
    &&& item.source@ == mixtape_source(row.source@)
    &&& item.source_item_id@ == row.id@
    &&& item.title@ == row.title@
    &&& item.subtitle matches Some(s) && s@ == row.artist@
    &&& if row.image_url@.len() == 0 {
        item.artwork_url is None
    } else {
        item.artwork_url matches Some(u) && u@ == row.image_url@
    }
}

/// The mixtape items of the selected feed rows, one per
/// row, in order.
pub fn mixtape_items(feed: &Vec<FeedItem>, rows: &Vec<usize>) -> (r: Vec<MixtapeItem>)
    requires
        forall|i: int| 0 <= i < rows@.len() ==> (#[trigger] rows@[i]) < feed@.len(),
    ensures
        r@.len() == rows@.len(),
        forall|i: int| 0 <= i < r@.len() ==> mixtape_item_of(feed@[rows@[i] as int], #[trigger] r@[i]),
{
    let mut out: Vec<MixtapeItem> = Vec::new();
    let mut i: usize = 0;
    while i < rows.len()
        invariant
            0 <= i <= rows@.len(),
            out@.len() == i,
            forall|k: int| 0 <= k < rows@.len() ==> (#[trigger] rows@[k]) < feed@.len(),
            forall|k: int| 0 <= k < i ==> mixtape_item_of(feed@[rows@[k] as int], #[trigger] out@[k]),
        decreases rows@.len() - i,
    {
        let row = &feed[rows[i]];
        let local = str_equals(row.source.as_str(), "local") || str_equals(row.source.as_str(), "plex");
        let source = if local {
            "local".to_string()
        } else {
            "qobuz".to_string()
        };
        let artwork_url = if str_is_empty(row.image_url.as_str()) {
            None
        } else {
            Some(row.image_url.clone())
        };
        proof {
            reveal_strlit("local");
            reveal_strlit("qobuz");
            reveal_strlit("track");
        }
        out.push(MixtapeItem {
            item_type: "track".to_string(),
            source,
            source_item_id: row.id.clone(),
            title: row.title.clone(),
            subtitle: Some(row.artist.clone()),
            artwork_url,
        });
        i = i + 1;
    }
    out
}

/// What removing a selection from the Library does.
#[derive(Clone, Copy, Debug, PartialEq, Eq, Structural)]
pub enum RemovePlan {
    /// Offline the hearts are read-only: the user is told, nothing is sent.
    RefuseOffline,
    /// Each row is unfavourited; a track selection is announced first, since
    /// a long one takes visible seconds.
    Remove { announce: bool },
}

/// What removing a selection of kind `kind` does.
pub fn remove_plan(offline: bool, kind: &str) -> (r: RemovePlan)
    ensures
        r == (if offline {
            RemovePlan::RefuseOffline
        } else {
            RemovePlan::Remove { announce: kind@ == "track"@ }
        }),
{
    if offline {
        RemovePlan::RefuseOffline
    } else {
        RemovePlan::Remove { announce: str_equals(kind, "track") }
    }
}

/// What each bar offers, for any non-empty selection: the Tracks bar queues
/// (appended, next or later), opens the playlist or mixtape picker, and
/// removes; the Albums bar queues and removes, and offers neither picker.
pub proof fn lemma_bars_offer_their_actions(selected: nat)
    requires
        selected > 0,
    ensures
        spec_bulk_plan("track"@, selected, "queue"@) == BulkPlan::Enqueue(QueueMode::Queue),
        spec_bulk_plan("track"@, selected, "play-next"@) == BulkPlan::Enqueue(QueueMode::Next),
        spec_bulk_plan("track"@, selected, "play-later"@) == BulkPlan::Enqueue(QueueMode::Later),
        spec_bulk_plan("track"@, selected, "add-to-playlist"@) == BulkPlan::AddToPlaylist,
        spec_bulk_plan("track"@, selected, "add-to-mixtape"@) == BulkPlan::AddToMixtape,
        spec_bulk_plan("track"@, selected, "remove-selected"@) == BulkPlan::Remove,
        spec_bulk_plan("album"@, selected, "queue"@) == BulkPlan::Enqueue(QueueMode::Queue),
        spec_bulk_plan("album"@, selected, "play-next"@) == BulkPlan::Enqueue(QueueMode::Next),
        spec_bulk_plan("album"@, selected, "play-later"@) == BulkPlan::Enqueue(QueueMode::Later),
        spec_bulk_plan("album"@, selected, "remove-selected"@) == BulkPlan::Remove,
        spec_bulk_plan("album"@, selected, "add-to-playlist"@) == BulkPlan::Ignore,
        spec_bulk_plan("album"@, selected, "add-to-mixtape"@) == BulkPlan::Ignore,
{
    reveal_strlit("track");
    reveal_strlit("album");
    reveal_strlit("queue");
    reveal_strlit("play-next");
    reveal_strlit("play-later");
    reveal_strlit("add-to-playlist");
    reveal_strlit("add-to-mixtape");
    reveal_strlit("remove-selected");
    assert("play-next"@.len() != "queue"@.len());
    assert("play-later"@.len() != "queue"@.len());
    assert("play-later"@.len() != "play-next"@.len());
    assert("remove-selected"@.len() != "add-to-playlist"@.len() || "remove-selected"@[0] != "add-to-playlist"@[0]);
    assert("add-to-mixtape"@.len() != "add-to-playlist"@.len());
    assert("album"@[0] != "track"@[0]);
    assert("add-to-playlist"@[0] != "remove-selected"@[0]);
    assert("add-to-mixtape"@.len() != "remove-selected"@.len());
}

/// An empty selection, or a scope other than the two bars, plans nothing.
pub proof fn lemma_nothing_to_act_on(scope: Seq<char>, selected: nat, action: Seq<char>)
    requires
        selected == 0 || (scope != "track"@ && scope != "album"@),
    ensures
        spec_bulk_plan(scope, selected, action) == BulkPlan::Ignore,
{
}

/// The plan of a bar's action is the plan for the ids the bar sent: a
/// JSON array of ids is acted on as a selection of that many.
pub proof fn lemma_sent_ids_are_the_selection(scope: Seq<char>, ids_json: Seq<char>, action: Seq<char>)
    requires
        json_string_list(ids_json) is Some,
        json_string_list(ids_json)->0.len() > 0,
        scope == "track"@,
        action == "remove-selected"@,
    ensures
        spec_bulk_plan(scope, json_string_list(ids_json)->0.len(), action) == BulkPlan::Remove,
{
    lemma_bars_offer_their_actions(json_string_list(ids_json)->0.len());
}

} // verus!
