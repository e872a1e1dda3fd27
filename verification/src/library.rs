use vstd::prelude::*;
use crate::generation::{wrap_next, wrapping_next};

verus! {

// ---------------------------------------------------------------------------
// The Library > Artists sidepanel
// ---------------------------------------------------------------------------

/// One release section of the selected artist; `C` is the card type.
pub struct SidepanelSection<C> {
    pub title: String,
    pub albums: Vec<C>,
}

/// The right pane of the sidepanel.
pub struct SidepanelDoc<C> {
    pub artist_id: String,
    pub artist_name: String,
    pub loading: bool,
    pub error: String,
    /// Release cards across all sections.
    pub total: usize,
    pub sections: Vec<SidepanelSection<C>>,
}

/// The sections that hold at least one card, in order.
pub open spec fn nonempty_sections<C>(s: Seq<SidepanelSection<C>>) -> Seq<SidepanelSection<C>>
    decreases s.len(),
{
    if s.len() == 0 {
        s
    } else {
        let r = nonempty_sections(s.drop_last());
        if s.last().albums@.len() > 0 {
            r.push(s.last())
        } else {
            r
        }
    }
}

/// Cards across the sections.
pub open spec fn cards_total<C>(s: Seq<SidepanelSection<C>>) -> int
    decreases s.len(),
{
    if s.len() == 0 {
        0
    } else {
        cards_total(s.drop_last()) + s.last().albums@.len()
    }
}

proof fn lemma_cards_total_nonneg<C>(s: Seq<SidepanelSection<C>>)
    ensures
        cards_total(s) >= 0,
    decreases s.len(),
{
    if s.len() > 0 {
        lemma_cards_total_nonneg(s.drop_last());
    }
}

proof fn lemma_cards_total_concat<C>(a: Seq<SidepanelSection<C>>, b: Seq<SidepanelSection<C>>)
    ensures
        cards_total(a + b) == cards_total(a) + cards_total(b),
    decreases b.len(),
{
    if b.len() > 0 {
        lemma_cards_total_concat(a, b.drop_last());
        assert((a + b).drop_last() =~= a + b.drop_last());
    } else {
        assert(a + b =~= a);
    }
}

/// The artist selection on screen; a load carries the generation it was
/// started for.
pub struct Sidepanel {
    pub generation: u64,
}

impl<C> SidepanelDoc<C> {
    /// The empty pane.
    pub fn empty() -> (d: SidepanelDoc<C>)
        ensures
            d.artist_id@.len() == 0,
            d.artist_name@.len() == 0,
            !d.loading,
            d.error@.len() == 0,
            d.total == 0,
            d.sections@.len() == 0,
    {
        SidepanelDoc {
            artist_id: String::new(),
            artist_name: String::new(),
            loading: false,
            error: String::new(),
            total: 0,
            sections: Vec::new(),
        }
    }
}

impl Sidepanel {
    pub fn new() -> (s: Sidepanel)
        ensures
            s.generation == 0,
    {
        Sidepanel { generation: 0 }
    }

    /// Drop the selection (leaving the sidepanel, logout, user switch): any
    /// load in flight is superseded and the pane is emptied.
    pub fn clear<C>(&mut self) -> (d: SidepanelDoc<C>)
        ensures
            final(self).generation == wrap_next(old(self).generation),
            d.artist_id@.len() == 0,
            d.artist_name@.len() == 0,
            !d.loading,
            d.error@.len() == 0,
            d.total == 0,
            d.sections@.len() == 0,
    {
        self.generation = wrapping_next(self.generation);
        SidepanelDoc::empty()
    }

    /// Select an artist: a new generation, and the loading pane to paint at
    /// once. Returns the generation the load must carry.
    pub fn select<C>(&mut self, artist_id: String, artist_name: String) -> (r: (u64, SidepanelDoc<C>))
        ensures
            final(self).generation == wrap_next(old(self).generation),
            r.0 == final(self).generation,
            r.1.artist_id@ == artist_id@,
            r.1.artist_name@ == artist_name@,
            r.1.loading,
            r.1.error@.len() == 0,
            r.1.total == 0,
            r.1.sections@.len() == 0,
    {
        self.generation = wrapping_next(self.generation);
        (
            self.generation,
            SidepanelDoc {
                artist_id,
                artist_name,
                loading: true,
                error: String::new(),
                total: 0,
                sections: Vec::new(),
            },
        )
    }

    /// The load for `generation` finished. A superseded load publishes
    /// nothing. Otherwise the pane shows the non-empty sections and their
    /// card total, or the error with no sections.
    pub fn finish<C>(
        &self,
        generation: u64,
        artist_id: String,
        artist_name: String,
        result: Result<Vec<SidepanelSection<C>>, String>,
    ) -> (r: Option<SidepanelDoc<C>>)
        requires
            match result {
                Ok(sections) => cards_total(sections@) <= usize::MAX,
                Err(_) => true,
            },
        ensures
            generation != self.generation ==> r is None,
            generation == self.generation ==> r is Some && {
                let d = r->0;
                &&& d.artist_id@ == artist_id@
                &&& d.artist_name@ == artist_name@
                &&& !d.loading
                &&& match result {
                    Ok(sections) => {
                        &&& d.sections@ == nonempty_sections(sections@)
                        &&& d.total == cards_total(sections@)
                        &&& d.error@.len() == 0
                    },
                    Err(e) => d.error@ == e@ && d.total == 0 && d.sections@.len() == 0,
                }
            },
    {
        if generation != self.generation {
            return None;
        }
        match result {
            Ok(sections) => {
                let mut kept: Vec<SidepanelSection<C>> = Vec::new();
                let mut total: usize = 0;
                let mut rest = sections;
                let ghost all = rest@;
                let ghost mut done: Seq<SidepanelSection<C>> = Seq::empty();
                while rest.len() > 0
                    invariant
                        all == done + rest@,
                        kept@ == nonempty_sections(done),
                        total == cards_total(done),
                        cards_total(all) <= usize::MAX,
                    decreases rest@.len(),
                {
                    let ghost before = rest@;
                    let sec = rest.remove(0);
                    proof {
                        assert(before == seq![sec] + rest@);
                        assert(all == done.push(sec) + rest@) by {
                            assert(done + before =~= done.push(sec) + rest@);
                        }
                        lemma_cards_total_concat(done.push(sec), rest@);
                        lemma_cards_total_nonneg(rest@);
                        assert(done.push(sec).drop_last() =~= done);
                        done = done.push(sec);
                    }
                    if sec.albums.len() > 0 {
                        total = total + sec.albums.len();
                        kept.push(sec);
                    }
                }
                proof {
                    assert(done =~= all);
                }
                Some(
                    SidepanelDoc {
                        artist_id,
                        artist_name,
                        loading: false,
                        error: String::new(),
                        total,
                        sections: kept,
                    },
                )
            },
            Err(e) => Some(
                SidepanelDoc {
                    artist_id,
                    artist_name,
                    loading: false,
                    error: e,
                    total: 0,
                    sections: Vec::new(),
                },
            ),
        }
    }
}

/// The Library bridge, as far as its own state goes.
pub struct QbzLibrary {
    pub sidepanel: Sidepanel,
}

impl QbzLibrary {
    pub fn new() -> (l: QbzLibrary)
        ensures
            l.sidepanel.generation == 0,
    {
        QbzLibrary { sidepanel: Sidepanel::new() }
    }

    /// Select an artist in the sidepanel's left rail.
    pub fn sidepanel_select_artist<C>(&mut self, id: String, name: String) -> (r: (
        u64,
        SidepanelDoc<C>,
    ))
        ensures
            final(self).sidepanel.generation == wrap_next(old(self).sidepanel.generation),
            r.0 == final(self).sidepanel.generation,
            r.1.artist_id@ == id@,
            r.1.artist_name@ == name@,
            r.1.loading,
    {
        self.sidepanel.select(id, name)
    }

    /// Leave the sidepanel.
    pub fn sidepanel_clear<C>(&mut self) -> (d: SidepanelDoc<C>)
        ensures
            final(self).sidepanel.generation == wrap_next(old(self).sidepanel.generation),
            d.artist_id@.len() == 0,
            !d.loading,
            d.total == 0,
            d.sections@.len() == 0,
    {
        self.sidepanel.clear()
    }
}

// ---------------------------------------------------------------------------
// Favorite playlists of the library store
// ---------------------------------------------------------------------------

/// The favorite playlist ids the store answered, or none when it could not
/// be read.
pub fn favorite_playlist_ids(read: Option<Vec<u64>>) -> (r: Vec<u64>)
    ensures
        match read {
            Some(ids) => r@ == ids@,
            None => r@.len() == 0,
        },
{
    match read {
        Some(ids) => ids,
        None => Vec::new(),
    }
}

/// Playlist `pid` is among the favorites the store answered; an unreadable
/// store answers no.
pub fn is_favorite_playlist(read: Option<&Vec<u64>>, pid: u64) -> (r: bool)
    ensures
        r == match read {
            Some(ids) => ids@.contains(pid),
            None => false,
        },
{
    match read {
        Some(ids) => {
            let mut i: usize = 0;
            while i < ids.len()
                invariant
                    read == Some(ids),
                    0 <= i <= ids@.len(),
                    forall|k: int| 0 <= k < i ==> ids@[k] != pid,
                decreases ids@.len() - i,
            {
                if ids[i] == pid {
                    assert(ids@[i as int] == pid);
                    return true;
                }
                i = i + 1;
            }
            assert(!ids@.contains(pid));
            false
        },
        None => false,
    }
}

// ---------------------------------------------------------------------------
// The listening history logger's tick handling
// ---------------------------------------------------------------------------

/// Consecutive empty ticks after which an open row is closed as stopped.
pub const STOP_AFTER_EMPTY_TICKS: u32 = 3;

/// What a playback tick asks of the listening history logger.
#[derive(Debug, Clone, Copy, PartialEq, Eq, Structural)]
pub enum LogTick {
    /// Nothing to record.
    Ignore,
    /// Close the open row as stopped.
    Stop,
    /// Record the position, in milliseconds, and whether it plays.
    Progress(u64, bool),
}

/// The empty-tick counter of the listening history logger.
pub struct ListenLog {
    pub empty_ticks: u32,
}

impl ListenLog {
    pub fn new() -> (l: ListenLog)
        ensures
            l.empty_ticks == 0,
    {
        ListenLog { empty_ticks: 0 }
    }

    /// A playback tick. Without a logger nothing happens. A tick with no
    /// track counts only while a row is open, and the third consecutive one
    /// closes it; a tick with a track resets the count and records progress.
    pub fn on_tick(
        &mut self,
        has_logger: bool,
        has_open_row: bool,
        track_id: u64,
        position_secs: u64,
        is_playing: bool,
    ) -> (t: LogTick)
        requires
            has_logger && track_id != 0 ==> position_secs * 1000 <= u64::MAX,
        ensures
            !has_logger ==> t == LogTick::Ignore && final(self).empty_ticks == old(self).empty_ticks,
            has_logger && track_id == 0 && !has_open_row ==> t == LogTick::Ignore
                && final(self).empty_ticks == old(self).empty_ticks,
            has_logger && track_id == 0 && has_open_row ==> {
                let n = if old(self).empty_ticks == u32::MAX {
                    0
                } else {
                    old(self).empty_ticks + 1
                };
                &&& n >= STOP_AFTER_EMPTY_TICKS ==> t == LogTick::Stop && final(self).empty_ticks == 0
                &&& n < STOP_AFTER_EMPTY_TICKS ==> t == LogTick::Ignore && final(self).empty_ticks
                    == n
            },
            has_logger && track_id != 0 ==> t == LogTick::Progress(
                (position_secs * 1000) as u64,
                is_playing,
            ) && final(self).empty_ticks == 0,
    {
        if !has_logger {
            return LogTick::Ignore;
        }
        if track_id == 0 {
            if !has_open_row {
                return LogTick::Ignore;
            }
            let n = self.empty_ticks.wrapping_add(1);
            self.empty_ticks = n;
            if n >= STOP_AFTER_EMPTY_TICKS {
                self.empty_ticks = 0;
                return LogTick::Stop;
            }
            return LogTick::Ignore;
        }
        self.empty_ticks = 0;
        LogTick::Progress(position_secs * 1000, is_playing)
    }

    /// A track edge or a hand-off restarts the count.
    pub fn reset_ticks(&mut self)
        ensures
            final(self).empty_ticks == 0,
    {
        self.empty_ticks = 0;
    }
}

/// Whether listening history is recorded, from the open logger's pause flag
/// (`None` when no logger is open).
pub open spec fn spec_listen_log_enabled(paused: Option<bool>) -> bool {
    match paused {
        Some(p) => !p,
        None => true,
    }
}

/// Listening history defaults on: with no logger open the switch shows on,
/// and with a logger open it shows on exactly when the logger is not paused.
pub proof fn lemma_listen_log_defaults_on(p: bool)
    ensures
        spec_listen_log_enabled(None),
        spec_listen_log_enabled(Some(p)) == !p,
{
}

/// Listening history is recorded unless the open logger is paused; with no
/// logger open the switch shows on.
pub fn listen_log_is_enabled(paused: Option<bool>) -> (r: bool)
    ensures
        r == spec_listen_log_enabled(paused),
{
    match paused {
        Some(p) => !p,
        None => true,
    }
}

} // verus!
