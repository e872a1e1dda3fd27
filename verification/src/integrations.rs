use vstd::prelude::*;
use crate::generation::{wrap_next, wrapping_next};
use crate::text::{chars_of, str_equals, string_from_chars, trim, trimmed_chars};

verus! {

// ---------------------------------------------------------------------------
// The validation slot of the ListenBrainz paste-token flow
// ---------------------------------------------------------------------------

/// Transient integrations UI state (process memory only).
pub struct IntegrationUi {
    pub lastfm_busy: bool,
    pub listenbrainz_busy: bool,
    pub lastfm_auth_url: String,
    pub status_text: String,
    /// 0 none / 1 info / 2 ok / 3 error.
    pub status_kind: i32,
    pub pending_lastfm_token: String,
}

impl IntegrationUi {
    pub open spec fn pending_token(&self) -> Seq<char> {
        self.pending_lastfm_token@
    }

    /// The Last.fm request token waiting for "Finish".
    pub fn pending_lastfm_token(&self) -> (t: &String)
        ensures
            t@ == self.pending_token(),
    {
        &self.pending_lastfm_token
    }

    /// Remember the Last.fm request token and its authorize URL.
    pub fn set_lastfm_pending(&mut self, token: String, url: String)
        ensures
            final(self).pending_token() == token@,
            final(self).lastfm_auth_url@ == url@,
            final(self).lastfm_busy == old(self).lastfm_busy,
            final(self).listenbrainz_busy == old(self).listenbrainz_busy,
            final(self).status_text == old(self).status_text,
            final(self).status_kind == old(self).status_kind,
    {
        self.pending_lastfm_token = token;
        self.lastfm_auth_url = url;
    }

    /// Forget the pending Last.fm sign-in.
    pub fn clear_lastfm_pending(&mut self)
        ensures
            final(self).pending_token().len() == 0,
            final(self).lastfm_auth_url@.len() == 0,
            final(self).lastfm_busy == old(self).lastfm_busy,
            final(self).listenbrainz_busy == old(self).listenbrainz_busy,
            final(self).status_text == old(self).status_text,
            final(self).status_kind == old(self).status_kind,
    {
        self.pending_lastfm_token = String::new();
        self.lastfm_auth_url = String::new();
    }

    /// A copy for the settings document, without the pending token.
    pub fn ui_snapshot(&self) -> (s: IntegrationUi)
        ensures
            s.lastfm_busy == self.lastfm_busy,
            s.listenbrainz_busy == self.listenbrainz_busy,
            s.lastfm_auth_url@ == self.lastfm_auth_url@,
            s.status_text@ == self.status_text@,
            s.status_kind == self.status_kind,
            s.pending_token().len() == 0,
    {
        IntegrationUi {
            lastfm_busy: self.lastfm_busy,
            listenbrainz_busy: self.listenbrainz_busy,
            lastfm_auth_url: self.lastfm_auth_url.clone(),
            status_text: self.status_text.clone(),
            status_kind: self.status_kind,
            pending_lastfm_token: String::new(),
        }
    }

    /// Set the status line.
    pub fn set_status(&mut self, text: String, kind: i32)
        ensures
            final(self).status_text == text,
            final(self).status_kind == kind,
            final(self).lastfm_busy == old(self).lastfm_busy,
            final(self).listenbrainz_busy == old(self).listenbrainz_busy,
            final(self).lastfm_auth_url == old(self).lastfm_auth_url,
            final(self).pending_token() == old(self).pending_token(),
    {
        self.status_text = text;
        self.status_kind = kind;
    }
}

/// The actions of the Settings integrations rows.
#[derive(Clone, Copy, Debug, PartialEq, Eq, Structural)]
pub enum IntegrationAction {
    ClearListenHistory,
    LastFmConnect,
    LastFmOpenAuthUrl,
    LastFmFinish,
    LastFmDisconnect,
    ListenBrainzDisconnect,
    Unknown,
}

pub open spec fn spec_integration_action(a: Seq<char>) -> IntegrationAction {
    if a == "listen-history-clear"@ {
        IntegrationAction::ClearListenHistory
    } else if a == "lastfm-connect"@ {
        IntegrationAction::LastFmConnect
    } else if a == "lastfm-open-auth-url"@ {
        IntegrationAction::LastFmOpenAuthUrl
    } else if a == "lastfm-finish"@ {
        IntegrationAction::LastFmFinish
    } else if a == "lastfm-disconnect"@ {
        IntegrationAction::LastFmDisconnect
    } else if a == "listenbrainz-disconnect"@ {
        IntegrationAction::ListenBrainzDisconnect
    } else {
        IntegrationAction::Unknown
    }
}

/// The action an action name names.
pub fn integration_action(action: &str) -> (r: IntegrationAction)
    ensures
        r == spec_integration_action(action@),
{
    if str_equals(action, "listen-history-clear") {
        IntegrationAction::ClearListenHistory
    } else if str_equals(action, "lastfm-connect") {
        IntegrationAction::LastFmConnect
    } else if str_equals(action, "lastfm-open-auth-url") {
        IntegrationAction::LastFmOpenAuthUrl
    } else if str_equals(action, "lastfm-finish") {
        IntegrationAction::LastFmFinish
    } else if str_equals(action, "lastfm-disconnect") {
        IntegrationAction::LastFmDisconnect
    } else if str_equals(action, "listenbrainz-disconnect") {
        IntegrationAction::ListenBrainzDisconnect
    } else {
        IntegrationAction::Unknown
    }
}

/// The outside work an action asks for first.
#[derive(Debug, PartialEq, Eq)]
pub enum ActionStep {
    /// Clear the listening history store.
    ClearListenHistory,
    /// Request a Last.fm token; answer with `finish_lastfm_connect`.
    RequestLastFmToken,
    /// Open the authorize page at this URL.
    OpenUrl(String),
    /// Exchange this token for a Last.fm session; answer with
    /// `finish_lastfm_finish`.
    ExchangeLastFmToken(String),
    /// Disconnect Last.fm; answer with `lastfm_disconnected`.
    DisconnectLastFm,
    /// Disconnect ListenBrainz; answer with `listenbrainz_disconnected`.
    DisconnectListenBrainz,
    /// Nothing to do.
    Nothing,
}

impl IntegrationUi {
    /// "Connect" on Last.fm: a request already running wins; otherwise the
    /// slot is taken (the result says whether to request a token).
    pub fn begin_lastfm_connect(&mut self) -> (started: bool)
        ensures
            started == !old(self).lastfm_busy,
            final(self).lastfm_busy,
            final(self).listenbrainz_busy == old(self).listenbrainz_busy,
            final(self).status_text == old(self).status_text,
            final(self).status_kind == old(self).status_kind,
            final(self).pending_token() == old(self).pending_token(),
            final(self).lastfm_auth_url == old(self).lastfm_auth_url,
    {
        if self.lastfm_busy {
            return false;
        }
        self.lastfm_busy = true;
        true
    }

    /// The token request answered: with a token, it is kept with its
    /// authorize URL and the status asks to authorize in the browser; either
    /// way the status shows `status` and the slot is released.
    pub fn finish_lastfm_connect(&mut self, token: Option<(String, String)>, status: String, kind: i32)
        ensures
            !final(self).lastfm_busy,
            final(self).status_text == status,
            final(self).status_kind == kind,
            match token {
                Some((t, u)) => final(self).pending_token() == t@ && final(self).lastfm_auth_url@
                    == u@,
                None => final(self).pending_token() == old(self).pending_token()
                    && final(self).lastfm_auth_url == old(self).lastfm_auth_url,
            },
            final(self).listenbrainz_busy == old(self).listenbrainz_busy,
    {
        match token {
            Some((t, u)) => {
                self.pending_lastfm_token = t;
                self.lastfm_auth_url = u;
            },
            None => {},
        }
        self.status_text = status;
        self.status_kind = kind;
        self.lastfm_busy = false;
    }

    /// The authorize page to open again, if a sign-in is pending.
    pub fn lastfm_auth_url_to_open(&self) -> (r: Option<String>)
        ensures
            self.lastfm_auth_url@.len() == 0 ==> r is None,
            self.lastfm_auth_url@.len() > 0 ==> r is Some && r->0@ == self.lastfm_auth_url@,
    {
        if crate::text::chars_of(self.lastfm_auth_url.as_str()).len() == 0 {
            None
        } else {
            Some(self.lastfm_auth_url.clone())
        }
    }

    /// "Finish" on Last.fm: without a pending token it is an error shown at
    /// once; while a request runs it is ignored; otherwise the slot is taken
    /// and the token to exchange for a session is returned.
    pub fn begin_lastfm_finish(&mut self, missing_status: String) -> (token: Option<String>)
        ensures
            old(self).pending_token().len() == 0 ==> token is None && final(self).status_text
                == missing_status && final(self).status_kind == 3 && final(self).lastfm_busy == old(
                self,
            ).lastfm_busy,
            old(self).pending_token().len() > 0 && old(self).lastfm_busy ==> token is None
                && final(self).status_text == old(self).status_text && final(self).status_kind
                == old(self).status_kind && final(self).lastfm_busy,
            old(self).pending_token().len() > 0 && !old(self).lastfm_busy ==> token is Some
                && token->0@ == old(self).pending_token() && final(self).lastfm_busy
                && final(self).status_text == old(self).status_text && final(self).status_kind
                == old(self).status_kind,
            final(self).pending_token() == old(self).pending_token(),
            final(self).listenbrainz_busy == old(self).listenbrainz_busy,
    {
        if crate::text::chars_of(self.pending_lastfm_token.as_str()).len() == 0 {
            self.status_text = missing_status;
            self.status_kind = 3;
            return None;
        }
        if self.lastfm_busy {
            return None;
        }
        self.lastfm_busy = true;
        Some(self.pending_lastfm_token.clone())
    }

    /// The session exchange answered. On success the pending sign-in is
    /// forgotten; either way the status shows `status` and the slot is
    /// released.
    pub fn finish_lastfm_finish(&mut self, connected: bool, status: String, kind: i32)
        ensures
            !final(self).lastfm_busy,
            final(self).status_text == status,
            final(self).status_kind == kind,
            connected ==> final(self).pending_token().len() == 0 && final(self).lastfm_auth_url@.len()
                == 0,
            !connected ==> final(self).pending_token() == old(self).pending_token()
                && final(self).lastfm_auth_url == old(self).lastfm_auth_url,
            final(self).listenbrainz_busy == old(self).listenbrainz_busy,
    {
        if connected {
            self.pending_lastfm_token = String::new();
            self.lastfm_auth_url = String::new();
        }
        self.status_text = status;
        self.status_kind = kind;
        self.lastfm_busy = false;
    }

    /// Last.fm disconnected: the pending sign-in and the busy slot are
    /// cleared and the status says so.
    pub fn lastfm_disconnected(&mut self, status: String)
        ensures
            !final(self).lastfm_busy,
            final(self).pending_token().len() == 0,
            final(self).lastfm_auth_url@.len() == 0,
            final(self).status_text == status,
            final(self).status_kind == 1,
            final(self).listenbrainz_busy == old(self).listenbrainz_busy,
    {
        self.pending_lastfm_token = String::new();
        self.lastfm_auth_url = String::new();
        self.lastfm_busy = false;
        self.status_text = status;
        self.status_kind = 1;
    }

    /// ListenBrainz disconnected: its slot is released and the status says
    /// so.
    pub fn listenbrainz_disconnected(&mut self, status: String)
        ensures
            !final(self).listenbrainz_busy,
            final(self).status_text == status,
            final(self).status_kind == 1,
            final(self).lastfm_busy == old(self).lastfm_busy,
            final(self).pending_token() == old(self).pending_token(),
    {
        self.listenbrainz_busy = false;
        self.status_text = status;
        self.status_kind = 1;
    }
}

impl Default for IntegrationUi {
    fn default() -> (u: Self)
        ensures
            !u.lastfm_busy,
            !u.listenbrainz_busy,
            u.lastfm_auth_url@.len() == 0,
            u.status_text@.len() == 0,
            u.status_kind == 0,
            u.pending_token().len() == 0,
    {
        IntegrationUi {
            lastfm_busy: false,
            listenbrainz_busy: false,
            lastfm_auth_url: String::new(),
            status_text: String::new(),
            status_kind: 0,
            pending_lastfm_token: String::new(),
        }
    }
}

impl IntegrationUi {
    /// An action of the integrations rows: what it asks for first, taking
    /// the Last.fm slot where it needs one.
    pub fn begin_action(&mut self, action: &str, missing_status: String) -> (r: ActionStep)
        ensures
            match spec_integration_action(action@) {
                IntegrationAction::ClearListenHistory => r == ActionStep::ClearListenHistory && *final(self)
                    == *old(self),
                IntegrationAction::LastFmConnect => {
                    &&& (old(self).lastfm_busy ==> r == ActionStep::Nothing)
                    &&& (!old(self).lastfm_busy ==> r == ActionStep::RequestLastFmToken)
                    &&& final(self).lastfm_busy
                    &&& final(self).listenbrainz_busy == old(self).listenbrainz_busy
                    &&& final(self).status_text == old(self).status_text
                    &&& final(self).status_kind == old(self).status_kind
                    &&& final(self).pending_token() == old(self).pending_token()
                    &&& final(self).lastfm_auth_url == old(self).lastfm_auth_url
                },
                IntegrationAction::LastFmOpenAuthUrl => {
                    &&& *final(self) == *old(self)
                    &&& (old(self).lastfm_auth_url@.len() == 0 ==> r == ActionStep::Nothing)
                    &&& (old(self).lastfm_auth_url@.len() > 0 ==> (r matches ActionStep::OpenUrl(u)
                        && u@ == old(self).lastfm_auth_url@))
                },
                IntegrationAction::LastFmFinish => {
                    &&& (old(self).pending_token().len() == 0 ==> r == ActionStep::Nothing
                        && final(self).status_text == missing_status && final(self).status_kind == 3
                        && final(self).lastfm_busy == old(self).lastfm_busy)
                    &&& (old(self).pending_token().len() > 0 && old(self).lastfm_busy ==> r
                        == ActionStep::Nothing && final(self).status_text == old(self).status_text
                        && final(self).status_kind == old(self).status_kind && final(self).lastfm_busy)
                    &&& (old(self).pending_token().len() > 0 && !old(self).lastfm_busy ==> (r matches ActionStep::ExchangeLastFmToken(t)
                        && t@ == old(self).pending_token()) && final(self).lastfm_busy
                        && final(self).status_text == old(self).status_text && final(self).status_kind
                        == old(self).status_kind)
                    &&& final(self).pending_token() == old(self).pending_token()
                    &&& final(self).listenbrainz_busy == old(self).listenbrainz_busy
                },
                IntegrationAction::LastFmDisconnect => r == ActionStep::DisconnectLastFm && *final(self)
                    == *old(self),
                IntegrationAction::ListenBrainzDisconnect => r == ActionStep::DisconnectListenBrainz
                    && *final(self) == *old(self),
                IntegrationAction::Unknown => r == ActionStep::Nothing && *final(self) == *old(self),
            },
    {
        match integration_action(action) {
            IntegrationAction::ClearListenHistory => ActionStep::ClearListenHistory,
            IntegrationAction::LastFmConnect => {
                if self.begin_lastfm_connect() {
                    ActionStep::RequestLastFmToken
                } else {
                    ActionStep::Nothing
                }
            },
            IntegrationAction::LastFmOpenAuthUrl => match self.lastfm_auth_url_to_open() {
                Some(u) => ActionStep::OpenUrl(u),
                None => ActionStep::Nothing,
            },
            IntegrationAction::LastFmFinish => match self.begin_lastfm_finish(missing_status) {
                Some(t) => ActionStep::ExchangeLastFmToken(t),
                None => ActionStep::Nothing,
            },
            IntegrationAction::LastFmDisconnect => ActionStep::DisconnectLastFm,
            IntegrationAction::ListenBrainzDisconnect => ActionStep::DisconnectListenBrainz,
            IntegrationAction::Unknown => ActionStep::Nothing,
        }
    }
}

/// How a ListenBrainz validation request was admitted.
#[derive(Debug, Clone, Copy, PartialEq, Eq, Structural)]
pub enum ListenBrainzValidationStart {
    Started,
    Busy,
    MissingToken,
}

/// Acquire the validation slot and publish its first UI state at once. A
/// request in flight wins over anything submitted meanwhile, an empty token
/// included.
pub fn begin_listenbrainz_validation(
    ui: &mut IntegrationUi,
    has_token: bool,
    validating_status: String,
    missing_status: String,
) -> (r: ListenBrainzValidationStart)
    ensures
        old(ui).listenbrainz_busy ==> r == ListenBrainzValidationStart::Busy && *final(ui) == *old(ui),
        !old(ui).listenbrainz_busy && !has_token ==> {
            &&& r == ListenBrainzValidationStart::MissingToken
            &&& !final(ui).listenbrainz_busy
            &&& final(ui).status_text == missing_status
            &&& final(ui).status_kind == 3
        },
        !old(ui).listenbrainz_busy && has_token ==> {
            &&& r == ListenBrainzValidationStart::Started
            &&& final(ui).listenbrainz_busy
            &&& final(ui).status_text == validating_status
            &&& final(ui).status_kind == 1
        },
        final(ui).lastfm_busy == old(ui).lastfm_busy,
        final(ui).lastfm_auth_url == old(ui).lastfm_auth_url,
        final(ui).pending_token() == old(ui).pending_token(),
{
    if ui.listenbrainz_busy {
        return ListenBrainzValidationStart::Busy;
    }
    if !has_token {
        ui.status_text = missing_status;
        ui.status_kind = 3;
        return ListenBrainzValidationStart::MissingToken;
    }
    ui.listenbrainz_busy = true;
    ui.status_text = validating_status;
    ui.status_kind = 1;
    ListenBrainzValidationStart::Started
}

/// Release the validation slot with the request's outcome.
pub fn finish_listenbrainz_validation(ui: &mut IntegrationUi, status: String, kind: i32)
    ensures
        !final(ui).listenbrainz_busy,
        final(ui).status_text == status,
        final(ui).status_kind == kind,
        final(ui).lastfm_busy == old(ui).lastfm_busy,
        final(ui).lastfm_auth_url == old(ui).lastfm_auth_url,
        final(ui).pending_token() == old(ui).pending_token(),
{
    ui.listenbrainz_busy = false;
    ui.status_text = status;
    ui.status_kind = kind;
}

// ---------------------------------------------------------------------------
// The scrobble policy
// ---------------------------------------------------------------------------

/// The offline engine's mode.
#[derive(Debug, Clone, Copy, PartialEq, Eq, Structural)]
pub enum OfflineMode {
    Online,
    /// Offline by the user's choice.
    InducedOffline,
    /// Offline because the network (or the Qobuz session) is gone.
    RealOffline,
}

/// Whether the network answers.
#[derive(Debug, Clone, Copy, PartialEq, Eq, Structural)]
pub enum Connectivity {
    Up,
    Down,
}

/// The offline engine's status snapshot.
#[derive(Debug, Clone, Copy, PartialEq, Eq)]
pub struct OfflineStatus {
    pub mode: OfflineMode,
    pub connectivity: Connectivity,
    pub captive_portal: bool,
    pub induced: bool,
    pub offline_session: bool,
}

/// The offline preferences that bear on scrobbling.
#[derive(Debug, Clone, Copy, PartialEq, Eq)]
pub struct OfflineModeSettings {
    /// Send scrobbles over a working network even in manual offline mode.
    pub allow_immediate_scrobbling: bool,
    /// Keep scrobbles that cannot be sent, for a later flush.
    pub allow_accumulated_scrobbling: bool,
}

impl Default for OfflineModeSettings {
    fn default() -> (s: Self)
        ensures
            !s.allow_immediate_scrobbling,
            s.allow_accumulated_scrobbling,
    {
        OfflineModeSettings { allow_immediate_scrobbling: false, allow_accumulated_scrobbling: true }
    }
}

/// What happens to a scrobble.
#[derive(Debug, Clone, Copy, PartialEq, Eq, Structural)]
pub enum ScrobbleAction {
    SendNow,
    Queue,
    Drop,
}

/// The decision for one scrobble, plus whether a failed live send is kept.
#[derive(Debug, Clone, Copy, PartialEq, Eq, Structural)]
pub struct ScrobblePolicy {
    pub action: ScrobbleAction,
    pub queue_on_failure: bool,
}

/// The policy: the logged-out privacy gate first, then the transport rules
/// of each offline mode.
pub open spec fn spec_scrobble_policy(
    status: OfflineStatus,
    offline: OfflineModeSettings,
    qobuz_authenticated: bool,
    allow_logged_out: bool,
) -> ScrobblePolicy {
    let queue_on_failure = offline.allow_accumulated_scrobbling;
    let held = if queue_on_failure { ScrobbleAction::Queue } else { ScrobbleAction::Drop };
    if !qobuz_authenticated && !allow_logged_out {
        ScrobblePolicy { action: ScrobbleAction::Drop, queue_on_failure: false }
    } else {
        let action = match status.mode {
            OfflineMode::Online => ScrobbleAction::SendNow,
            OfflineMode::InducedOffline => if status.connectivity != Connectivity::Down
                && offline.allow_immediate_scrobbling {
                ScrobbleAction::SendNow
            } else {
                held
            },
            OfflineMode::RealOffline => if !qobuz_authenticated && status.connectivity
                != Connectivity::Down {
                ScrobbleAction::SendNow
            } else {
                held
            },
        };
        ScrobblePolicy { action, queue_on_failure }
    }
}

pub fn decide_scrobble_policy(
    status: OfflineStatus,
    offline: OfflineModeSettings,
    qobuz_authenticated: bool,
    allow_logged_out: bool,
) -> (p: ScrobblePolicy)
    ensures
        p == spec_scrobble_policy(status, offline, qobuz_authenticated, allow_logged_out),
{
    let queue_on_failure = offline.allow_accumulated_scrobbling;
    let queued_or_dropped = if queue_on_failure {
        ScrobbleAction::Queue
    } else {
        ScrobbleAction::Drop
    };
    if !qobuz_authenticated && !allow_logged_out {
        return ScrobblePolicy { action: ScrobbleAction::Drop, queue_on_failure: false };
    }
    let action = match status.mode {
        OfflineMode::Online => ScrobbleAction::SendNow,
        OfflineMode::InducedOffline => {
            if status.connectivity != Connectivity::Down && offline.allow_immediate_scrobbling {
                ScrobbleAction::SendNow
            } else {
                queued_or_dropped
            }
        },
        OfflineMode::RealOffline => {
            if !qobuz_authenticated && status.connectivity != Connectivity::Down {
                ScrobbleAction::SendNow
            } else {
                queued_or_dropped
            }
        },
    };
    ScrobblePolicy { action, queue_on_failure }
}

/// The logged-out opt-out always wins: with no Qobuz session and the
/// opt-out on, nothing is sent and nothing is kept, whatever the network.
pub proof fn lemma_logged_out_opt_out_drops(status: OfflineStatus, offline: OfflineModeSettings)
    ensures
        spec_scrobble_policy(status, offline, false, false) == (ScrobblePolicy {
            action: ScrobbleAction::Drop,
            queue_on_failure: false,
        }),
{
}

/// A scrobble is only ever queued when accumulation is on, and a failed live
/// send is only ever kept when accumulation is on.
pub proof fn lemma_queue_needs_accumulation(
    status: OfflineStatus,
    offline: OfflineModeSettings,
    qobuz_authenticated: bool,
    allow_logged_out: bool,
)
    ensures
        spec_scrobble_policy(status, offline, qobuz_authenticated, allow_logged_out).action
            == ScrobbleAction::Queue ==> offline.allow_accumulated_scrobbling,
        spec_scrobble_policy(status, offline, qobuz_authenticated, allow_logged_out).queue_on_failure
            ==> offline.allow_accumulated_scrobbling,
{
}

/// With no connectivity, an authenticated session never sends live.
pub proof fn lemma_no_live_send_without_network(
    status: OfflineStatus,
    offline: OfflineModeSettings,
    allow_logged_out: bool,
)
    requires
        status.connectivity == Connectivity::Down,
        status.mode != OfflineMode::Online,
    ensures
        spec_scrobble_policy(status, offline, true, allow_logged_out).action != ScrobbleAction::SendNow,
        spec_scrobble_policy(status, offline, false, allow_logged_out).action != ScrobbleAction::SendNow,
{
}

/// A queued continuation still applies: the track it was derived from is the
/// one observed, and no track edge happened since (`None` means the task
/// read its own input and carries no expectation).
pub fn integration_snapshot_matches(
    expected_track_id: Option<u64>,
    expected_generation: Option<u64>,
    observed_track_id: u64,
    observed_generation: u64,
) -> (b: bool)
    ensures
        b == ((expected_track_id is None || expected_track_id == Some(observed_track_id)) && (
        expected_generation is None || expected_generation == Some(observed_generation))),
{
    let track_ok = match expected_track_id {
        Some(expected) => expected == observed_track_id,
        None => true,
    };
    let generation_ok = match expected_generation {
        Some(expected) => expected == observed_generation,
        None => true,
    };
    track_ok && generation_ok
}

/// The spec form of `integration_snapshot_matches`.
pub open spec fn snapshot_matches(
    expected_track_id: Option<u64>,
    expected_generation: Option<u64>,
    observed_track_id: u64,
    observed_generation: u64,
) -> bool {
    (expected_track_id is None || expected_track_id == Some(observed_track_id)) && (
    expected_generation is None || expected_generation == Some(observed_generation))
}

/// A continuation derived before a track edge never applies after it, even
/// when the same track comes back (A -> B -> A).
pub proof fn lemma_edge_invalidates_snapshot(track_id: u64, generation: u64, observed_track_id: u64)
    ensures
        !snapshot_matches(Some(track_id), Some(generation), observed_track_id, wrap_next(generation)),
{
}

// ---------------------------------------------------------------------------
// The delayed scrobble
// ---------------------------------------------------------------------------

/// One sample of the player while a delayed scrobble waits.
#[derive(Debug, Clone, Copy, PartialEq, Eq, Structural)]
pub enum ScrobbleTick {
    /// The owner's track changed or a newer edge happened: drop the scrobble.
    Abandon,
    /// Still below the threshold, or paused: keep waiting.
    Wait,
    /// The track played up to the threshold: scrobble now.
    Fire,
}

pub open spec fn spec_scrobble_tick(
    expected_track_id: u64,
    expected_generation: u64,
    observed_track_id: u64,
    observed_generation: u64,
    is_playing: bool,
    position_secs: u64,
    wait_secs: u64,
) -> ScrobbleTick {
    if !snapshot_matches(
        Some(expected_track_id),
        Some(expected_generation),
        observed_track_id,
        observed_generation,
    ) {
        ScrobbleTick::Abandon
    } else if is_playing && position_secs >= wait_secs {
        ScrobbleTick::Fire
    } else {
        ScrobbleTick::Wait
    }
}

/// The wait is timed by the player's own position while it plays: a pause
/// holds the scrobble, a track change drops it.
pub fn scrobble_tick(
    expected_track_id: u64,
    expected_generation: u64,
    observed_track_id: u64,
    observed_generation: u64,
    is_playing: bool,
    position_secs: u64,
    wait_secs: u64,
) -> (t: ScrobbleTick)
    ensures
        t == spec_scrobble_tick(
            expected_track_id,
            expected_generation,
            observed_track_id,
            observed_generation,
            is_playing,
            position_secs,
            wait_secs,
        ),
{
    if !integration_snapshot_matches(
        Some(expected_track_id),
        Some(expected_generation),
        observed_track_id,
        observed_generation,
    ) {
        ScrobbleTick::Abandon
    } else if is_playing && position_secs >= wait_secs {
        ScrobbleTick::Fire
    } else {
        ScrobbleTick::Wait
    }
}

/// A paused player never fires a scrobble.
pub proof fn lemma_pause_holds_scrobble(
    expected_track_id: u64,
    expected_generation: u64,
    observed_track_id: u64,
    observed_generation: u64,
    position_secs: u64,
    wait_secs: u64,
)
    ensures
        spec_scrobble_tick(
            expected_track_id,
            expected_generation,
            observed_track_id,
            observed_generation,
            false,
            position_secs,
            wait_secs,
        ) != ScrobbleTick::Fire,
{
}

// ---------------------------------------------------------------------------
// Fire metadata
// ---------------------------------------------------------------------------

/// The queue track facts the fire path reads.
#[derive(Clone, Debug, PartialEq, Eq)]
pub struct TrackFacts {
    pub title: String,
    pub version: Option<String>,
    pub artist: String,
    pub album: String,
    pub duration_secs: u64,
}

/// Normalized track facts for a scrobble: the version-enriched display title
/// and the clean album name.
#[derive(Clone, Debug, PartialEq, Eq)]
pub struct ScrobbleMeta {
    pub artist: String,
    pub track: String,
    /// `None` when the album name is empty.
    pub album: Option<String>,
    pub duration_secs: u64,
}

/// The display title: `title (version)` when a non-empty version exists.
pub open spec fn display_title(title: Seq<char>, version: Option<Seq<char>>) -> Seq<char> {
    match version {
        Some(v) => if v.len() > 0 {
            title + " ("@ + v + ")"@
        } else {
            title
        },
        None => title,
    }
}

pub open spec fn version_view(v: Option<String>) -> Option<Seq<char>> {
    match v {
        Some(s) => Some(s@),
        None => None,
    }
}

/// The title a track is scrobbled and presented under.
pub fn track_display_title(title: &String, version: &Option<String>) -> (r: String)
    ensures
        r@ == display_title(title@, version_view(*version)),
{
    match version {
        Some(v) => {
            let vc = chars_of(v.as_str());
            if vc.len() > 0 {
                let mut out = title.clone();
                out.append(" (");
                out.append(v.as_str());
                out.append(")");
                proof {
                    reveal_strlit(" (");
                    reveal_strlit(")");
                }
                out
            } else {
                title.clone()
            }
        },
        None => title.clone(),
    }
}

/// What a scrobble says of a track: its artist, its title with the version
/// it names, its album and its duration.
pub fn meta_from_track(track: &TrackFacts) -> (m: ScrobbleMeta)
    ensures
        m.artist@ == track.artist@,
        m.track@ == display_title(track.title@, version_view(track.version)),
        track.album@.len() == 0 ==> m.album is None,
        track.album@.len() > 0 ==> m.album is Some && m.album->0@ == track.album@,
        m.duration_secs == track.duration_secs,
{
    let album_chars = chars_of(track.album.as_str());
    let album = if album_chars.len() > 0 {
        Some(track.album.clone())
    } else {
        None
    };
    ScrobbleMeta {
        artist: track.artist.clone(),
        track: track_display_title(&track.title, &track.version),
        album,
        duration_secs: track.duration_secs,
    }
}

/// The ListenBrainz duration extra, in milliseconds; absent for an unknown
/// (zero) duration.
pub fn lb_duration_ms(duration_secs: u64) -> (r: Option<u64>)
    requires
        duration_secs * 1000 <= u64::MAX,
    ensures
        duration_secs == 0 ==> r is None,
        duration_secs > 0 ==> r == Some((duration_secs * 1000) as u64),
{
    if duration_secs > 0 {
        Some(duration_secs * 1000)
    } else {
        None
    }
}

// ---------------------------------------------------------------------------
// Scrobbler settings and the integrations controller
// ---------------------------------------------------------------------------

/// The per-user scrobbler settings.
#[derive(Clone, Debug, PartialEq, Eq)]
pub struct ScrobblerSettings {
    /// The scrobbling master switch.
    pub enabled: bool,
    pub ui_collapsed: bool,
    pub allow_logged_out_scrobbling: bool,
    pub lastfm_enabled: bool,
    pub lastfm_session_key: String,
    pub lastfm_username: String,
    pub listenbrainz_enabled: bool,
    pub listenbrainz_token: String,
    pub listenbrainz_username: String,
}

impl ScrobblerSettings {
    pub open spec fn spec_lastfm_active(&self) -> bool {
        self.enabled && self.lastfm_enabled && self.lastfm_session_key@.len() > 0
    }

    pub open spec fn spec_listenbrainz_active(&self) -> bool {
        self.enabled && self.listenbrainz_enabled && self.listenbrainz_token@.len() > 0
    }

    /// Last.fm fires only with the master switch, its own switch and a
    /// session.
    pub fn lastfm_active(&self) -> (r: bool)
        ensures
            r == self.spec_lastfm_active(),
    {
        self.enabled && self.lastfm_enabled && chars_of(self.lastfm_session_key.as_str()).len() > 0
    }

    /// ListenBrainz fires only with the master switch, its own switch and a
    /// token.
    pub fn listenbrainz_active(&self) -> (r: bool)
        ensures
            r == self.spec_listenbrainz_active(),
    {
        self.enabled && self.listenbrainz_enabled && chars_of(self.listenbrainz_token.as_str()).len()
            > 0
    }
}

impl Default for ScrobblerSettings {
    fn default() -> (s: Self)
        ensures
            !s.enabled,
            !s.ui_collapsed,
            !s.allow_logged_out_scrobbling,
            !s.lastfm_enabled,
            s.lastfm_session_key@.len() == 0,
            s.lastfm_username@.len() == 0,
            !s.listenbrainz_enabled,
            s.listenbrainz_token@.len() == 0,
            s.listenbrainz_username@.len() == 0,
    {
        ScrobblerSettings {
            enabled: false,
            ui_collapsed: false,
            allow_logged_out_scrobbling: false,
            lastfm_enabled: false,
            lastfm_session_key: String::new(),
            lastfm_username: String::new(),
            listenbrainz_enabled: false,
            listenbrainz_token: String::new(),
            listenbrainz_username: String::new(),
        }
    }
}

/// The discover preferences of the bound Qobuz profile.
#[derive(Clone, Copy, Debug, PartialEq, Eq)]
pub struct DiscoverPrefs {
    pub show_recommendations: bool,
}

/// The integrations controller: the scrobbler binding (which survives a
/// logout), the Qobuz-profile binding of the discover preferences, the
/// playback integration generation and the pending flush request.
pub struct Integrations {
    pub settings: ScrobblerSettings,
    pub scrobble_dir: Option<String>,
    pub qobuz_authenticated: bool,
    /// Bumped on every track edge and on a rebind to another profile, so that
    /// a delayed continuation armed before never applies after.
    pub generation: u64,
    pub discover: Option<DiscoverPrefs>,
    /// A flush of the offline scrobble queues was requested.
    pub flush_requested: bool,
    pub ui: IntegrationUi,
}

pub open spec fn dir_view(d: Option<String>) -> Option<Seq<char>> {
    match d {
        Some(s) => Some(s@),
        None => None,
    }
}

/// The fields a preference toggle leaves alone.
pub open spec fn same_bindings(a: &Integrations, b: &Integrations) -> bool {
    &&& dir_view(a.scrobble_dir) == dir_view(b.scrobble_dir)
    &&& a.qobuz_authenticated == b.qobuz_authenticated
    &&& a.generation == b.generation
    &&& a.discover == b.discover
}

impl Integrations {
    pub fn new() -> (s: Integrations)
        ensures
            !s.settings.enabled,
            !s.settings.allow_logged_out_scrobbling,
            !s.settings.lastfm_enabled,
            !s.settings.listenbrainz_enabled,
            s.settings.lastfm_session_key@.len() == 0,
            s.settings.listenbrainz_token@.len() == 0,
            !s.settings.ui_collapsed,
            s.settings.lastfm_username@.len() == 0,
            s.settings.listenbrainz_username@.len() == 0,
            s.scrobble_dir is None,
            !s.qobuz_authenticated,
            s.generation == 0,
            s.discover is None,
            !s.flush_requested,
            !s.ui.lastfm_busy,
            !s.ui.listenbrainz_busy,
            s.ui.lastfm_auth_url@.len() == 0,
            s.ui.status_text@.len() == 0,
            s.ui.status_kind == 0,
            s.ui.pending_token().len() == 0,
    {
        Integrations {
            settings: ScrobblerSettings::default(),
            scrobble_dir: None,
            qobuz_authenticated: false,
            generation: 0,
            discover: None,
            flush_requested: false,
            ui: IntegrationUi::default(),
        }
    }

    /// Bind the scrobbler credentials and the discover preferences to the
    /// active Qobuz profile. When the scrobbler store opened,
    /// its settings are adopted, and a bind to another profile starts a new
    /// generation; re-entering the same profile keeps it. The discover binding
    /// is replaced in every case (`None` when its store did not open).
    pub fn init_for_user(
        &mut self,
        base_dir: String,
        scrobbler_store: Result<ScrobblerSettings, String>,
        discover: Option<DiscoverPrefs>,
    )
        ensures
            final(self).discover == discover,
            final(self).qobuz_authenticated == old(self).qobuz_authenticated,
            final(self).flush_requested == old(self).flush_requested,
            match scrobbler_store {
                Ok(settings) => {
                    &&& final(self).settings == settings
                    &&& dir_view(final(self).scrobble_dir) == Some(base_dir@)
                    &&& final(self).generation == if dir_view(old(self).scrobble_dir) == Some(
                        base_dir@,
                    ) {
                        old(self).generation
                    } else {
                        wrap_next(old(self).generation)
                    }
                },
                Err(_) => {
                    &&& final(self).settings == old(self).settings
                    &&& dir_view(final(self).scrobble_dir) == dir_view(old(self).scrobble_dir)
                    &&& final(self).generation == old(self).generation
                },
            },
    {
        match scrobbler_store {
            Ok(settings) => {
                let changed = match &self.scrobble_dir {
                    Some(dir) => *dir != base_dir,
                    None => true,
                };
                self.scrobble_dir = Some(base_dir);
                self.settings = settings;
                if changed {
                    self.generation = wrapping_next(self.generation);
                }
            },
            Err(_) => {},
        }
        self.discover = discover;
    }

    /// Drop only the Qobuz-profile binding; the scrobbler credentials stay.
    pub fn unbind_qobuz_user(&mut self)
        ensures
            final(self).discover is None,
            final(self).settings == old(self).settings,
            dir_view(final(self).scrobble_dir) == dir_view(old(self).scrobble_dir),
            final(self).qobuz_authenticated == old(self).qobuz_authenticated,
            final(self).generation == old(self).generation,
            final(self).flush_requested == old(self).flush_requested,
    {
        self.discover = None;
    }

    /// Record the Qobuz session state; a change requests a queue flush.
    pub fn set_qobuz_authenticated(&mut self, authenticated: bool)
        ensures
            final(self).qobuz_authenticated == authenticated,
            final(self).flush_requested == (old(self).flush_requested || old(
                self,
            ).qobuz_authenticated != authenticated),
            final(self).settings == old(self).settings,
            final(self).discover == old(self).discover,
            final(self).generation == old(self).generation,
    {
        if self.qobuz_authenticated != authenticated {
            self.flush_requested = true;
        }
        self.qobuz_authenticated = authenticated;
    }

    /// The importer prefill: both user names, and the ListenBrainz token when
    /// it holds more than white space.
    pub fn scrobbler_handles(&self) -> (r: (String, String, Option<String>))
        ensures
            r.0@ == self.settings.lastfm_username@,
            r.1@ == self.settings.listenbrainz_username@,
            trim(self.settings.listenbrainz_token@).len() == 0 ==> r.2 is None,
            trim(self.settings.listenbrainz_token@).len() > 0 ==> r.2 is Some && r.2->0@
                == self.settings.listenbrainz_token@,
    {
        let t = trimmed_chars(self.settings.listenbrainz_token.as_str());
        let token = if t.len() > 0 {
            Some(self.settings.listenbrainz_token.clone())
        } else {
            None
        };
        (self.settings.lastfm_username.clone(), self.settings.listenbrainz_username.clone(), token)
    }

    /// The Recommendations switch of the bound profile; unbound, the safe
    /// default is on.
    pub fn show_recommendations(&self) -> (r: bool)
        ensures
            r == match self.discover {
                Some(p) => p.show_recommendations,
                None => true,
            },
    {
        match self.discover {
            Some(p) => p.show_recommendations,
            None => true,
        }
    }

    /// Store the Recommendations switch. Without a bound profile this fails;
    /// otherwise the store's answer is returned, and the value taken only when
    /// it was saved.
    pub fn set_show_recommendations(&mut self, value: bool, saved: Result<(), String>) -> (r: Result<
        (),
        String,
    >)
        ensures
            old(self).discover is None ==> r is Err && r->Err_0@ == "discover prefs store not open"@
                && final(self).discover is None,
            old(self).discover is Some ==> r == saved && final(self).discover == if saved is Ok {
                Some(DiscoverPrefs { show_recommendations: value })
            } else {
                old(self).discover
            },
            final(self).settings == old(self).settings,
            final(self).generation == old(self).generation,
            final(self).flush_requested == old(self).flush_requested,
    {
        if self.discover.is_none() {
            return Err("discover prefs store not open".to_string());
        }
        if saved.is_ok() {
            self.discover = Some(DiscoverPrefs { show_recommendations: value });
        }
        saved
    }

    /// The scrobbling master switch. Taken when saved; switching it on
    /// requests a flush of the offline queues.
    pub fn set_scrobble_enabled(&mut self, value: bool, saved: Result<(), String>) -> (r: Result<
        (),
        String,
    >)
        ensures
            r == saved,
            final(self).settings.enabled == if saved is Ok {
                value
            } else {
                old(self).settings.enabled
            },
            final(self).flush_requested == (old(self).flush_requested || (saved is Ok && value)),
            final(self).settings.lastfm_enabled == old(self).settings.lastfm_enabled,
            final(self).settings.listenbrainz_enabled == old(self).settings.listenbrainz_enabled,
            final(self).settings.allow_logged_out_scrobbling == old(
                self,
            ).settings.allow_logged_out_scrobbling,
            same_bindings(final(self), old(self)),
    {
        if saved.is_ok() {
            self.settings.enabled = value;
            if value {
                self.flush_requested = true;
            }
        }
        saved
    }

    /// The collapsed state of the scrobblers block; never requests a flush.
    pub fn set_scrobble_collapsed(&mut self, value: bool, saved: Result<(), String>) -> (r: Result<
        (),
        String,
    >)
        ensures
            r == saved,
            final(self).settings.ui_collapsed == if saved is Ok {
                value
            } else {
                old(self).settings.ui_collapsed
            },
            final(self).flush_requested == old(self).flush_requested,
            final(self).settings.enabled == old(self).settings.enabled,
            same_bindings(final(self), old(self)),
    {
        if saved.is_ok() {
            self.settings.ui_collapsed = value;
        }
        saved
    }

    /// Scrobbling without a Qobuz session. Switching it on requests a flush.
    pub fn set_logged_out_scrobbling(&mut self, value: bool, saved: Result<(), String>) -> (r: Result<
        (),
        String,
    >)
        ensures
            r == saved,
            final(self).settings.allow_logged_out_scrobbling == if saved is Ok {
                value
            } else {
                old(self).settings.allow_logged_out_scrobbling
            },
            final(self).flush_requested == (old(self).flush_requested || (saved is Ok && value)),
            final(self).settings.enabled == old(self).settings.enabled,
            same_bindings(final(self), old(self)),
    {
        if saved.is_ok() {
            self.settings.allow_logged_out_scrobbling = value;
            if value {
                self.flush_requested = true;
            }
        }
        saved
    }

    /// The Last.fm switch. Switching it on requests a flush.
    pub fn set_lastfm_enabled(&mut self, value: bool, saved: Result<(), String>) -> (r: Result<
        (),
        String,
    >)
        ensures
            r == saved,
            final(self).settings.lastfm_enabled == if saved is Ok {
                value
            } else {
                old(self).settings.lastfm_enabled
            },
            final(self).flush_requested == (old(self).flush_requested || (saved is Ok && value)),
            final(self).settings.enabled == old(self).settings.enabled,
            final(self).settings.listenbrainz_enabled == old(self).settings.listenbrainz_enabled,
            same_bindings(final(self), old(self)),
    {
        if saved.is_ok() {
            self.settings.lastfm_enabled = value;
            if value {
                self.flush_requested = true;
            }
        }
        saved
    }

    /// The ListenBrainz switch. Switching it on requests a flush.
    pub fn set_listenbrainz_enabled(&mut self, value: bool, saved: Result<(), String>) -> (r: Result<
        (),
        String,
    >)
        ensures
            r == saved,
            final(self).settings.listenbrainz_enabled == if saved is Ok {
                value
            } else {
                old(self).settings.listenbrainz_enabled
            },
            final(self).flush_requested == (old(self).flush_requested || (saved is Ok && value)),
            final(self).settings.enabled == old(self).settings.enabled,
            final(self).settings.lastfm_enabled == old(self).settings.lastfm_enabled,
            same_bindings(final(self), old(self)),
    {
        if saved.is_ok() {
            self.settings.listenbrainz_enabled = value;
            if value {
                self.flush_requested = true;
            }
        }
        saved
    }

    /// A Last.fm session arrived: it is
    /// kept when the store saved it, and a flush is requested. The result
    /// says whether Last.fm is off and is to be switched on: a first
    /// connection enables it.
    pub fn lastfm_session_stored(&mut self, key: String, name: String, saved: Result<(), String>) -> (enable: bool)
        ensures
            saved is Ok ==> final(self).settings.lastfm_session_key@ == key@
                && final(self).settings.lastfm_username@ == name@,
            saved is Err ==> final(self).settings.lastfm_session_key@ == old(
                self,
            ).settings.lastfm_session_key@ && final(self).settings.lastfm_username@ == old(
                self,
            ).settings.lastfm_username@,
            enable == !old(self).settings.lastfm_enabled,
            final(self).flush_requested,
            final(self).settings.enabled == old(self).settings.enabled,
            final(self).settings.lastfm_enabled == old(self).settings.lastfm_enabled,
            final(self).settings.listenbrainz_enabled == old(self).settings.listenbrainz_enabled,
            final(self).settings.listenbrainz_token@ == old(self).settings.listenbrainz_token@,
            same_bindings(final(self), old(self)),
    {
        if saved.is_ok() {
            self.settings.lastfm_session_key = key;
            self.settings.lastfm_username = name;
        }
        self.flush_requested = true;
        !self.settings.lastfm_enabled
    }

    /// A ListenBrainz token was validated: it is
    /// kept with the user name when the store saved it, and a flush is
    /// requested. The result says whether ListenBrainz is off and is to be
    /// switched on: a first connection enables it.
    pub fn listenbrainz_token_stored(&mut self, token: String, name: String, saved: Result<(), String>) -> (enable: bool)
        ensures
            saved is Ok ==> final(self).settings.listenbrainz_token@ == token@
                && final(self).settings.listenbrainz_username@ == name@,
            saved is Err ==> final(self).settings.listenbrainz_token@ == old(
                self,
            ).settings.listenbrainz_token@ && final(self).settings.listenbrainz_username@ == old(
                self,
            ).settings.listenbrainz_username@,
            enable == !old(self).settings.listenbrainz_enabled,
            final(self).flush_requested,
            final(self).settings.enabled == old(self).settings.enabled,
            final(self).settings.lastfm_enabled == old(self).settings.lastfm_enabled,
            final(self).settings.listenbrainz_enabled == old(self).settings.listenbrainz_enabled,
            final(self).settings.lastfm_session_key@ == old(self).settings.lastfm_session_key@,
            same_bindings(final(self), old(self)),
    {
        if saved.is_ok() {
            self.settings.listenbrainz_token = token;
            self.settings.listenbrainz_username = name;
        }
        self.flush_requested = true;
        !self.settings.listenbrainz_enabled
    }

    /// The offline policy changed: queued listens may now be deliverable.
    pub fn scrobble_policy_changed(&mut self)
        ensures
            final(self).flush_requested,
            final(self).settings == old(self).settings,
            same_bindings(final(self), old(self)),
    {
        self.flush_requested = true;
    }

    /// Hand the pending flush request to the caller, clearing it.
    pub fn take_flush_request(&mut self) -> (r: bool)
        ensures
            r == old(self).flush_requested,
            !final(self).flush_requested,
            final(self).settings == old(self).settings,
            same_bindings(final(self), old(self)),
    {
        let r = self.flush_requested;
        self.flush_requested = false;
        r
    }

    /// A playback track edge, or the owner's tasks being cancelled: a new
    /// generation supersedes every continuation armed before. Returns it.
    pub fn track_change_edge(&mut self) -> (g: u64)
        ensures
            g == wrap_next(old(self).generation),
            final(self).generation == g,
            final(self).settings == old(self).settings,
            final(self).discover == old(self).discover,
            final(self).flush_requested == old(self).flush_requested,
    {
        self.generation = wrapping_next(self.generation);
        self.generation
    }

    /// At least one scrobbler is live.
    pub fn scrobblers_live(&self) -> (r: bool)
        ensures
            r == (self.settings.spec_lastfm_active() || self.settings.spec_listenbrainz_active()),
    {
        self.settings.lastfm_active() || self.settings.listenbrainz_active()
    }

    /// A flush may send now: a scrobbler is live and the policy says send.
    pub fn can_send_now(&self, policy: ScrobblePolicy) -> (r: bool)
        ensures
            r == ((self.settings.spec_lastfm_active() || self.settings.spec_listenbrainz_active())
                && policy.action == ScrobbleAction::SendNow),
    {
        self.scrobblers_live() && policy.action == ScrobbleAction::SendNow
    }
}

// ---------------------------------------------------------------------------
// Sending a scrobble, and draining the offline queues
// ---------------------------------------------------------------------------

/// What to do for one scrobbling service when a scrobble is due.
#[derive(Debug, Clone, Copy, PartialEq, Eq, Structural)]
pub enum ServiceStep {
    /// The service is not live, or the policy drops the scrobble.
    Nothing,
    /// Send it now; a failure is queued when the flag says so, else dropped.
    Send(bool),
    /// Keep it in the service's offline queue.
    Queue,
}

/// The step for one service: nothing unless the service
/// is live; then the policy decides.
pub fn service_step(active: bool, policy: ScrobblePolicy) -> (r: ServiceStep)
    ensures
        !active ==> r == ServiceStep::Nothing,
        active && policy.action == ScrobbleAction::SendNow ==> r == ServiceStep::Send(
            policy.queue_on_failure,
        ),
        active && policy.action == ScrobbleAction::Queue ==> r == ServiceStep::Queue,
        active && policy.action == ScrobbleAction::Drop ==> r == ServiceStep::Nothing,
{
    if !active {
        return ServiceStep::Nothing;
    }
    match policy.action {
        ScrobbleAction::SendNow => ServiceStep::Send(policy.queue_on_failure),
        ScrobbleAction::Queue => ServiceStep::Queue,
        ScrobbleAction::Drop => ServiceStep::Nothing,
    }
}

/// Last.fm takes at most this many queued scrobbles per flush.
pub const LASTFM_FLUSH_BATCH: usize = 50;

/// ListenBrainz takes at most this many queued listens per flush.
pub const LISTENBRAINZ_FLUSH_BATCH: usize = 500;

/// Last.fm rejects scrobbles older than fourteen days, in seconds.
pub const LASTFM_MAX_AGE_SECS: i64 = 1209600;

/// A queued scrobble: its queue id and the time the track started.
#[derive(Debug, Clone, Copy, PartialEq, Eq, Structural)]
pub struct QueuedScrobble {
    pub id: i64,
    pub timestamp: i64,
}

/// A flush of an offline queue, oldest first: the items, how far it got, the ids marked
/// sent so far, whether a send failed, and the start time before which an
/// item is too old to send.
pub struct QueueFlush {
    pub items: Vec<QueuedScrobble>,
    pub next: usize,
    pub sent_ids: Vec<i64>,
    pub stopped: bool,
    pub cutoff: Option<i64>,
}

pub open spec fn ids_of(s: Seq<QueuedScrobble>) -> Seq<i64> {
    s.map_values(|q: QueuedScrobble| q.id)
}

/// An item too old to send.
pub open spec fn too_old(cutoff: Option<i64>, q: QueuedScrobble) -> bool {
    match cutoff {
        Some(c) => q.timestamp < c,
        None => false,
    }
}

impl QueueFlush {
    /// Every item before `next` is marked sent, in order, and nothing else.
    pub open spec fn wf(&self) -> bool {
        &&& self.next <= self.items@.len()
        &&& self.sent_ids@ == ids_of(self.items@.take(self.next as int))
    }

    /// A Last.fm flush at unix time `now`: items that started more than
    /// fourteen days ago are marked sent without sending.
    pub fn lastfm(items: Vec<QueuedScrobble>, now: i64) -> (f: QueueFlush)
        requires
            now >= i64::MIN + LASTFM_MAX_AGE_SECS,
        ensures
            f.wf(),
            f.items@ == items@,
            f.next == 0,
            !f.stopped,
            f.cutoff == Some((now - LASTFM_MAX_AGE_SECS) as i64),
    {
        let f = QueueFlush {
            items,
            next: 0,
            sent_ids: Vec::new(),
            stopped: false,
            cutoff: Some(now - LASTFM_MAX_AGE_SECS),
        };
        assert(ids_of(f.items@.take(0)) =~= Seq::<i64>::empty());
        f
    }

    /// A ListenBrainz flush: no item is too old.
    pub fn listenbrainz(items: Vec<QueuedScrobble>) -> (f: QueueFlush)
        ensures
            f.wf(),
            f.items@ == items@,
            f.next == 0,
            !f.stopped,
            f.cutoff is None,
    {
        let f = QueueFlush { items, next: 0, sent_ids: Vec::new(), stopped: false, cutoff: None };
        assert(ids_of(f.items@.take(0)) =~= Seq::<i64>::empty());
        f
    }

    fn stale(&self, i: usize) -> (r: bool)
        requires
            i < self.items@.len(),
        ensures
            r == too_old(self.cutoff, self.items@[i as int]),
    {
        match self.cutoff {
            Some(c) => self.items[i].timestamp < c,
            None => false,
        }
    }

    /// The next item to send: items too old are passed over and marked
    /// sent on the way; none once a send failed or the queue is done.
    pub fn next_send(&mut self) -> (r: Option<usize>)
        requires
            old(self).wf(),
        ensures
            final(self).wf(),
            final(self).items@ == old(self).items@,
            final(self).stopped == old(self).stopped,
            final(self).cutoff == old(self).cutoff,
            old(self).stopped ==> r is None && final(self).next == old(self).next,
            !old(self).stopped ==> {
                &&& old(self).next <= final(self).next
                &&& forall|k: int|
                    old(self).next <= k < final(self).next ==> too_old(
                        old(self).cutoff,
                        #[trigger] old(self).items@[k],
                    )
                &&& match r {
                    Some(i) => i == final(self).next && i < final(self).items@.len() && !too_old(
                        final(self).cutoff,
                        final(self).items@[i as int],
                    ),
                    None => final(self).next == final(self).items@.len(),
                }
            },
    {
        if self.stopped {
            return None;
        }
        let ghost start = self.next;
        while self.next < self.items.len() && self.stale(self.next)
            invariant
                self.wf(),
                !self.stopped,
                start <= self.next <= self.items@.len(),
                self.items@ == old(self).items@,
                self.cutoff == old(self).cutoff,
                forall|k: int| start <= k < self.next ==> too_old(self.cutoff, #[trigger] self.items@[k]),
            decreases self.items@.len() - self.next,
        {
            let id = self.items[self.next].id;
            self.sent_ids.push(id);
            proof {
                assert(self.items@.take(self.next + 1) =~= self.items@.take(self.next as int).push(
                    self.items@[self.next as int],
                ));
                assert(ids_of(self.items@.take(self.next + 1)) =~= ids_of(
                    self.items@.take(self.next as int),
                ).push(id));
            }
            self.next = self.next + 1;
        }
        if self.next < self.items.len() {
            Some(self.next)
        } else {
            None
        }
    }

    /// The send of the item `next_send` gave came back: sent, it is marked
    /// and the flush goes on; failed, the flush stops there.
    pub fn record(&mut self, ok: bool)
        requires
            old(self).wf(),
            old(self).next < old(self).items@.len(),
            !old(self).stopped,
        ensures
            final(self).wf(),
            final(self).items@ == old(self).items@,
            final(self).cutoff == old(self).cutoff,
            ok ==> final(self).next == old(self).next + 1 && !final(self).stopped,
            !ok ==> final(self).next == old(self).next && final(self).stopped,
    {
        if ok {
            let n = self.items.len();
            assert(self.next < n);
            let id = self.items[self.next].id;
            self.sent_ids.push(id);
            proof {
                assert(self.items@.take(self.next + 1) =~= self.items@.take(self.next as int).push(
                    self.items@[self.next as int],
                ));
                assert(ids_of(self.items@.take(self.next + 1)) =~= ids_of(
                    self.items@.take(self.next as int),
                ).push(id));
            }
            self.next = self.next + 1;
        } else {
            self.stopped = true;
        }
    }
}

/// A flush marks sent exactly the items it got past, in queue order: what
/// a failed send stopped at, and everything after it, stays queued.
pub proof fn lemma_flush_marks_a_prefix(f: QueueFlush)
    requires
        f.wf(),
    ensures
        f.sent_ids@.len() == f.next,
        forall|k: int| 0 <= k < f.next ==> #[trigger] f.sent_ids@[k] == f.items@[k].id,
{
}

/// The token a ListenBrainz connect validates:
/// the pasted text without surrounding white space; an empty one is the
/// missing-token error.
pub fn listenbrainz_token_text(pasted: &str) -> (r: String)
    ensures
        r@ == trim(pasted@),
{
    crate::text::string_from_chars(&trimmed_chars(pasted))
}

/// Discord Rich Presence is opt-in: off unless stored on.
pub fn discord_enabled(stored: Option<bool>) -> (r: bool)
    ensures
        r == match stored {
            Some(b) => b,
            None => false,
        },
{
    match stored {
        Some(b) => b,
        None => false,
    }
}

} // verus!
