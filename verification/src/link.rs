use vstd::prelude::*;
use crate::text::{
    ascii_lower_seq, chars_of, chars_to_ascii_lower, contains_chars, contains_seq, lowercase,
    occurs_at, occurs_at_exec, starts_with_seq, string_from_chars, to_lowercase, trim, trimmed_chars,
};

verus! {

// ---------------------------------------------------------------------------
// Platform hint of a pasted link
// ---------------------------------------------------------------------------

/// The service a link points at, judged from its text alone: the URL is
/// trimmed and ASCII-lower-cased, then matched against each service's host
/// or scheme in a fixed order; "" when none matches.
pub open spec fn spec_platform(url: Seq<char>) -> Seq<char> {
    let l = ascii_lower_seq(trim(url));
    if contains_seq(l, "qobuz.com/"@) || starts_with_seq(l, "qobuzapp://"@) {
        "qobuz"@
    } else if contains_seq(l, "spotify.com/"@) || starts_with_seq(l, "spotify:"@) {
        "spotify"@
    } else if contains_seq(l, "music.apple.com/"@) {
        "apple"@
    } else if contains_seq(l, "tidal.com/"@) {
        "tidal"@
    } else if contains_seq(l, "deezer.com/"@) {
        "deezer"@
    } else if contains_seq(l, "song.link/"@) || contains_seq(l, "album.link/"@) || contains_seq(
        l,
        "odesli.co/"@,
    ) {
        "songlink"@
    } else {
        ""@
    }
}

fn has(hay: &Vec<char>, needle: &str) -> (r: bool)
    ensures
        r == contains_seq(hay@, needle@),
{
    let n = chars_of(needle);
    contains_chars(hay, &n)
}

fn begins(hay: &Vec<char>, prefix: &str) -> (r: bool)
    ensures
        r == starts_with_seq(hay@, prefix@),
{
    let n = chars_of(prefix);
    occurs_at_exec(hay, &n, 0)
}

/// Network-free platform hint for the link modal's leading glyph.
pub fn detect_platform(url: &str) -> (r: &'static str)
    ensures
        r@ == spec_platform(url@),
{
    let t = trimmed_chars(url);
    let l = chars_to_ascii_lower(&t);
    if has(&l, "qobuz.com/") || begins(&l, "qobuzapp://") {
        "qobuz"
    } else if has(&l, "spotify.com/") || begins(&l, "spotify:") {
        "spotify"
    } else if has(&l, "music.apple.com/") {
        "apple"
    } else if has(&l, "tidal.com/") {
        "tidal"
    } else if has(&l, "deezer.com/") {
        "deezer"
    } else if has(&l, "song.link/") || has(&l, "album.link/") || has(&l, "odesli.co/") {
        "songlink"
    } else {
        ""
    }
}

// ---------------------------------------------------------------------------
// The open-link modal
// ---------------------------------------------------------------------------

/// How a submitted link resolved.
pub enum ResolveOutcome {
    /// It names a Qobuz album, artist or playlist: the application navigates.
    Resolved,
    /// It is another service's playlist, which has no native route.
    PlaylistDetected(String),
    /// It resolved, but the content is not on Qobuz; the text says so.
    NotOnQobuz(String),
    /// Resolution failed; the text says so.
    Failed(String),
}

/// The open-link modal (`QbzLink`).
pub struct QbzLink {
    pub modal_open: bool,
    pub resolving: bool,
    pub url: String,
    pub platform: String,
    pub error: String,
    pub playlist_detected: bool,
    pub playlist_provider: String,
    /// The UI thread handle was registered.
    pub booted: bool,
}

/// A property of the link dialog whose change the view is notified of.
#[derive(Clone, Copy, Debug, PartialEq, Eq, Structural)]
pub enum LinkProperty {
    ModalOpen,
    Resolving,
    Url,
    Platform,
    Error,
    PlaylistDetected,
    PlaylistProvider,
}

/// The fields `show` clears.
pub open spec fn is_fresh(l: QbzLink) -> bool {
    &&& l.url@.len() == 0
    &&& l.platform@.len() == 0
    &&& l.error@.len() == 0
    &&& !l.playlist_detected
    &&& l.playlist_provider@.len() == 0
    &&& !l.resolving
}

impl QbzLink {
    pub fn new() -> (l: QbzLink)
        ensures
            is_fresh(l),
            !l.modal_open,
            !l.booted,
    {
        QbzLink {
            modal_open: false,
            resolving: false,
            url: String::new(),
            platform: String::new(),
            error: String::new(),
            playlist_detected: false,
            playlist_provider: String::new(),
            booted: false,
        }
    }

    /// Register the UI thread once; a second registration is refused.
    pub fn boot(&mut self) -> (first: bool)
        ensures
            first == !old(self).booted,
            final(self).booted,
            final(self).modal_open == old(self).modal_open,
            final(self).resolving == old(self).resolving,
    {
        let first = !self.booted;
        self.booted = true;
        first
    }

    /// Open the modal, fresh. Returns the properties it writes, in the
    /// order their change notifications go out: the modal opens last, so an
    /// observer of `modal_open` already sees every other field reset.
    pub fn show(&mut self) -> (notified: Vec<LinkProperty>)
        ensures
            final(self).modal_open,
            is_fresh(*final(self)),
            final(self).booted == old(self).booted,
            notified@ == seq![
                LinkProperty::Url,
                LinkProperty::Platform,
                LinkProperty::Error,
                LinkProperty::PlaylistDetected,
                LinkProperty::PlaylistProvider,
                LinkProperty::Resolving,
                LinkProperty::ModalOpen,
            ],
    {
        let mut notified: Vec<LinkProperty> = Vec::new();
        self.url = String::new();
        notified.push(LinkProperty::Url);
        self.platform = String::new();
        notified.push(LinkProperty::Platform);
        self.error = String::new();
        notified.push(LinkProperty::Error);
        self.playlist_detected = false;
        notified.push(LinkProperty::PlaylistDetected);
        self.playlist_provider = String::new();
        notified.push(LinkProperty::PlaylistProvider);
        self.resolving = false;
        notified.push(LinkProperty::Resolving);
        self.modal_open = true;
        notified.push(LinkProperty::ModalOpen);
        proof {
            assert(notified@ =~= seq![
                LinkProperty::Url,
                LinkProperty::Platform,
                LinkProperty::Error,
                LinkProperty::PlaylistDetected,
                LinkProperty::PlaylistProvider,
                LinkProperty::Resolving,
                LinkProperty::ModalOpen,
            ]);
        }
        notified
    }

    pub fn close(&mut self)
        ensures
            !final(self).modal_open,
            final(self).url@ == old(self).url@,
            final(self).resolving == old(self).resolving,
            final(self).booted == old(self).booted,
    {
        self.modal_open = false;
    }

    /// The URL field changed: the platform hint follows it and any earlier
    /// verdict is cleared.
    pub fn url_edited(&mut self, url: String)
        ensures
            final(self).url@ == url@,
            final(self).platform@ == spec_platform(url@),
            final(self).error@.len() == 0,
            !final(self).playlist_detected,
            final(self).playlist_provider@.len() == 0,
            final(self).modal_open == old(self).modal_open,
            final(self).resolving == old(self).resolving,
            final(self).booted == old(self).booted,
    {
        let platform = detect_platform(url.as_str());
        self.url = url;
        self.platform = String::from_str(platform);
        self.error = String::new();
        self.playlist_detected = false;
        self.playlist_provider = String::new();
    }

    /// Submit the link. An empty (trimmed) link, or one submitted while
    /// another resolves, is ignored; otherwise resolution starts and the
    /// trimmed link is returned for the resolver.
    pub fn submit(&mut self, url: &str) -> (r: Option<String>)
        ensures
            trim(url@).len() == 0 || old(self).resolving ==> r is None && final(self).url@ == old(
                self,
            ).url@ && final(self).resolving == old(self).resolving && final(self).error@ == old(
                self,
            ).error@,
            !(trim(url@).len() == 0 || old(self).resolving) ==> {
                &&& r is Some && r->0@ == trim(url@)
                &&& final(self).url@ == trim(url@)
                &&& final(self).resolving
                &&& final(self).error@.len() == 0
                &&& !final(self).playlist_detected
                &&& final(self).playlist_provider@.len() == 0
            },
            final(self).modal_open == old(self).modal_open,
            final(self).booted == old(self).booted,
    {
        let t = trimmed_chars(url);
        if t.len() == 0 || self.resolving {
            return None;
        }
        let u = string_from_chars(&t);
        self.url = u.clone();
        self.resolving = true;
        self.error = String::new();
        self.playlist_detected = false;
        self.playlist_provider = String::new();
        Some(u)
    }

    /// The resolver answered. Resolution stops; a resolved link closes the
    /// modal (the result is `true`: navigate), a detected playlist names its
    /// provider, and the other outcomes show their text as the error.
    pub fn finish(&mut self, outcome: ResolveOutcome) -> (navigate: bool)
        ensures
            !final(self).resolving,
            navigate == (outcome is Resolved),
            outcome is Resolved ==> !final(self).modal_open,
            !(outcome is Resolved) ==> final(self).modal_open == old(self).modal_open,
            match outcome {
                ResolveOutcome::PlaylistDetected(p) => final(self).playlist_detected
                    && final(self).playlist_provider@ == p@,
                ResolveOutcome::NotOnQobuz(m) => final(self).error@ == m@,
                ResolveOutcome::Failed(m) => final(self).error@ == m@,
                ResolveOutcome::Resolved => true,
            },
            final(self).url@ == old(self).url@,
            final(self).booted == old(self).booted,
    {
        self.resolving = false;
        match outcome {
            ResolveOutcome::Resolved => {
                self.modal_open = false;
                true
            },
            ResolveOutcome::PlaylistDetected(p) => {
                self.playlist_detected = true;
                self.playlist_provider = p;
                false
            },
            ResolveOutcome::NotOnQobuz(m) => {
                self.error = m;
                false
            },
            ResolveOutcome::Failed(m) => {
                self.error = m;
                false
            },
        }
    }

    /// Leave the modal for the playlist importer.
    pub fn open_importer(&mut self)
        ensures
            !final(self).modal_open,
            final(self).url@ == old(self).url@,
            final(self).resolving == old(self).resolving,
            final(self).booted == old(self).booted,
    {
        self.modal_open = false;
    }
}

// ---------------------------------------------------------------------------
// The qobuzapp:// link handler setting
// ---------------------------------------------------------------------------

/// The setting's default: on, except on Windows, where claiming the scheme
/// is opt-in.
pub fn default_enabled(is_windows: bool) -> (r: bool)
    ensures
        r == !is_windows,
{
    !is_windows
}

/// The stored setting, or the platform default.
pub fn is_enabled(stored: Option<bool>, is_windows: bool) -> (r: bool)
    ensures
        r == match stored {
            Some(b) => b,
            None => !is_windows,
        },
{
    match stored {
        Some(b) => b,
        None => default_enabled(is_windows),
    }
}

/// The registered open command names this executable, ignoring case.
pub open spec fn spec_command_names_exe(command: Seq<char>, exe: Seq<char>) -> bool {
    contains_seq(lowercase(command), lowercase(exe))
}

pub fn command_names_exe(command: &str, exe: &str) -> (r: bool)
    ensures
        r == spec_command_names_exe(command@, exe@),
{
    let c = to_lowercase(command);
    let e = to_lowercase(exe);
    let cc = chars_of(c.as_str());
    let ec = chars_of(e.as_str());
    contains_chars(&cc, &ec)
}

/// At startup, with the setting off, a handler that an older installer
/// registered for this very executable is dropped (Windows only); anything
/// else is left alone.
pub fn reconcile_at_startup(
    enabled: bool,
    is_windows: bool,
    command: Option<&str>,
    exe: &str,
) -> (drop_handler: bool)
    ensures
        drop_handler == (!enabled && is_windows && match command {
            Some(c) => spec_command_names_exe(c@, exe@),
            None => false,
        }),
{
    if enabled || !is_windows {
        return false;
    }
    match command {
        Some(c) => command_names_exe(c, exe),
        None => false,
    }
}

/// A link naming the Qobuz host or scheme is hinted as Qobuz, whatever else
/// it names.
pub proof fn lemma_qobuz_links_are_hinted(url: Seq<char>)
    requires
        ({
            let l = ascii_lower_seq(trim(url));
            contains_seq(l, "qobuz.com/"@) || starts_with_seq(l, "qobuzapp://"@)
        }),
    ensures
        spec_platform(url) == "qobuz"@,
{
}

/// A link whose trimmed, ASCII-lower-cased text names the Spotify host or
/// scheme, and not Qobuz, is hinted as Spotify.
pub proof fn lemma_spotify_links_are_hinted(url: Seq<char>, i: int)
    requires
        ({
            let l = ascii_lower_seq(trim(url));
            &&& occurs_at(l, "spotify.com/"@, i) || starts_with_seq(l, "spotify:"@)
            &&& !contains_seq(l, "qobuz.com/"@)
            &&& !starts_with_seq(l, "qobuzapp://"@)
        }),
    ensures
        spec_platform(url) == "spotify"@,
{
}

/// A link naming Apple Music, Tidal or Deezer, and no service checked before
/// it, is hinted as that service.
pub proof fn lemma_store_links_are_hinted(url: Seq<char>, i: int)
    requires
        ({
            let l = ascii_lower_seq(trim(url));
            &&& !contains_seq(l, "qobuz.com/"@)
            &&& !starts_with_seq(l, "qobuzapp://"@)
            &&& !contains_seq(l, "spotify.com/"@)
            &&& !starts_with_seq(l, "spotify:"@)
        }),
    ensures
        ({
            let l = ascii_lower_seq(trim(url));
            &&& occurs_at(l, "music.apple.com/"@, i) ==> spec_platform(url) == "apple"@
            &&& !contains_seq(l, "music.apple.com/"@) && occurs_at(l, "tidal.com/"@, i) ==> spec_platform(url)
                == "tidal"@
            &&& !contains_seq(l, "music.apple.com/"@) && !contains_seq(l, "tidal.com/"@) && occurs_at(
                l,
                "deezer.com/"@,
                i,
            ) ==> spec_platform(url) == "deezer"@
        }),
{
}

/// A link naming no known service is given no hint, and every hint given is
/// the name of a service the link mentions.
pub proof fn lemma_unknown_links_get_no_hint(url: Seq<char>)
    ensures
        ({
            let l = ascii_lower_seq(trim(url));
            &&& (!contains_seq(l, "qobuz.com/"@) && !starts_with_seq(l, "qobuzapp://"@) && !contains_seq(
                l,
                "spotify.com/"@,
            ) && !starts_with_seq(l, "spotify:"@) && !contains_seq(l, "music.apple.com/"@)
                && !contains_seq(l, "tidal.com/"@) && !contains_seq(l, "deezer.com/"@) && !contains_seq(
                l,
                "song.link/"@,
            ) && !contains_seq(l, "album.link/"@) && !contains_seq(l, "odesli.co/"@)) ==> spec_platform(
                url,
            ).len() == 0
            &&& spec_platform(url) == "spotify"@ ==> contains_seq(l, "spotify.com/"@) || starts_with_seq(
                l,
                "spotify:"@,
            )
        }),
{
    reveal_strlit("");
    reveal_strlit("spotify");
    reveal_strlit("qobuz");
    reveal_strlit("apple");
    reveal_strlit("tidal");
    reveal_strlit("deezer");
    reveal_strlit("songlink");
    assert("qobuz"@.len() != "spotify"@.len());
    assert("apple"@.len() != "spotify"@.len());
    assert("tidal"@.len() != "spotify"@.len());
    assert("deezer"@.len() != "spotify"@.len());
    assert("songlink"@.len() != "spotify"@.len());
    assert(""@.len() != "spotify"@.len());
}

} // verus!
