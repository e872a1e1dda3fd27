use vstd::prelude::*;
use crate::text::{chars_eq_ignore_ascii_case, eq_ignore_ascii_case, trim, trimmed_chars};

verus! {

/// The spelling of the kiosk profile.
pub open spec fn kiosk_word() -> Seq<char> {
    seq!['k', 'i', 'o', 's', 'k']
}

/// A profile value names the kiosk profile: trimmed, compared without
/// regard to ASCII case.
pub open spec fn names_kiosk(v: Seq<char>) -> bool {
    eq_ignore_ascii_case(trim(v), kiosk_word())
}

/// The profile an environment override and the persisted preference
/// select: a non-blank override wins; a blank one falls through to the
/// preference.
pub open spec fn spec_resolve(env: Option<Seq<char>>, pref: Seq<char>) -> bool {
    match env {
        Some(v) => if trim(v).len() > 0 { names_kiosk(v) } else { names_kiosk(pref) },
        None => names_kiosk(pref),
    }
}

fn names_kiosk_exec(v: &str) -> (b: bool)
    ensures
        b == names_kiosk(v@),
{
    let t = trimmed_chars(v);
    let mut k: Vec<char> = Vec::new();
    k.push('k');
    k.push('i');
    k.push('o');
    k.push('s');
    k.push('k');
    proof {
        assert(k@ == kiosk_word());
    }
    chars_eq_ignore_ascii_case(&t, &k)
}

/// Resolve the profile from the override (when one is set) and the
/// persisted preference value.
pub fn resolve(env: Option<&str>, pref: &str) -> (kiosk: bool)
    ensures
        kiosk == spec_resolve(
            match env {
                Some(v) => Some(v@),
                None => None,
            },
            pref@,
        ),
{
    if let Some(v) = env {
        let t = trimmed_chars(v);
        if t.len() > 0 {
            return names_kiosk_exec(v);
        }
    }
    names_kiosk_exec(pref)
}

/// The screen a kiosk session mounts.
pub open spec fn spec_shell_screen(kiosk: bool) -> Seq<char> {
    if kiosk {
        kiosk_word()
    } else {
        seq!['s', 'h', 'e', 'l', 'l']
    }
}

/// The persisted value of a profile.
pub open spec fn spec_pref_value(kiosk: bool) -> Seq<char> {
    if kiosk {
        kiosk_word()
    } else {
        seq!['d', 'e', 's', 'k', 't', 'o', 'p']
    }
}

/// What a live profile toggle asks the application to do: persist the new
/// value, then mount the new screen.
pub struct ProfileToggle {
    pub kiosk: bool,
    pub pref_value: &'static str,
    pub screen: &'static str,
}

/// The live kiosk-profile latch of one session.
pub struct KioskProfile {
    pub kiosk: bool,
}

impl KioskProfile {
    pub fn new() -> (p: Self)
        ensures
            !p.kiosk,
    {
        KioskProfile { kiosk: false }
    }

    /// Is the kiosk profile on right now?
    pub fn active(&self) -> (b: bool)
        ensures
            b == self.kiosk,
    {
        self.kiosk
    }

    /// Boot: resolve the profile, latch it and report it.
    pub fn init_at_boot(&mut self, env: Option<&str>, pref: &str) -> (kiosk: bool)
        ensures
            kiosk == spec_resolve(
                match env {
                    Some(v) => Some(v@),
                    None => None,
                },
                pref@,
            ),
            final(self).kiosk == kiosk,
    {
        let kiosk = resolve(env, pref);
        self.kiosk = kiosk;
        kiosk
    }

    /// The screen id the post-login mount uses.
    pub fn shell_screen(&self) -> (s: &'static str)
        ensures
            s@ == spec_shell_screen(self.kiosk),
    {
        if self.kiosk {
            proof {
                reveal_strlit("kiosk");
            }
            "kiosk"
        } else {
            proof {
                reveal_strlit("shell");
            }
            "shell"
        }
    }

    /// The live toggle: it flips the CURRENT latch (an override never pins
    /// it) and returns what to persist and which screen to mount.
    pub fn toggle(&mut self) -> (t: ProfileToggle)
        ensures
            final(self).kiosk == !old(self).kiosk,
            t.kiosk == final(self).kiosk,
            t.pref_value@ == spec_pref_value(t.kiosk),
            t.screen@ == spec_shell_screen(t.kiosk),
    {
        let to_kiosk = !self.kiosk;
        self.kiosk = to_kiosk;
        let pref_value = if to_kiosk {
            proof {
                reveal_strlit("kiosk");
            }
            "kiosk"
        } else {
            proof {
                reveal_strlit("desktop");
            }
            "desktop"
        };
        ProfileToggle { kiosk: to_kiosk, pref_value, screen: self.shell_screen() }
    }
}

} // verus!
