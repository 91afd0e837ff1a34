//! Decisions of the profile daemon: which profile to start with, and when a
//! change of the state file (made by the command line) must be applied.
//! The daemon's loop itself — sleeping, reading the file, applying the
//! profile, signalling DBus — is I/O and runs outside this library.

use vstd::prelude::*;
use crate::profiles::opt_text;
use crate::text::str_eq;

verus! {

/// Seconds between two looks at the state file.
pub const POLL_SECS: u64 = 1;

/// The profile the daemon starts with when no state file names one.
pub const STARTUP_DEFAULT: &'static str = "normal";

/// The profile to start with: the one the state file names, else `normal`.
pub fn startup_profile(current: Option<String>) -> (r: String)
    ensures
        r@ == match opt_text(current) {
            Some(c) => c,
            None => STARTUP_DEFAULT@,
        },
{
    match current {
        Some(c) => c,
        None => STARTUP_DEFAULT.to_owned(),
    }
}

/// Watches the state file for a profile other than the last one seen.
pub struct StateWatch {
    last_seen: String,
}

impl View for StateWatch {
    type V = Seq<char>;

    closed spec fn view(&self) -> Seq<char> {
        self.last_seen@
    }
}

impl StateWatch {
    /// A watch that has seen `initial`.
    pub fn new(initial: &str) -> (r: StateWatch)
        ensures
            r@ == initial@,
    {
        StateWatch { last_seen: initial.to_owned() }
    }

    /// The profile seen last.
    pub fn last_seen(&self) -> (r: &String)
        ensures
            r@ == self@,
    {
        &self.last_seen
    }

    /// One look at the state file, which names `current` (`None`: no profile).
    /// Returns the profile to apply when it changed; it is then the last seen.
    pub fn poll(&mut self, current: Option<String>) -> (r: Option<String>)
        ensures
            (opt_text(r), final(self)@) == poll_spec(old(self)@, opt_text(current)),
    {
        match current {
            None => None,
            Some(c) => {
                if str_eq(c.as_str(), self.last_seen.as_str()) {
                    None
                } else {
                    self.last_seen = c.clone();
                    Some(c)
                }
            },
        }
    }
}

/// One look: the profile to apply, if any, and the profile seen last after it.
pub open spec fn poll_spec(seen: Seq<char>, current: Option<Seq<char>>) -> (Option<Seq<char>>, Seq<char>) {
    match current {
        Some(c) => if c == seen {
            (None, seen)
        } else {
            (Some(c), c)
        },
        None => (None, seen),
    }
}

/// A change is applied once: whatever was seen before, a second look at the
/// same state file applies nothing.
pub proof fn lemma_poll_applies_once(seen: Seq<char>, current: Option<Seq<char>>)
    ensures
        poll_spec(poll_spec(seen, current).1, current).0 is None,
        poll_spec(seen, current).0 is Some ==> poll_spec(seen, current).0 == current,
{
}

} // verus!
