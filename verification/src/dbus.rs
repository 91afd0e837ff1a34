//! The power-profiles-daemon DBus interface, `net.hadess.PowerProfiles`, and
//! its alias `org.freedesktop.UPower.PowerProfiles`, as plain logic.
//!
//! Profiles appear on DBus under their power-profiles-daemon names
//! (`power-saver`, `balanced`, `performance`). Setting `ActiveProfile` takes
//! two steps around the lever writes, which the service makes between them:
//! [`PowerProfiles::requested_profile`] resolves the name, then
//! [`PowerProfiles::set_active_profile`] records the outcome.

use vstd::prelude::*;
use crate::profiles::{alias_spec, canonical, is_canonical, ppd_name_spec, to_ppd_name};

verus! {

pub const BUS_NAME: &'static str = "net.hadess.PowerProfiles";

/// The alias name PowerDevil looks for and talks to.
pub const BUS_NAME_ALIAS: &'static str = "org.freedesktop.UPower.PowerProfiles";

pub const OBJECT_PATH: &'static str = "/net/hadess/PowerProfiles";

/// The alias path PowerDevil reads the properties from.
pub const OBJECT_PATH_ALIAS: &'static str = "/org/freedesktop/UPower/PowerProfiles";

pub const VERSION: &'static str = "0.30";

pub const CPU_DRIVER: &'static str = "intel_pstate";

pub const PLATFORM_DRIVER: &'static str = "placeholder";

/// The state shared by the DBus objects and the daemon loop: the canonical
/// name of the active profile.
pub struct SharedState {
    active: String,
}

impl View for SharedState {
    type V = Seq<char>;

    closed spec fn view(&self) -> Seq<char> {
        self.active@
    }
}

impl SharedState {
    /// A state whose active profile is `initial`.
    pub fn new(initial: &str) -> (r: SharedState)
        ensures
            r@ == initial@,
    {
        SharedState { active: initial.to_owned() }
    }

    /// The active profile.
    pub fn get(&self) -> (r: String)
        ensures
            r@ == self@,
    {
        self.active.clone()
    }

    /// Makes `name` the active profile.
    pub fn set(&mut self, name: &str)
        ensures
            final(self)@ == name@,
    {
        self.active = name.to_owned();
    }
}

/// One entry of the `Profiles` property.
#[derive(Debug, PartialEq, Eq)]
pub struct ProfileEntry {
    pub profile: &'static str,
    pub cpu_driver: &'static str,
    pub platform_driver: &'static str,
    pub driver: &'static str,
}

pub open spec fn entry_view(e: ProfileEntry) -> (Seq<char>, Seq<char>, Seq<char>, Seq<char>) {
    (e.profile@, e.cpu_driver@, e.platform_driver@, e.driver@)
}

/// The entry for profile `name` driven by `cpu_driver`.
pub fn profile_dict(name: &'static str, cpu_driver: &'static str) -> (r: ProfileEntry)
    ensures
        entry_view(r) == (name@, cpu_driver@, PLATFORM_DRIVER@, cpu_driver@),
{
    ProfileEntry { profile: name, cpu_driver, platform_driver: PLATFORM_DRIVER, driver: cpu_driver }
}

/// Why setting `ActiveProfile` was refused.
#[derive(Debug, PartialEq, Eq)]
pub enum DbusError {
    /// The name is no profile (answered as `InvalidArgs`).
    InvalidArgs { value: String },
    /// Applying the profile failed (answered as `Failed`).
    Failed { profile: String },
}

/// `e` refuses the name `value` as no profile.
pub open spec fn invalid_args_for(e: DbusError, value: Seq<char>) -> bool {
    match e {
        DbusError::InvalidArgs { value: v } => v@ == value,
        _ => false,
    }
}

/// `r` reports that applying `profile` failed.
pub open spec fn failed_for(r: Result<(), DbusError>, profile: Seq<char>) -> bool {
    match r {
        Err(DbusError::Failed { profile: p }) => p@ == profile,
        _ => false,
    }
}

/// The three profiles, as the `Profiles` property lists them.
pub open spec fn profiles_property() -> Seq<(Seq<char>, Seq<char>, Seq<char>, Seq<char>)> {
    seq![
        ("power-saver"@, CPU_DRIVER@, PLATFORM_DRIVER@, CPU_DRIVER@),
        ("balanced"@, CPU_DRIVER@, PLATFORM_DRIVER@, CPU_DRIVER@),
        ("performance"@, CPU_DRIVER@, PLATFORM_DRIVER@, CPU_DRIVER@),
    ]
}

fn profiles_list() -> (r: Vec<ProfileEntry>)
    ensures
        r@.map_values(|e: ProfileEntry| entry_view(e)) == profiles_property(),
{
    let mut v: Vec<ProfileEntry> = Vec::new();
    v.push(profile_dict("power-saver", CPU_DRIVER));
    v.push(profile_dict("balanced", CPU_DRIVER));
    v.push(profile_dict("performance", CPU_DRIVER));
    assert(v@.map_values(|e: ProfileEntry| entry_view(e)) =~= profiles_property());
    v
}

fn requested(value: &str) -> (r: Result<&'static str, DbusError>)
    ensures
        match r {
            Ok(c) => alias_spec(value@) == Some(c@),
            Err(e) => alias_spec(value@) is None && invalid_args_for(e, value@),
        },
{
    match canonical(value) {
        Some(c) => Ok(c),
        None => Err(DbusError::InvalidArgs { value: value.to_owned() }),
    }
}

fn record(state: &mut SharedState, profile: &str, applied: bool) -> (r: Result<(), DbusError>)
    ensures
        applied ==> r is Ok && final(state)@ == profile@,
        !applied ==> final(state)@ == old(state)@ && failed_for(r, profile@),
{
    if !applied {
        return Err(DbusError::Failed { profile: profile.to_owned() });
    }
    state.set(profile);
    Ok(())
}

fn take_cookie(next: &mut u32) -> (r: u32)
    ensures
        r == *old(next),
        *final(next) == (if *old(next) == u32::MAX {
            0
        } else {
            (*old(next) + 1) as u32
        }),
{
    let r = *next;
    *next = next.wrapping_add(1);
    r
}

/// The `net.hadess.PowerProfiles` object.
pub struct PowerProfiles {
    next_hold: u32,
}

/// The `org.freedesktop.UPower.PowerProfiles` object: the same interface
/// under the name PowerDevil uses.
pub struct PowerProfilesAlias {
    next_hold: u32,
}

impl PowerProfiles {
    /// The cookie the next `HoldProfile` returns.
    pub closed spec fn next_cookie(&self) -> u32 {
        self.next_hold
    }

    pub fn new() -> (r: PowerProfiles)
        ensures
            r.next_cookie() == 1,
    {
        PowerProfiles { next_hold: 1 }
    }

    /// `ActiveProfile`: the DBus name of the active profile.
    pub fn active_profile(&self, state: &SharedState) -> (r: &'static str)
        ensures
            r@ == ppd_name_spec(state@),
    {
        let active = state.get();
        to_ppd_name(active.as_str())
    }

    /// First step of setting `ActiveProfile`: the canonical profile for
    /// `value`, or `InvalidArgs` for a name that is no profile.
    pub fn requested_profile(&self, value: &str) -> (r: Result<&'static str, DbusError>)
        ensures
            match r {
                Ok(c) => alias_spec(value@) == Some(c@),
                Err(e) => alias_spec(value@) is None && invalid_args_for(e, value@),
            },
    {
        requested(value)
    }

    /// Second step of setting `ActiveProfile`: records `profile`, the
    /// canonical profile that the first step gave, as active when applying it
    /// succeeded, else answers `Failed` and leaves the state alone.
    pub fn set_active_profile(&self, state: &mut SharedState, profile: &str, applied: bool) -> (r:
        Result<(), DbusError>)
        requires
            is_canonical(profile@),
        ensures
            applied ==> r is Ok && final(state)@ == profile@,
            !applied ==> final(state)@ == old(state)@ && failed_for(r, profile@),
    {
        record(state, profile, applied)
    }

    /// `Profiles`: the three profiles.
    pub fn profiles(&self) -> (r: Vec<ProfileEntry>)
        ensures
            r@.map_values(|e: ProfileEntry| entry_view(e)) == profiles_property(),
    {
        profiles_list()
    }

    /// `PerformanceDegraded`: never degraded.
    pub fn performance_degraded(&self) -> (r: String)
        ensures
            r@ == Seq::<char>::empty(),
    {
        String::new()
    }

    /// `PerformanceInhibited`: never inhibited.
    pub fn performance_inhibited(&self) -> (r: String)
        ensures
            r@ == Seq::<char>::empty(),
    {
        String::new()
    }

    /// `Actions`: none.
    pub fn actions(&self) -> (r: Vec<String>)
        ensures
            r@.len() == 0,
    {
        Vec::new()
    }

    /// `ActiveProfileHolds`: none are kept.
    pub fn active_profile_holds(&self) -> (r: Vec<ProfileEntry>)
        ensures
            r@.len() == 0,
    {
        Vec::new()
    }

    /// `Version`.
    pub fn version(&self) -> (r: &'static str)
        ensures
            r@ == VERSION@,
    {
        VERSION
    }

    /// `HoldProfile`: hands out the next cookie (counting up from 1, wrapping)
    /// and holds nothing.
    pub fn hold_profile(&mut self, profile: &str, reason: &str, app_id: &str) -> (r: u32)
        ensures
            r == old(self).next_cookie(),
            final(self).next_cookie() == (if r == u32::MAX {
                0
            } else {
                (r + 1) as u32
            }),
    {
        take_cookie(&mut self.next_hold)
    }

    /// `ReleaseProfile`: nothing is held, so nothing changes.
    pub fn release_profile(&mut self, cookie: u32)
        ensures
            final(self).next_cookie() == old(self).next_cookie(),
    {
    }
}

impl PowerProfilesAlias {
    /// The cookie the next `HoldProfile` returns.
    pub closed spec fn next_cookie(&self) -> u32 {
        self.next_hold
    }

    pub fn new() -> (r: PowerProfilesAlias)
        ensures
            r.next_cookie() == 1,
    {
        PowerProfilesAlias { next_hold: 1 }
    }

    /// `ActiveProfile`: the DBus name of the active profile.
    pub fn active_profile(&self, state: &SharedState) -> (r: &'static str)
        ensures
            r@ == ppd_name_spec(state@),
    {
        let active = state.get();
        to_ppd_name(active.as_str())
    }

    /// First step of setting `ActiveProfile`, as on the main object.
    pub fn requested_profile(&self, value: &str) -> (r: Result<&'static str, DbusError>)
        ensures
            match r {
                Ok(c) => alias_spec(value@) == Some(c@),
                Err(e) => alias_spec(value@) is None && invalid_args_for(e, value@),
            },
    {
        requested(value)
    }

    /// Second step of setting `ActiveProfile`, as on the main object.
    pub fn set_active_profile(&self, state: &mut SharedState, profile: &str, applied: bool) -> (r:
        Result<(), DbusError>)
        requires
            is_canonical(profile@),
        ensures
            applied ==> r is Ok && final(state)@ == profile@,
            !applied ==> final(state)@ == old(state)@ && failed_for(r, profile@),
    {
        record(state, profile, applied)
    }

    /// `Profiles`: the three profiles.
    pub fn profiles(&self) -> (r: Vec<ProfileEntry>)
        ensures
            r@.map_values(|e: ProfileEntry| entry_view(e)) == profiles_property(),
    {
        profiles_list()
    }

    /// `PerformanceDegraded`: never degraded.
    pub fn performance_degraded(&self) -> (r: String)
        ensures
            r@ == Seq::<char>::empty(),
    {
        String::new()
    }

    /// `PerformanceInhibited`: never inhibited.
    pub fn performance_inhibited(&self) -> (r: String)
        ensures
            r@ == Seq::<char>::empty(),
    {
        String::new()
    }

    /// `Actions`: none.
    pub fn actions(&self) -> (r: Vec<String>)
        ensures
            r@.len() == 0,
    {
        Vec::new()
    }

    /// `ActiveProfileHolds`: none are kept.
    pub fn active_profile_holds(&self) -> (r: Vec<ProfileEntry>)
        ensures
            r@.len() == 0,
    {
        Vec::new()
    }

    /// `Version`.
    pub fn version(&self) -> (r: &'static str)
        ensures
            r@ == VERSION@,
    {
        VERSION
    }

    /// `HoldProfile`: hands out the next cookie and holds nothing.
    pub fn hold_profile(&mut self, profile: &str, reason: &str, app_id: &str) -> (r: u32)
        ensures
            r == old(self).next_cookie(),
            final(self).next_cookie() == (if r == u32::MAX {
                0
            } else {
                (r + 1) as u32
            }),
    {
        take_cookie(&mut self.next_hold)
    }

    /// `ReleaseProfile`: nothing is held, so nothing changes.
    pub fn release_profile(&mut self, cookie: u32)
        ensures
            final(self).next_cookie() == old(self).next_cookie(),
    {
    }
}

/// A profile set over DBus reads back, on either object, as the DBus name it
/// was set by: setting `ActiveProfile` to an accepted name `v` makes
/// `ActiveProfile` the DBus name of `v`'s profile, and every DBus name reads
/// back as itself.
pub proof fn lemma_set_then_get(v: Seq<char>)
    requires
        alias_spec(v) is Some,
    ensures
        ppd_name_spec(alias_spec(v)->0) == (if v == "power-saver"@ || v == "eco"@ {
            "power-saver"@
        } else if v == "balanced"@ || v == "normal"@ {
            "balanced"@
        } else {
            "performance"@
        }),
        (v == "power-saver"@ || v == "balanced"@ || v == "performance"@) ==> ppd_name_spec(
            alias_spec(v)->0,
        ) == v,
{
    crate::profiles::lemma_names_distinct();
}

} // verus!
