//! Applying a profile and the state file that remembers the active one.
//!
//! Setting a profile resolves its name, plans the lever writes (governor,
//! EPP, RAPL, GPU, in that order) and gives the line to store in the state
//! file; the caller performs the writes and stores the line.

use vstd::prelude::*;
use crate::levers::{
    epp_apply,
    gpu_apply,
    levers_plan,
    rapl_apply,
    writes_view,
    Levers,
    SysfsWrite,
};
use crate::profiles::{alias_spec, canonical, is_valid_profile, resolve, Profile, ProfileTable};
use crate::text::{is_white_space, trim, trimmed, with_newline};

verus! {

pub const STATE_DIR: &'static str = "/var/lib/acer-profile";

pub const STATE_FILE: &'static str = "/var/lib/acer-profile/current";

/// The profile a state file names: its trimmed contents, `None` when the file
/// is missing or blank.
pub open spec fn state_profile(raw: Option<Seq<char>>) -> Option<Seq<char>> {
    match raw {
        Some(s) => if trimmed(s).len() == 0 {
            None
        } else {
            Some(trimmed(s))
        },
        None => None,
    }
}

/// The active profile recorded in the state file, given its raw contents.
pub fn profile_from_state(raw: &Option<String>) -> (r: Option<String>)
    ensures
        crate::profiles::opt_text(r) == state_profile(crate::profiles::opt_text(*raw)),
{
    match raw {
        Some(s) => {
            let t = trim(s.as_str());
            if t.as_str().is_empty() {
                None
            } else {
                Some(t)
            }
        },
        None => None,
    }
}

/// The contents of the state file recording profile `name`.
pub fn state_file_content(name: &str) -> (r: String)
    ensures
        r@ == name@.push('\n'),
{
    with_newline(name)
}

/// What the state file records is what it gives back, for every name without
/// white space at either end (the canonical names among them).
pub proof fn lemma_state_round_trip(name: Seq<char>)
    requires
        name.len() > 0,
        !is_white_space(name[0]),
        !is_white_space(name.last()),
    ensures
        state_profile(Some(name.push('\n'))) == Some(name),
{
    crate::text::lemma_trimmed_line(name);
}

/// The writes that apply `profile` to the levers found: governor, then EPP,
/// then RAPL, then GPU.
pub fn apply_profile(profile: &Profile, levers: &Levers) -> (r: Vec<SysfsWrite>)
    ensures
        writes_view(r@) == levers_plan(profile@, *levers),
{
    let epp = match &profile.epp {
        Some(e) => Some(e.as_str()),
        None => None,
    };
    let governor = match &profile.governor {
        Some(g) => Some(g.as_str()),
        None => None,
    };
    let mut out = epp_apply(epp, governor, &levers.policies);
    let rapl_pkg = match &levers.rapl_pkg {
        Some(p) => Some(p),
        None => None,
    };
    let mut rapl = rapl_apply(rapl_pkg, profile.pl1_uw, profile.pl2_uw);
    let gpu_card = match &levers.gpu_card {
        Some(c) => Some(c),
        None => None,
    };
    let mut gpu = gpu_apply(gpu_card, profile.gpu_max_mhz, profile.gpu_boost_mhz);
    let ghost a = writes_view(out@);
    let ghost b = writes_view(rapl@);
    let ghost c = writes_view(gpu@);
    out.append(&mut rapl);
    assert(writes_view(out@) =~= a + b);
    out.append(&mut gpu);
    assert(writes_view(out@) =~= a + b + c);
    out
}


/// The outcome of setting a profile: the canonical profile, the writes that
/// apply it, in order, and the new contents of the state file.
pub struct ProfileChange {
    pub profile: &'static str,
    pub writes: Vec<SysfsWrite>,
    pub state: String,
}

/// Sets profile `name` (canonical or alias) with the profiles and levers
/// given. `None` for an unknown name.
pub fn set_profile(name: &str, profiles: &ProfileTable, levers: &Levers) -> (r: Option<ProfileChange>)
    ensures
        r is Some <==> alias_spec(name@) is Some,
        r matches Some(ch) ==> {
            let c = alias_spec(name@)->0;
            &&& ch.profile@ == c
            &&& writes_view(ch.writes@) == levers_plan(profiles@[c], *levers)
            &&& ch.state@ == c.push('\n')
        },
{
    let can = match canonical(name) {
        Some(c) => c,
        None => {
            return None;
        },
    };
    proof {
        crate::profiles::lemma_alias_canonical(name@);
        crate::profiles::lemma_table_domain(profiles);
    }
    if !is_valid_profile(can) {
        return None;
    }
    let prof = match resolve(can, profiles) {
        Some(p) => p,
        None => {
            return None;
        },
    };
    proof {
        crate::profiles::lemma_canonical_fixed(can@);
    }
    let writes = apply_profile(prof, levers);
    let state = state_file_content(can);
    Some(ProfileChange { profile: can, writes, state })
}

/// Whether setting a profile succeeded: the name named a profile, its writes
/// were made, and the state file was written with `change.state`, so that it
/// now names the profile (see `lemma_set_profile_records`). `state_written`
/// tells whether writing the state file succeeded.
pub fn set_succeeded(change: &Option<ProfileChange>, state_written: bool) -> (r: bool)
    ensures
        r == (change is Some && state_written),
{
    match change {
        Some(_) => state_written,
        None => false,
    }
}

/// After a profile is set, the state file names that profile.
pub proof fn lemma_set_profile_records(c: Seq<char>)
    requires
        crate::profiles::is_canonical(c),
    ensures
        state_profile(Some(c.push('\n'))) == Some(c),
{
    lemma_canonical_names_clean();
    lemma_state_round_trip(c);
}

proof fn lemma_canonical_names_clean()
    ensures
        !is_white_space("eco"@[0]) && !is_white_space("eco"@.last()),
        !is_white_space("normal"@[0]) && !is_white_space("normal"@.last()),
        !is_white_space("performance"@[0]) && !is_white_space("performance"@.last()),
        "eco"@.len() > 0 && "normal"@.len() > 0 && "performance"@.len() > 0,
{
    reveal_strlit("eco");
    reveal_strlit("normal");
    reveal_strlit("performance");
}

} // verus!
