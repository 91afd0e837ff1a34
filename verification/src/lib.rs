//! Power profiles for the Acer Swift SFG14-73 (Intel Core Ultra 9 185H) on
//! Linux, as verified logic.
//!
//! Three profiles (`eco`, `normal`, `performance`, with the aliases
//! `power-saver`, `balanced` and `perf`) set the RAPL power limits, the CPU
//! governor and energy-performance preference, and the i915 GPU frequencies.
//! The library decides what to write, in which order (governor, EPP, RAPL,
//! GPU; no EPP under the `performance` governor), how to read the sysfs files
//! back, what the state file records, and what the power-profiles-daemon DBus
//! interface answers. The program around it performs the file, process and
//! bus I/O.
//!
//! - [`text`]: trimming, decimal integers and string comparison.
//! - [`glob`]: `*` patterns over sysfs paths, walked one segment at a time.
//! - [`profiles`]: names, aliases and the profile table.
//! - [`levers`]: the sysfs levers, their readouts and the planned writes.
//! - [`controller`]: setting a profile and the state file.
//! - [`daemon`], [`dbus`]: the service's decisions and DBus answers.
//! - [`probe`], [`measure`]: the PL2 probe and the profile comparison.

use vstd::prelude::*;

pub mod text;
pub mod glob;
pub mod profiles;
pub mod levers;
pub mod controller;
pub mod daemon;
pub mod dbus;
pub mod probe;
pub mod measure;

verus! {
} // verus!
