//! The hardware levers behind a profile, over sysfs: RAPL package power
//! limits, CPU governor and energy-performance preference, i915 GPU
//! frequencies, and the temperature and frequency readouts.
//!
//! Nothing here touches the file system. Discovery uses [`GlobWalk`]s that the
//! caller drives; reads take the raw file contents the caller found; writes
//! come out as a plan of [`SysfsWrite`]s, in the order they must be made. The
//! order matters on `intel_pstate`: the governor goes first, and with the
//! `performance` governor the EPP is left alone (the driver owns it then and
//! refuses writes with `EBUSY`).

use vstd::prelude::*;
use crate::glob::{GlobWalk, SysPath, pattern_segments};
use crate::profiles::{opt_text, ProfileView};
use crate::text::{
    as_int,
    i64_to_decimal,
    int_decimal,
    parse_i64_spec,
    str_eq,
    trim,
    trimmed,
};

verus! {

pub const RAPL_PKG_GLOB: &'static str = "/sys/class/powercap/intel-rapl:*";

pub const CPU_POLICY_GLOB: &'static str = "/sys/devices/system/cpu/cpufreq/policy*";

pub const I915_CARD_GLOB: &'static str = "/sys/bus/pci/drivers/i915/*:*/drm/card*/gt_max_freq_mhz";

pub const ACER_TEMP_GLOB: &'static str = "/sys/devices/platform/acer-wmi/hwmon/*/temp*_input";

pub const HWMON_TEMP_GLOB: &'static str = "/sys/class/hwmon/hwmon*/temp1_input";

pub const RAPL_NAME_FILE: &'static str = "name";

pub const RAPL_PACKAGE_NAME: &'static str = "package-0";

pub const PL1_FILE: &'static str = "constraint_0_power_limit_uw";

pub const PL2_FILE: &'static str = "constraint_1_power_limit_uw";

pub const PL1_MAX_FILE: &'static str = "constraint_0_max_power_uw";

pub const PL2_MAX_FILE: &'static str = "constraint_1_max_power_uw";

pub const GOVERNOR_FILE: &'static str = "scaling_governor";

pub const EPP_FILE: &'static str = "energy_performance_preference";

pub const CUR_FREQ_FILE: &'static str = "scaling_cur_freq";

pub const GPU_MAX_FILE: &'static str = "gt_max_freq_mhz";

pub const GPU_BOOST_FILE: &'static str = "gt_boost_freq_mhz";

pub const GPU_RP0_FILE: &'static str = "gt_RP0_freq_mhz";

pub const GPU_RP1_FILE: &'static str = "gt_RP1_freq_mhz";

pub const GPU_RPN_FILE: &'static str = "gt_RPn_freq_mhz";

pub const GPU_CUR_FILE: &'static str = "gt_cur_freq_mhz";

pub const HWMON_NAME_FILE: &'static str = "name";

/// `errno` for a busy device.
pub const EBUSY: i32 = 16;

/// `errno` for an invalid argument: what i915 answers when a frequency write
/// races with its own changes.
pub const EINVAL: i32 = 22;

/// Pause before another attempt at a busy sysfs file, in milliseconds.
pub const RETRY_PAUSE_MS: u64 = 150;

// ------------------------------------------------------------ reading values

/// A sysfs value as read: the file contents, trimmed.
pub open spec fn read_value(raw: Option<Seq<char>>) -> Option<Seq<char>> {
    match raw {
        Some(s) => Some(trimmed(s)),
        None => None,
    }
}

/// A sysfs value read as an integer: `None` when the file is missing or its
/// trimmed contents are empty or no integer.
pub open spec fn read_int(raw: Option<Seq<char>>) -> Option<i64> {
    match raw {
        Some(s) => if trimmed(s).len() == 0 {
            None
        } else {
            parse_i64_spec(trimmed(s))
        },
        None => None,
    }
}

/// The trimmed contents of a sysfs file.
pub fn read_str(raw: &Option<String>) -> (r: Option<String>)
    ensures
        opt_text(r) == read_value(opt_text(*raw)),
{
    match raw {
        Some(s) => Some(trim(s.as_str())),
        None => None,
    }
}

/// The contents of a sysfs file as an integer.
pub fn read_int_value(raw: &Option<String>) -> (r: Option<i64>)
    ensures
        r == read_int(opt_text(*raw)),
{
    match raw {
        Some(s) => {
            let t = trim(s.as_str());
            as_int(Some(t.as_str()))
        },
        None => None,
    }
}

// ------------------------------------------------------------ writes

/// How a write is made. `Retrying` writes try again, after a pause, while the
/// file is busy; `Gpu` writes are made once and their failure is tolerated
/// (i915 runtime power management races them).
#[derive(Clone, Copy, Debug, PartialEq, Eq, Structural)]
pub enum WriteKind {
    Retrying,
    Gpu,
}

/// One value to write to one sysfs file.
#[derive(Debug)]
pub struct SysfsWrite {
    pub path: SysPath,
    pub value: String,
    pub kind: WriteKind,
}

pub struct WriteView {
    pub path: Seq<Seq<char>>,
    pub value: Seq<char>,
    pub kind: WriteKind,
}

impl View for SysfsWrite {
    type V = WriteView;

    open spec fn view(&self) -> WriteView {
        WriteView { path: self.path@, value: self.value@, kind: self.kind }
    }
}

pub open spec fn writes_view(v: Seq<SysfsWrite>) -> Seq<WriteView> {
    v.map_values(|w: SysfsWrite| w@)
}

pub open spec fn opt_path(o: Option<SysPath>) -> Option<Seq<Seq<char>>> {
    match o {
        Some(p) => Some(p@),
        None => None,
    }
}

/// The same value written to file `leaf` of each directory, in order.
pub open spec fn each_write(
    dirs: Seq<Seq<Seq<char>>>,
    leaf: Seq<char>,
    value: Seq<char>,
    kind: WriteKind,
) -> Seq<WriteView> {
    dirs.map_values(|d: Seq<Seq<char>>| WriteView { path: d.push(leaf), value, kind })
}

/// A write of integer `v` to file `leaf` of `dir`, when `v` is present.
pub open spec fn int_write(dir: Seq<Seq<char>>, leaf: Seq<char>, v: Option<i64>, kind: WriteKind) -> Seq<
    WriteView,
> {
    match v {
        Some(x) => seq![WriteView { path: dir.push(leaf), value: int_decimal(x as int), kind }],
        None => Seq::empty(),
    }
}

/// Governor and EPP writes: every governor write first, then the EPP writes,
/// which are left out when the governor is `performance`.
pub open spec fn epp_plan(
    epp: Option<Seq<char>>,
    governor: Option<Seq<char>>,
    policies: Seq<Seq<Seq<char>>>,
) -> Seq<WriteView> {
    if policies.len() == 0 {
        Seq::empty()
    } else {
        (match governor {
            Some(g) => each_write(policies, GOVERNOR_FILE@, g, WriteKind::Retrying),
            None => Seq::empty(),
        }) + (match epp {
            Some(e) => if governor != Some("performance"@) {
                each_write(policies, EPP_FILE@, e, WriteKind::Retrying)
            } else {
                Seq::empty()
            },
            None => Seq::empty(),
        })
    }
}

/// RAPL writes: PL1, then PL2.
pub open spec fn rapl_plan(pkg: Option<Seq<Seq<char>>>, pl1: Option<i64>, pl2: Option<i64>) -> Seq<
    WriteView,
> {
    match pkg {
        Some(p) => int_write(p, PL1_FILE@, pl1, WriteKind::Retrying) + int_write(
            p,
            PL2_FILE@,
            pl2,
            WriteKind::Retrying,
        ),
        None => Seq::empty(),
    }
}

/// GPU writes: maximum, then boost (the boost may not exceed the maximum).
pub open spec fn gpu_plan(card: Option<Seq<Seq<char>>>, max: Option<i64>, boost: Option<i64>) -> Seq<
    WriteView,
> {
    match card {
        Some(c) => int_write(c, GPU_MAX_FILE@, max, WriteKind::Gpu) + int_write(
            c,
            GPU_BOOST_FILE@,
            boost,
            WriteKind::Gpu,
        ),
        None => Seq::empty(),
    }
}

fn write_int(dir: &SysPath, leaf: &str, v: Option<i64>, kind: WriteKind, out: &mut Vec<SysfsWrite>)
    ensures
        writes_view(final(out)@) == writes_view(old(out)@) + int_write(dir@, leaf@, v, kind),
{
    let ghost before = writes_view(out@);
    match v {
        Some(x) => {
            let w = SysfsWrite { path: dir.child(leaf), value: i64_to_decimal(x), kind };
            out.push(w);
            assert(writes_view(out@) =~= before + int_write(dir@, leaf@, v, kind));
        },
        None => {
            assert(writes_view(out@) =~= before + int_write(dir@, leaf@, v, kind));
        },
    }
}

fn write_each(dirs: &Vec<SysPath>, leaf: &str, value: &str, kind: WriteKind, out: &mut Vec<SysfsWrite>)
    ensures
        writes_view(final(out)@) == writes_view(old(out)@) + each_write(
            crate::glob::paths_view(dirs@),
            leaf@,
            value@,
            kind,
        ),
{
    let ghost start = writes_view(out@);
    let ghost ds = crate::glob::paths_view(dirs@);
    let mut i: usize = 0;
    assert(each_write(ds.take(0), leaf@, value@, kind) =~= Seq::<WriteView>::empty());
    assert(start + Seq::<WriteView>::empty() =~= start);
    while i < dirs.len()
        invariant
            ds == crate::glob::paths_view(dirs@),
            i <= dirs.len(),
            writes_view(out@) == start + each_write(ds.take(i as int), leaf@, value@, kind),
        decreases dirs.len() - i,
    {
        let ghost before = writes_view(out@);
        let w = SysfsWrite { path: dirs[i].child(leaf), value: value.to_owned(), kind };
        out.push(w);
        proof {
            assert(ds[i as int] == dirs@[i as int]@);
            assert(each_write(ds.take(i + 1), leaf@, value@, kind) =~= each_write(
                ds.take(i as int),
                leaf@,
                value@,
                kind,
            ).push(WriteView { path: ds[i as int].push(leaf@), value: value@, kind }));
            assert(writes_view(out@) =~= before.push(
                WriteView { path: ds[i as int].push(leaf@), value: value@, kind },
            ));
        }
        i = i + 1;
    }
    assert(ds.take(i as int) =~= ds);
}

/// The governor and EPP writes of a profile, over every CPU policy: governor
/// first; EPP after it, and not at all under the `performance` governor.
pub fn epp_apply(epp: Option<&str>, governor: Option<&str>, policies: &Vec<SysPath>) -> (r: Vec<
    SysfsWrite,
>)
    ensures
        writes_view(r@) == epp_plan(
            match epp {
                Some(e) => Some(e@),
                None => None,
            },
            match governor {
                Some(g) => Some(g@),
                None => None,
            },
            crate::glob::paths_view(policies@),
        ),
{
    let mut out: Vec<SysfsWrite> = Vec::new();
    if policies.len() == 0 {
        assert(writes_view(out@) =~= Seq::<WriteView>::empty());
        return out;
    }
    let ghost g_view: Option<Seq<char>> = match governor {
        Some(g) => Some(g@),
        None => None,
    };
    if let Some(g) = governor {
        write_each(policies, GOVERNOR_FILE, g, WriteKind::Retrying, &mut out);
    }
    let ghost after_gov = writes_view(out@);
    if let Some(e) = epp {
        let skip = match governor {
            Some(g) => str_eq(g, "performance"),
            None => false,
        };
        if !skip {
            write_each(policies, EPP_FILE, e, WriteKind::Retrying, &mut out);
        } else {
            assert(writes_view(out@) =~= after_gov + Seq::<WriteView>::empty());
        }
    } else {
        assert(writes_view(out@) =~= after_gov + Seq::<WriteView>::empty());
    }
    if governor.is_none() {
        assert(writes_view(out@) =~= Seq::<WriteView>::empty() + writes_view(out@));
    }
    out
}

/// The RAPL writes of a profile: PL1, then PL2; nothing without a package.
pub fn rapl_apply(pkg: Option<&SysPath>, pl1_uw: Option<i64>, pl2_uw: Option<i64>) -> (r: Vec<
    SysfsWrite,
>)
    ensures
        writes_view(r@) == rapl_plan(
            match pkg {
                Some(p) => Some(p@),
                None => None,
            },
            pl1_uw,
            pl2_uw,
        ),
{
    let mut out: Vec<SysfsWrite> = Vec::new();
    match pkg {
        Some(p) => {
            write_int(p, PL1_FILE, pl1_uw, WriteKind::Retrying, &mut out);
            write_int(p, PL2_FILE, pl2_uw, WriteKind::Retrying, &mut out);
            assert(writes_view(out@) =~= rapl_plan(Some(p@), pl1_uw, pl2_uw));
        },
        None => {
            assert(writes_view(out@) =~= Seq::<WriteView>::empty());
        },
    }
    out
}

/// The GPU writes of a profile: maximum, then boost; nothing without a card.
pub fn gpu_apply(card: Option<&SysPath>, max_mhz: Option<i64>, boost_mhz: Option<i64>) -> (r: Vec<
    SysfsWrite,
>)
    ensures
        writes_view(r@) == gpu_plan(
            match card {
                Some(c) => Some(c@),
                None => None,
            },
            max_mhz,
            boost_mhz,
        ),
{
    let mut out: Vec<SysfsWrite> = Vec::new();
    match card {
        Some(c) => {
            write_int(c, GPU_MAX_FILE, max_mhz, WriteKind::Gpu, &mut out);
            write_int(c, GPU_BOOST_FILE, boost_mhz, WriteKind::Gpu, &mut out);
            assert(writes_view(out@) =~= gpu_plan(Some(c@), max_mhz, boost_mhz));
        },
        None => {
            assert(writes_view(out@) =~= Seq::<WriteView>::empty());
        },
    }
    out
}

// ------------------------------------------------------------ the write protocol

/// What opening a sysfs file for writing gave.
pub enum OpenOutcome {
    /// Opened; `current` is what reading it gave (`None` if reading failed).
    Opened { current: Option<String> },
    /// Refused for lack of permission (a read-only file).
    Denied,
    /// Failed otherwise, with the OS error number when there is one.
    Failed { errno: Option<i32> },
}

/// What to do next in a write.
#[derive(Clone, Copy, Debug, PartialEq, Eq, Structural)]
pub enum WriteStep {
    /// The file already holds the value: done, successfully.
    Unchanged,
    /// Write the value (followed by a newline) over the file.
    Overwrite,
    /// The value was written: done, successfully.
    Written,
    /// Pause [`RETRY_PAUSE_MS`], then open the file again.
    RetryAfterPause,
    /// A GPU write failed in a way that is let pass: done, nothing written.
    Tolerated,
    /// Give up: the write failed.
    GiveUp,
}

/// Whether a failure with `errno` is retried on the `attempt`-th try
/// (counted from 0): a busy file of a retrying write, three tries in all.
pub open spec fn retries(kind: WriteKind, attempt: u32, errno: Option<i32>) -> bool {
    kind == WriteKind::Retrying && errno == Some(EBUSY) && attempt < 2
}

pub open spec fn write_step_spec(
    kind: WriteKind,
    attempt: u32,
    outcome: OpenOutcome,
    value: Seq<char>,
) -> WriteStep {
    match outcome {
        OpenOutcome::Opened { current } => match current {
            Some(c) => if trimmed(c@) == value {
                WriteStep::Unchanged
            } else {
                WriteStep::Overwrite
            },
            None => WriteStep::Overwrite,
        },
        OpenOutcome::Denied => WriteStep::GiveUp,
        OpenOutcome::Failed { errno } => if retries(kind, attempt, errno) {
            WriteStep::RetryAfterPause
        } else if kind == WriteKind::Gpu && errno == Some(EINVAL) {
            WriteStep::Tolerated
        } else {
            WriteStep::GiveUp
        },
    }
}

fn retries_exec(kind: WriteKind, attempt: u32, errno: &Option<i32>) -> (r: bool)
    ensures
        r == retries(kind, attempt, *errno),
{
    let busy = match errno {
        Some(e) => *e == EBUSY,
        None => false,
    };
    kind == WriteKind::Retrying && busy && attempt < 2
}

/// The next step of writing `value` to a file, once it has been opened (or
/// failed to open) on the `attempt`-th try (counted from 0).
pub fn write_step(kind: WriteKind, attempt: u32, outcome: &OpenOutcome, value: &str) -> (r: WriteStep)
    ensures
        r == write_step_spec(kind, attempt, *outcome, value@),
{
    match outcome {
        OpenOutcome::Opened { current } => match current {
            Some(c) => {
                let t = trim(c.as_str());
                if str_eq(t.as_str(), value) {
                    WriteStep::Unchanged
                } else {
                    WriteStep::Overwrite
                }
            },
            None => WriteStep::Overwrite,
        },
        OpenOutcome::Denied => WriteStep::GiveUp,
        OpenOutcome::Failed { errno } => {
            let invalid = match errno {
                Some(e) => *e == EINVAL,
                None => false,
            };
            if retries_exec(kind, attempt, errno) {
                WriteStep::RetryAfterPause
            } else if kind == WriteKind::Gpu && invalid {
                WriteStep::Tolerated
            } else {
                WriteStep::GiveUp
            }
        },
    }
}

/// What writing the value over an opened file gave.
pub enum WriteOutcome {
    /// The value and its newline were stored.
    Stored,
    /// Writing failed, with the OS error number when there is one.
    Failed { errno: Option<i32> },
}

pub open spec fn after_write_spec(kind: WriteKind, attempt: u32, outcome: WriteOutcome) -> WriteStep {
    match outcome {
        WriteOutcome::Stored => WriteStep::Written,
        WriteOutcome::Failed { errno } => if retries(kind, attempt, errno) {
            WriteStep::RetryAfterPause
        } else if kind == WriteKind::Gpu {
            WriteStep::Tolerated
        } else {
            WriteStep::GiveUp
        },
    }
}

/// The next step after writing over the file on the `attempt`-th try: done
/// when stored; a busy file of a retrying write is tried again, as a busy
/// open is; a failed GPU write is let pass; any other failure ends the write.
pub fn after_write(kind: WriteKind, attempt: u32, outcome: &WriteOutcome) -> (r: WriteStep)
    ensures
        r == after_write_spec(kind, attempt, *outcome),
{
    match outcome {
        WriteOutcome::Stored => WriteStep::Written,
        WriteOutcome::Failed { errno } => {
            if retries_exec(kind, attempt, errno) {
                WriteStep::RetryAfterPause
            } else if kind == WriteKind::Gpu {
                WriteStep::Tolerated
            } else {
                WriteStep::GiveUp
            }
        },
    }
}

/// A write is skipped exactly when the opened file, read as every sysfs value
/// is read (trimmed), already holds the value to write; when it holds
/// anything else, or could not be read, the value is written over it.
pub proof fn lemma_write_skips_only_same_value(
    kind: WriteKind,
    attempt: u32,
    current: Option<String>,
    value: Seq<char>,
)
    ensures
        (write_step_spec(kind, attempt, OpenOutcome::Opened { current }, value)
            == WriteStep::Unchanged) <==> read_value(opt_text(current)) == Some(value),
        read_value(opt_text(current)) != Some(value) ==> write_step_spec(
            kind,
            attempt,
            OpenOutcome::Opened { current },
            value,
        ) == WriteStep::Overwrite,
{
}

/// A write only retries a busy file of a retrying kind, whether the open or
/// the write itself found it busy, and never after the third try: every
/// write ends after at most three attempts. A failed write of a retrying
/// kind never counts as done.
pub proof fn lemma_write_retries_bounded(
    kind: WriteKind,
    attempt: u32,
    outcome: OpenOutcome,
    written: WriteOutcome,
    value: Seq<char>,
)
    ensures
        write_step_spec(kind, attempt, outcome, value) == WriteStep::RetryAfterPause ==> {
            &&& kind == WriteKind::Retrying
            &&& attempt < 2
            &&& outcome matches OpenOutcome::Failed { errno } && errno == Some(EBUSY)
        },
        after_write_spec(kind, attempt, written) == WriteStep::RetryAfterPause ==> {
            &&& kind == WriteKind::Retrying
            &&& attempt < 2
            &&& written matches WriteOutcome::Failed { errno } && errno == Some(EBUSY)
        },
        kind == WriteKind::Retrying && written is Failed ==> after_write_spec(kind, attempt, written)
            != WriteStep::Written && after_write_spec(kind, attempt, written) != WriteStep::Tolerated,
{
}

// ------------------------------------------------------------ RAPL

/// Index of the first package whose `name` reads `package-0`, or `names.len()`.
pub open spec fn package_index(names: Seq<Option<Seq<char>>>, i: int) -> int
    decreases names.len() - i,
{
    if i >= names.len() {
        names.len() as int
    } else if read_value(names[i]) == Some(RAPL_PACKAGE_NAME@) {
        i
    } else {
        package_index(names, i + 1)
    }
}

pub open spec fn texts_view(v: Seq<Option<String>>) -> Seq<Option<Seq<char>>> {
    v.map_values(|o: Option<String>| opt_text(o))
}

/// The RAPL walk: the powercap zones `intel-rapl:*`.
pub fn rapl_packages() -> (r: GlobWalk)
    ensures
        r.segments() == pattern_segments(RAPL_PKG_GLOB@),
        r.walked() == 0,
        r.found() == seq![Seq::<Seq<char>>::empty()],
{
    GlobWalk::new(RAPL_PKG_GLOB)
}

/// The RAPL package: the first zone named `package-0`, else the first zone.
/// `names[i]` is the raw contents of the `name` file of `pkgs[i]`.
pub fn rapl_discover(pkgs: &Vec<SysPath>, names: &Vec<Option<String>>) -> (r: Option<SysPath>)
    requires
        names.len() == pkgs.len(),
    ensures
        ({
            let k = package_index(texts_view(names@), 0);
            match r {
                Some(p) => if k < pkgs.len() {
                    p@ == pkgs@[k]@
                } else {
                    pkgs.len() > 0 && p@ == pkgs@[0]@
                },
                None => pkgs.len() == 0,
            }
        }),
{
    let ghost nv = texts_view(names@);
    let mut i: usize = 0;
    while i < pkgs.len()
        invariant
            names.len() == pkgs.len(),
            nv == texts_view(names@),
            i <= pkgs.len(),
            package_index(nv, 0) == package_index(nv, i as int),
        decreases pkgs.len() - i,
    {
        let name = read_str(&names[i]);
        assert(nv[i as int] == opt_text(names@[i as int]));
        let hit = match &name {
            Some(n) => str_eq(n.as_str(), RAPL_PACKAGE_NAME),
            None => false,
        };
        if hit {
            return Some(pkgs[i].duplicate());
        }
        i = i + 1;
    }
    if pkgs.len() > 0 {
        Some(pkgs[0].duplicate())
    } else {
        None
    }
}

/// The raw contents of a RAPL package's constraint files.
pub struct RaplReadings {
    pub pl1: Option<String>,
    pub pl2: Option<String>,
    pub pl1_max: Option<String>,
    pub pl2_max: Option<String>,
}

/// RAPL package power limits and their maxima, in microwatts.
#[derive(Clone, Debug)]
pub struct RaplConstraints {
    pub pkg: Option<SysPath>,
    pub pl1_uw: Option<i64>,
    pub pl2_uw: Option<i64>,
    pub pl1_max_uw: Option<i64>,
    pub pl2_max_uw: Option<i64>,
}

impl Default for RaplConstraints {
    /// No package and no limits.
    fn default() -> (r: RaplConstraints)
        ensures
            r.pkg is None && r.pl1_uw is None && r.pl2_uw is None && r.pl1_max_uw is None
                && r.pl2_max_uw is None,
    {
        RaplConstraints { pkg: None, pl1_uw: None, pl2_uw: None, pl1_max_uw: None, pl2_max_uw: None }
    }
}

/// The constraints of package `pkg`, from the raw contents of its files; all
/// absent without a package.
pub fn rapl_read(pkg: Option<SysPath>, readings: &RaplReadings) -> (r: RaplConstraints)
    ensures
        opt_path(r.pkg) == opt_path(pkg),
        pkg is None ==> r.pl1_uw is None && r.pl2_uw is None && r.pl1_max_uw is None
            && r.pl2_max_uw is None,
        pkg is Some ==> {
            &&& r.pl1_uw == read_int(opt_text(readings.pl1))
            &&& r.pl2_uw == read_int(opt_text(readings.pl2))
            &&& r.pl1_max_uw == read_int(opt_text(readings.pl1_max))
            &&& r.pl2_max_uw == read_int(opt_text(readings.pl2_max))
        },
{
    match pkg {
        None => RaplConstraints {
            pkg: None,
            pl1_uw: None,
            pl2_uw: None,
            pl1_max_uw: None,
            pl2_max_uw: None,
        },
        Some(p) => RaplConstraints {
            pkg: Some(p),
            pl1_uw: read_int_value(&readings.pl1),
            pl2_uw: read_int_value(&readings.pl2),
            pl1_max_uw: read_int_value(&readings.pl1_max),
            pl2_max_uw: read_int_value(&readings.pl2_max),
        },
    }
}

// ------------------------------------------------------------ CPU policies

/// The CPU policy walk: the `cpufreq/policy*` directories.
pub fn cpu_policies() -> (r: GlobWalk)
    ensures
        r.segments() == pattern_segments(CPU_POLICY_GLOB@),
        r.walked() == 0,
        r.found() == seq![Seq::<Seq<char>>::empty()],
{
    GlobWalk::new(CPU_POLICY_GLOB)
}

/// EPP and governor, as the first CPU policy reports them; both absent without
/// a policy. `epp_raw` and `governor_raw` are that policy's raw file contents.
pub fn epp_read(policies: &Vec<SysPath>, epp_raw: &Option<String>, governor_raw: &Option<String>) -> (r: (
    Option<String>,
    Option<String>,
))
    ensures
        policies.len() == 0 ==> r.0 is None && r.1 is None,
        policies.len() > 0 ==> opt_text(r.0) == read_value(opt_text(*epp_raw)) && opt_text(r.1)
            == read_value(opt_text(*governor_raw)),
{
    if policies.len() == 0 {
        (None, None)
    } else {
        (read_str(epp_raw), read_str(governor_raw))
    }
}

/// The highest current frequency over all policies, in kHz: the largest value
/// that reads as an integer, if it is positive.
pub open spec fn best_khz(vals: Seq<Option<i64>>) -> i64
    decreases vals.len(),
{
    if vals.len() == 0 {
        0
    } else {
        let b = best_khz(vals.drop_last());
        match vals.last() {
            Some(v) => if v > b {
                v
            } else {
                b
            },
            None => b,
        }
    }
}

pub open spec fn ints_view(v: Seq<Option<String>>) -> Seq<Option<i64>> {
    v.map_values(|o: Option<String>| read_int(opt_text(o)))
}

/// The highest `scaling_cur_freq` over the CPU policies, `None` when no
/// positive value is read. `raws` are the raw file contents, one per policy.
pub fn cpu_max_freq_khz(raws: &Vec<Option<String>>) -> (r: Option<i64>)
    ensures
        r == (if best_khz(ints_view(raws@)) > 0 {
            Some(best_khz(ints_view(raws@)))
        } else {
            None
        }),
{
    let ghost vals = ints_view(raws@);
    let mut best: i64 = 0;
    let mut i: usize = 0;
    assert(vals.take(0) =~= Seq::<Option<i64>>::empty());
    while i < raws.len()
        invariant
            vals == ints_view(raws@),
            i <= raws.len(),
            best == best_khz(vals.take(i as int)),
        decreases raws.len() - i,
    {
        let v = read_int_value(&raws[i]);
        proof {
            assert(vals.take(i + 1).drop_last() =~= vals.take(i as int));
            assert(vals.take(i + 1).last() == vals[i as int]);
        }
        if let Some(x) = v {
            if x > best {
                best = x;
            }
        }
        i = i + 1;
    }
    assert(vals.take(i as int) =~= vals);
    if best > 0 {
        Some(best)
    } else {
        None
    }
}

/// The best frequency is at least every frequency read, and is one of them
/// unless none is positive.
pub proof fn lemma_best_khz(vals: Seq<Option<i64>>)
    ensures
        best_khz(vals) >= 0,
        forall|i: int| 0 <= i < vals.len() && (#[trigger] vals[i]) is Some ==> vals[i]->0 <= best_khz(vals),
        best_khz(vals) > 0 ==> exists|i: int| 0 <= i < vals.len() && #[trigger] vals[i] == Some(best_khz(vals)),
    decreases vals.len(),
{
    if vals.len() > 0 {
        let rest = vals.drop_last();
        lemma_best_khz(rest);
        assert forall|i: int| 0 <= i < vals.len() && (#[trigger] vals[i]) is Some implies vals[i]->0
            <= best_khz(vals) by {
            if i < vals.len() - 1 {
                assert(vals[i] == rest[i]);
            }
        }
        if best_khz(vals) > 0 {
            if best_khz(vals) != best_khz(rest) {
                assert(vals[vals.len() - 1] == Some(best_khz(vals)));
            } else {
                let i = choose|i: int| 0 <= i < rest.len() && #[trigger] rest[i] == Some(best_khz(rest));
                assert(vals[i] == rest[i]);
            }
        }
    }
}

// ------------------------------------------------------------ GPU

/// The i915 walk: the cards' `gt_max_freq_mhz` files.
pub fn i915_cards() -> (r: GlobWalk)
    ensures
        r.segments() == pattern_segments(I915_CARD_GLOB@),
        r.walked() == 0,
        r.found() == seq![Seq::<Seq<char>>::empty()],
{
    GlobWalk::new(I915_CARD_GLOB)
}

/// The i915 card directory: the one holding the first `gt_max_freq_mhz` found.
pub fn i915_card_dir(max_files: &Vec<SysPath>) -> (r: Option<SysPath>)
    ensures
        match r {
            Some(d) => max_files.len() > 0 && max_files@[0]@.len() > 0 && d@
                == max_files@[0]@.drop_last(),
            None => max_files.len() == 0 || max_files@[0]@.len() == 0,
        },
{
    if max_files.len() == 0 {
        None
    } else {
        max_files[0].parent()
    }
}

/// The raw contents of an i915 card's frequency files.
pub struct GpuReadings {
    pub rp0: Option<String>,
    pub rp1: Option<String>,
    pub rpn: Option<String>,
    pub max: Option<String>,
    pub boost: Option<String>,
    pub cur: Option<String>,
}

/// i915 frequencies in MHz: hardware limits RP0/RP1/RPn, the configured
/// maximum and boost, and the current frequency.
#[derive(Clone, Debug)]
pub struct GpuBounds {
    pub rp0: Option<i64>,
    pub rp1: Option<i64>,
    pub rpn: Option<i64>,
    pub max: Option<i64>,
    pub boost: Option<i64>,
    pub cur: Option<i64>,
}

impl Default for GpuBounds {
    fn default() -> (r: GpuBounds)
        ensures
            r.rp0 is None && r.rp1 is None && r.rpn is None && r.max is None && r.boost is None
                && r.cur is None,
    {
        GpuBounds { rp0: None, rp1: None, rpn: None, max: None, boost: None, cur: None }
    }
}

/// The frequencies of `card`, from its raw file contents; all absent without
/// a card.
pub fn gpu_read_bounds(card: Option<&SysPath>, readings: &GpuReadings) -> (r: GpuBounds)
    ensures
        card is None ==> r.rp0 is None && r.rp1 is None && r.rpn is None && r.max is None
            && r.boost is None && r.cur is None,
        card is Some ==> {
            &&& r.rp0 == read_int(opt_text(readings.rp0))
            &&& r.rp1 == read_int(opt_text(readings.rp1))
            &&& r.rpn == read_int(opt_text(readings.rpn))
            &&& r.max == read_int(opt_text(readings.max))
            &&& r.boost == read_int(opt_text(readings.boost))
            &&& r.cur == read_int(opt_text(readings.cur))
        },
{
    match card {
        None => GpuBounds::default(),
        Some(_) => GpuBounds {
            rp0: read_int_value(&readings.rp0),
            rp1: read_int_value(&readings.rp1),
            rpn: read_int_value(&readings.rpn),
            max: read_int_value(&readings.max),
            boost: read_int_value(&readings.boost),
            cur: read_int_value(&readings.cur),
        },
    }
}

// ------------------------------------------------------------ temperatures

/// An acer-wmi temperature file and its raw contents.
pub struct AcerTempReading {
    pub file: SysPath,
    pub raw: Option<String>,
}

/// A hwmon `temp1_input` file, its raw contents and those of the `name` file
/// beside it.
pub struct HwmonTempReading {
    pub file: SysPath,
    pub raw: Option<String>,
    pub name_raw: Option<String>,
}

/// The acer-wmi temperature walk.
pub fn acer_temp_files() -> (r: GlobWalk)
    ensures
        r.segments() == pattern_segments(ACER_TEMP_GLOB@),
        r.walked() == 0,
        r.found() == seq![Seq::<Seq<char>>::empty()],
{
    GlobWalk::new(ACER_TEMP_GLOB)
}

/// The hwmon temperature walk.
pub fn hwmon_temp_files() -> (r: GlobWalk)
    ensures
        r.segments() == pattern_segments(HWMON_TEMP_GLOB@),
        r.walked() == 0,
        r.found() == seq![Seq::<Seq<char>>::empty()],
{
    GlobWalk::new(HWMON_TEMP_GLOB)
}

/// The `name` file beside a hwmon temperature file (below `/` for the root).
pub fn hwmon_name_path(file: &SysPath) -> (r: SysPath)
    ensures
        r@ == (if file@.len() > 0 {
            file@.drop_last()
        } else {
            Seq::empty()
        }).push(HWMON_NAME_FILE@),
{
    match file.parent() {
        Some(p) => p.child(HWMON_NAME_FILE),
        None => SysPath::root().child(HWMON_NAME_FILE),
    }
}

pub open spec fn last_or_empty(p: Seq<Seq<char>>) -> Seq<char> {
    if p.len() > 0 {
        p.last()
    } else {
        Seq::empty()
    }
}

/// acer-wmi readings: labelled `acer_<file name>`, an unreadable value as 0.
pub open spec fn acer_temps(files: Seq<Seq<Seq<char>>>, raws: Seq<Option<Seq<char>>>) -> Seq<
    (Seq<char>, i64),
>
    decreases files.len(),
{
    if files.len() == 0 {
        Seq::empty()
    } else {
        let v = match read_int(raws.last()) {
            Some(t) => t,
            None => 0,
        };
        acer_temps(files.drop_last(), raws.drop_last()).push(
            ("acer_"@ + last_or_empty(files.last()), v),
        )
    }
}

/// hwmon readings: labelled by the sensor's `name` (`hwmon` when missing);
/// unreadable values are left out.
pub open spec fn hwmon_temps(raws: Seq<Option<Seq<char>>>, names: Seq<Option<Seq<char>>>) -> Seq<
    (Seq<char>, i64),
>
    decreases raws.len(),
{
    if raws.len() == 0 {
        Seq::empty()
    } else {
        let rest = hwmon_temps(raws.drop_last(), names.drop_last());
        match read_int(raws.last()) {
            Some(t) => rest.push(
                (
                    match read_value(names.last()) {
                        Some(n) => n,
                        None => "hwmon"@,
                    },
                    t,
                ),
            ),
            None => rest,
        }
    }
}

pub open spec fn labels_view(v: Seq<(String, i64)>) -> Seq<(Seq<char>, i64)> {
    v.map_values(|e: (String, i64)| (e.0@, e.1))
}

fn acer_label(file: &SysPath) -> (r: String)
    ensures
        r@ == "acer_"@ + last_or_empty(file@),
{
    let mut s = "acer_".to_owned();
    match file.file_name() {
        Some(n) => {
            s.append(n.as_str());
        },
        None => {
            assert("acer_"@ + last_or_empty(file@) =~= "acer_"@);
        },
    }
    s
}

/// Temperatures in millidegrees Celsius: the acer-wmi sensors, then hwmon.
pub fn temps_read(acer: &Vec<AcerTempReading>, hwmon: &Vec<HwmonTempReading>) -> (r: Vec<(String, i64)>)
    ensures
        labels_view(r@) == acer_temps(
            acer@.map_values(|a: AcerTempReading| a.file@),
            acer@.map_values(|a: AcerTempReading| opt_text(a.raw)),
        ) + hwmon_temps(
            hwmon@.map_values(|h: HwmonTempReading| opt_text(h.raw)),
            hwmon@.map_values(|h: HwmonTempReading| opt_text(h.name_raw)),
        ),
{
    let ghost af = acer@.map_values(|a: AcerTempReading| a.file@);
    let ghost ar = acer@.map_values(|a: AcerTempReading| opt_text(a.raw));
    let ghost hr = hwmon@.map_values(|h: HwmonTempReading| opt_text(h.raw));
    let ghost hn = hwmon@.map_values(|h: HwmonTempReading| opt_text(h.name_raw));
    let mut out: Vec<(String, i64)> = Vec::new();
    let mut i: usize = 0;
    assert(af.take(0) =~= Seq::<Seq<Seq<char>>>::empty());
    while i < acer.len()
        invariant
            af == acer@.map_values(|a: AcerTempReading| a.file@),
            ar == acer@.map_values(|a: AcerTempReading| opt_text(a.raw)),
            i <= acer.len(),
            labels_view(out@) == acer_temps(af.take(i as int), ar.take(i as int)),
        decreases acer.len() - i,
    {
        let ghost before = labels_view(out@);
        let label = acer_label(&acer[i].file);
        let t = match read_int_value(&acer[i].raw) {
            Some(v) => v,
            None => 0,
        };
        out.push((label, t));
        proof {
            assert(af.take(i + 1).drop_last() =~= af.take(i as int));
            assert(ar.take(i + 1).drop_last() =~= ar.take(i as int));
            assert(af.take(i + 1).last() == acer@[i as int].file@);
            assert(ar.take(i + 1).last() == opt_text(acer@[i as int].raw));
            assert(labels_view(out@) =~= before.push(("acer_"@ + last_or_empty(af[i as int]), t)));
        }
        i = i + 1;
    }
    assert(af.take(i as int) =~= af);
    assert(ar.take(i as int) =~= ar);
    let ghost acer_part = labels_view(out@);
    let mut j: usize = 0;
    assert(hr.take(0) =~= Seq::<Option<Seq<char>>>::empty());
    assert(acer_part + hwmon_temps(hr.take(0), hn.take(0)) =~= acer_part);
    while j < hwmon.len()
        invariant
            hr == hwmon@.map_values(|h: HwmonTempReading| opt_text(h.raw)),
            hn == hwmon@.map_values(|h: HwmonTempReading| opt_text(h.name_raw)),
            j <= hwmon.len(),
            labels_view(out@) == acer_part + hwmon_temps(hr.take(j as int), hn.take(j as int)),
        decreases hwmon.len() - j,
    {
        let ghost before = labels_view(out@);
        proof {
            assert(hr.take(j + 1).drop_last() =~= hr.take(j as int));
            assert(hn.take(j + 1).drop_last() =~= hn.take(j as int));
            assert(hr.take(j + 1).last() == opt_text(hwmon@[j as int].raw));
            assert(hn.take(j + 1).last() == opt_text(hwmon@[j as int].name_raw));
        }
        if let Some(t) = read_int_value(&hwmon[j].raw) {
            let name = match read_str(&hwmon[j].name_raw) {
                Some(n) => n,
                None => "hwmon".to_owned(),
            };
            out.push((name, t));
            assert(labels_view(out@) =~= before.push((name@, t)));
        }
        j = j + 1;
    }
    assert(hr.take(j as int) =~= hr);
    assert(hn.take(j as int) =~= hn);
    out
}

// ------------------------------------------------------------ the whole picture

/// What `status` reports: the levers as they stand and the readouts.
#[derive(Debug)]
pub struct Status {
    pub rapl: Option<RaplConstraints>,
    pub epp: Option<String>,
    pub governor: Option<String>,
    pub gpu: GpuBounds,
    pub temps: Vec<(String, i64)>,
    pub cpu_freq_khz: Option<i64>,
}

impl Default for Status {
    /// A report with nothing found and nothing read.
    fn default() -> (r: Status)
        ensures
            r.rapl is None && r.epp is None && r.governor is None && r.temps@.len() == 0
                && r.cpu_freq_khz is None,
            r.gpu.rp0 is None && r.gpu.rp1 is None && r.gpu.rpn is None && r.gpu.max is None
                && r.gpu.boost is None && r.gpu.cur is None,
    {
        Status {
            rapl: None,
            epp: None,
            governor: None,
            gpu: GpuBounds::default(),
            temps: Vec::new(),
            cpu_freq_khz: None,
        }
    }
}

/// Gathers a status report; RAPL is reported only when a package was found.
pub fn status(
    epp_governor: (Option<String>, Option<String>),
    rapl: RaplConstraints,
    gpu: GpuBounds,
    temps: Vec<(String, i64)>,
    cpu_freq_khz: Option<i64>,
) -> (r: Status)
    ensures
        r.rapl is Some <==> rapl.pkg is Some,
        r.rapl matches Some(x) ==> x == rapl,
        r.epp == epp_governor.0,
        r.governor == epp_governor.1,
        r.gpu == gpu,
        r.temps == temps,
        r.cpu_freq_khz == cpu_freq_khz,
{
    let (epp, governor) = epp_governor;
    let rapl = if rapl.pkg.is_none() {
        None
    } else {
        Some(rapl)
    };
    Status { rapl, epp, governor, gpu, temps, cpu_freq_khz }
}

// ------------------------------------------------------------ discovered levers

/// The lever locations found on this machine.
pub struct Levers {
    pub rapl_pkg: Option<SysPath>,
    pub policies: Vec<SysPath>,
    pub gpu_card: Option<SysPath>,
}

/// Every write of a profile, in order: governor, EPP, RAPL, GPU.
pub open spec fn profile_plan(
    p: ProfileView,
    rapl_pkg: Option<Seq<Seq<char>>>,
    policies: Seq<Seq<Seq<char>>>,
    gpu_card: Option<Seq<Seq<char>>>,
) -> Seq<WriteView> {
    epp_plan(p.epp, p.governor, policies) + rapl_plan(rapl_pkg, p.pl1_uw, p.pl2_uw) + gpu_plan(
        gpu_card,
        p.gpu_max_mhz,
        p.gpu_boost_mhz,
    )
}

pub open spec fn levers_plan(p: ProfileView, l: Levers) -> Seq<WriteView> {
    profile_plan(p, opt_path(l.rapl_pkg), crate::glob::paths_view(l.policies@), opt_path(l.gpu_card))
}

// ------------------------------------------------------------ laws of the plan

/// The place of a lever file in the write order.
pub open spec fn lever_rank(leaf: Seq<char>) -> int {
    if leaf == GOVERNOR_FILE@ {
        0
    } else if leaf == EPP_FILE@ {
        1
    } else if leaf == PL1_FILE@ {
        2
    } else if leaf == PL2_FILE@ {
        3
    } else if leaf == GPU_MAX_FILE@ {
        4
    } else if leaf == GPU_BOOST_FILE@ {
        5
    } else {
        6
    }
}

proof fn lemma_lever_files_distinct()
    ensures
        lever_rank(GOVERNOR_FILE@) == 0,
        lever_rank(EPP_FILE@) == 1,
        lever_rank(PL1_FILE@) == 2,
        lever_rank(PL2_FILE@) == 3,
        lever_rank(GPU_MAX_FILE@) == 4,
        lever_rank(GPU_BOOST_FILE@) == 5,
{
    reveal_strlit("scaling_governor");
    reveal_strlit("energy_performance_preference");
    reveal_strlit("constraint_0_power_limit_uw");
    reveal_strlit("constraint_1_power_limit_uw");
    reveal_strlit("gt_max_freq_mhz");
    reveal_strlit("gt_boost_freq_mhz");
    assert(GOVERNOR_FILE@.len() == 16);
    assert(EPP_FILE@.len() == 29);
    assert(PL1_FILE@.len() == 27);
    assert(PL2_FILE@.len() == 27);
    assert(GPU_MAX_FILE@.len() == 15);
    assert(GPU_BOOST_FILE@.len() == 17);
    assert(PL1_FILE@[11] == '0');
    assert(PL2_FILE@[11] == '1');
}

pub open spec fn ranks_ordered(w: Seq<WriteView>) -> bool {
    forall|i: int, j: int|
        0 <= i < j < w.len() ==> lever_rank((#[trigger] w[i]).path.last()) <= lever_rank(
            (#[trigger] w[j]).path.last(),
        )
}

pub open spec fn all_rank(w: Seq<WriteView>, k: int) -> bool {
    forall|i: int| 0 <= i < w.len() ==> lever_rank((#[trigger] w[i]).path.last()) == k
}

proof fn lemma_each_write_rank(dirs: Seq<Seq<Seq<char>>>, leaf: Seq<char>, value: Seq<char>, kind: WriteKind)
    ensures
        forall|i: int|
            0 <= i < each_write(dirs, leaf, value, kind).len() ==> (#[trigger] each_write(
                dirs,
                leaf,
                value,
                kind,
            )[i]).path.last() == leaf,
{
}

proof fn lemma_concat_ranks(a: Seq<WriteView>, b: Seq<WriteView>, ka: int, kb: int)
    requires
        forall|i: int| 0 <= i < a.len() ==> lever_rank((#[trigger] a[i]).path.last()) <= ka,
        forall|i: int| 0 <= i < b.len() ==> lever_rank((#[trigger] b[i]).path.last()) >= kb,
        ka <= kb,
        ranks_ordered(a),
        ranks_ordered(b),
    ensures
        ranks_ordered(a + b),
{
    assert forall|i: int, j: int| 0 <= i < j < (a + b).len() implies lever_rank(
        (#[trigger] (a + b)[i]).path.last(),
    ) <= lever_rank((#[trigger] (a + b)[j]).path.last()) by {
        if j < a.len() {
            assert((a + b)[i] == a[i]);
            assert((a + b)[j] == a[j]);
        } else if i >= a.len() {
            assert((a + b)[i] == b[i - a.len()]);
            assert((a + b)[j] == b[j - a.len()]);
        } else {
            assert((a + b)[i] == a[i]);
            assert((a + b)[j] == b[j - a.len()]);
        }
    }
}

/// The writes of a profile come lever by lever: every governor write before
/// every EPP write, those before the RAPL writes (PL1 before PL2), and those
/// before the GPU writes (maximum before boost).
pub proof fn lemma_plan_order(
    p: ProfileView,
    rapl_pkg: Option<Seq<Seq<char>>>,
    policies: Seq<Seq<Seq<char>>>,
    gpu_card: Option<Seq<Seq<char>>>,
)
    ensures
        ranks_ordered(profile_plan(p, rapl_pkg, policies, gpu_card)),
{
    lemma_lever_files_distinct();
    let gov = match p.governor {
        Some(g) => each_write(policies, GOVERNOR_FILE@, g, WriteKind::Retrying),
        None => Seq::<WriteView>::empty(),
    };
    let epp = match p.epp {
        Some(e) => if p.governor != Some("performance"@) {
            each_write(policies, EPP_FILE@, e, WriteKind::Retrying)
        } else {
            Seq::<WriteView>::empty()
        },
        None => Seq::<WriteView>::empty(),
    };
    if let Some(g) = p.governor {
        lemma_each_write_rank(policies, GOVERNOR_FILE@, g, WriteKind::Retrying);
    }
    if let Some(e) = p.epp {
        lemma_each_write_rank(policies, EPP_FILE@, e, WriteKind::Retrying);
    }
    assert(ranks_ordered(gov));
    assert(ranks_ordered(epp));
    lemma_concat_ranks(gov, epp, 0, 1);
    let e = epp_plan(p.epp, p.governor, policies);
    if policies.len() > 0 {
        assert(e == gov + epp);
    } else {
        assert(e =~= Seq::<WriteView>::empty());
    }
    assert forall|i: int| 0 <= i < e.len() implies lever_rank((#[trigger] e[i]).path.last()) <= 1 by {
        if policies.len() > 0 {
            if i < gov.len() {
                assert(e[i] == gov[i]);
            } else {
                assert(e[i] == epp[i - gov.len()]);
            }
        }
    }
    let r = rapl_plan(rapl_pkg, p.pl1_uw, p.pl2_uw);
    let g = gpu_plan(gpu_card, p.gpu_max_mhz, p.gpu_boost_mhz);
    assert(ranks_ordered(r));
    assert(ranks_ordered(g));
    assert forall|i: int| 0 <= i < r.len() implies 2 <= lever_rank((#[trigger] r[i]).path.last())
        <= 3 by {}
    assert forall|i: int| 0 <= i < g.len() implies lever_rank((#[trigger] g[i]).path.last()) >= 4 by {}
    lemma_concat_ranks(e, r, 1, 2);
    assert forall|i: int| 0 <= i < (e + r).len() implies lever_rank(
        (#[trigger] (e + r)[i]).path.last(),
    ) <= 3 by {
        if i < e.len() {
            assert((e + r)[i] == e[i]);
        } else {
            assert((e + r)[i] == r[i - e.len()]);
        }
    }
    lemma_concat_ranks(e + r, g, 3, 4);
}

/// Under the `performance` governor no EPP write is made.
pub proof fn lemma_performance_skips_epp(
    p: ProfileView,
    rapl_pkg: Option<Seq<Seq<char>>>,
    policies: Seq<Seq<Seq<char>>>,
    gpu_card: Option<Seq<Seq<char>>>,
)
    requires
        p.governor == Some("performance"@),
    ensures
        forall|i: int|
            0 <= i < profile_plan(p, rapl_pkg, policies, gpu_card).len() ==> (#[trigger] profile_plan(
                p,
                rapl_pkg,
                policies,
                gpu_card,
            )[i]).path.last() != EPP_FILE@,
{
    lemma_plan_order(p, rapl_pkg, policies, gpu_card);
    lemma_lever_files_distinct();
    let plan = profile_plan(p, rapl_pkg, policies, gpu_card);
    let e = epp_plan(p.epp, p.governor, policies);
    let r = rapl_plan(rapl_pkg, p.pl1_uw, p.pl2_uw);
    let g = gpu_plan(gpu_card, p.gpu_max_mhz, p.gpu_boost_mhz);
    lemma_each_write_rank(policies, GOVERNOR_FILE@, p.governor->0, WriteKind::Retrying);
    assert forall|i: int| 0 <= i < plan.len() implies (#[trigger] plan[i]).path.last() != EPP_FILE@ by {
        if i < e.len() {
            assert(plan[i] == (e + r)[i]);
            assert((e + r)[i] == e[i]);
            if policies.len() > 0 {
                assert(e =~= each_write(policies, GOVERNOR_FILE@, p.governor->0, WriteKind::Retrying)
                    + Seq::<WriteView>::empty());
            }
        } else if i < e.len() + r.len() {
            assert(plan[i] == (e + r)[i]);
            assert((e + r)[i] == r[i - e.len()]);
        } else {
            assert(plan[i] == g[i - (e + r).len()]);
        }
    }
}

// ------------------------------------------------------------ the files read

/// The files a RAPL package's limits are read from.
pub struct RaplFiles {
    pub pl1: SysPath,
    pub pl2: SysPath,
    pub pl1_max: SysPath,
    pub pl2_max: SysPath,
}

/// The files of package `pkg` that `rapl_read` takes its readings from: the
/// same PL1 and PL2 files the RAPL writes go to.
pub fn rapl_files(pkg: &SysPath) -> (r: RaplFiles)
    ensures
        r.pl1@ == pkg@.push(PL1_FILE@),
        r.pl2@ == pkg@.push(PL2_FILE@),
        r.pl1_max@ == pkg@.push(PL1_MAX_FILE@),
        r.pl2_max@ == pkg@.push(PL2_MAX_FILE@),
{
    RaplFiles {
        pl1: pkg.child(PL1_FILE),
        pl2: pkg.child(PL2_FILE),
        pl1_max: pkg.child(PL1_MAX_FILE),
        pl2_max: pkg.child(PL2_MAX_FILE),
    }
}

/// The files an i915 card's frequencies are read from.
pub struct GpuFiles {
    pub rp0: SysPath,
    pub rp1: SysPath,
    pub rpn: SysPath,
    pub max: SysPath,
    pub boost: SysPath,
    pub cur: SysPath,
}

/// The files of card `card` that `gpu_read_bounds` takes its readings from:
/// the maximum and boost files are those the GPU writes go to.
pub fn gpu_files(card: &SysPath) -> (r: GpuFiles)
    ensures
        r.rp0@ == card@.push(GPU_RP0_FILE@),
        r.rp1@ == card@.push(GPU_RP1_FILE@),
        r.rpn@ == card@.push(GPU_RPN_FILE@),
        r.max@ == card@.push(GPU_MAX_FILE@),
        r.boost@ == card@.push(GPU_BOOST_FILE@),
        r.cur@ == card@.push(GPU_CUR_FILE@),
{
    GpuFiles {
        rp0: card.child(GPU_RP0_FILE),
        rp1: card.child(GPU_RP1_FILE),
        rpn: card.child(GPU_RPN_FILE),
        max: card.child(GPU_MAX_FILE),
        boost: card.child(GPU_BOOST_FILE),
        cur: card.child(GPU_CUR_FILE),
    }
}

/// The files of a CPU policy that are read: EPP and governor (for
/// `epp_read`, of the first policy) and the current frequency (for
/// `cpu_max_freq_khz`, of every policy).
pub struct PolicyFiles {
    pub epp: SysPath,
    pub governor: SysPath,
    pub cur_freq: SysPath,
}

pub fn policy_files(policy: &SysPath) -> (r: PolicyFiles)
    ensures
        r.epp@ == policy@.push(EPP_FILE@),
        r.governor@ == policy@.push(GOVERNOR_FILE@),
        r.cur_freq@ == policy@.push(CUR_FREQ_FILE@),
{
    PolicyFiles {
        epp: policy.child(EPP_FILE),
        governor: policy.child(GOVERNOR_FILE),
        cur_freq: policy.child(CUR_FREQ_FILE),
    }
}

/// What file `path` holds after the writes of `plan`, as far as they tell:
/// the value of the last write to it and its newline, `None` when no write
/// goes to it.
pub open spec fn last_stored(plan: Seq<WriteView>, path: Seq<Seq<char>>) -> Option<Seq<char>>
    decreases plan.len(),
{
    if plan.len() == 0 {
        None
    } else if plan.last().path == path {
        Some(plan.last().value.push('\n'))
    } else {
        last_stored(plan.drop_last(), path)
    }
}

proof fn lemma_last_stored_concat(a: Seq<WriteView>, b: Seq<WriteView>, path: Seq<Seq<char>>)
    ensures
        last_stored(a + b, path) == (if last_stored(b, path) is Some {
            last_stored(b, path)
        } else {
            last_stored(a, path)
        }),
    decreases b.len(),
{
    if b.len() == 0 {
        assert(a + b =~= a);
    } else {
        assert((a + b).drop_last() =~= a + b.drop_last());
        assert((a + b).last() == b.last());
        lemma_last_stored_concat(a, b.drop_last(), path);
    }
}

/// No write of `plan` goes to a file named like the last component of `path`.
proof fn lemma_last_stored_other_leaf(plan: Seq<WriteView>, path: Seq<Seq<char>>)
    requires
        path.len() > 0,
        forall|i: int| 0 <= i < plan.len() ==> (#[trigger] plan[i]).path.len() > 0 && plan[i].path.last()
            != path.last(),
    ensures
        last_stored(plan, path) is None,
    decreases plan.len(),
{
    if plan.len() > 0 {
        assert(plan[plan.len() - 1].path.last() != path.last());
        assert(plan.drop_last().len() == plan.len() - 1);
        assert forall|i: int| 0 <= i < plan.drop_last().len() implies (#[trigger] plan.drop_last()[i]).path.len()
            > 0 && plan.drop_last()[i].path.last() != path.last() by {
            assert(plan.drop_last()[i] == plan[i]);
        }
        lemma_last_stored_other_leaf(plan.drop_last(), path);
    }
}

/// The same value written to `leaf` of every directory: each of those files
/// holds that value.
proof fn lemma_last_stored_each(
    dirs: Seq<Seq<Seq<char>>>,
    leaf: Seq<char>,
    value: Seq<char>,
    kind: WriteKind,
    k: int,
)
    requires
        0 <= k < dirs.len(),
    ensures
        last_stored(each_write(dirs, leaf, value, kind), dirs[k].push(leaf)) == Some(value.push('\n')),
    decreases dirs.len(),
{
    let w = each_write(dirs, leaf, value, kind);
    let path = dirs[k].push(leaf);
    assert(w.drop_last() =~= each_write(dirs.drop_last(), leaf, value, kind));
    if w.last().path != path {
        assert(k < dirs.len() - 1);
        lemma_last_stored_each(dirs.drop_last(), leaf, value, kind, k);
    }
}

/// Write, then read back: after the writes of a profile, reading the files
/// that `rapl_read`, `gpu_read_bounds` and `epp_read` take their readings
/// from (see `rapl_files`, `gpu_files`, `policy_files`) gives back the
/// profile's values: PL1 from `constraint_0`, PL2 from `constraint_1`, never
/// swapped; the GPU maximum and boost; and the governor and EPP (trimmed, as
/// every read is) of the first policy, the EPP only where it is written,
/// under a governor other than `performance`.
pub proof fn lemma_profile_reads_back(
    p: ProfileView,
    rapl_pkg: Option<Seq<Seq<char>>>,
    policies: Seq<Seq<Seq<char>>>,
    gpu_card: Option<Seq<Seq<char>>>,
)
    ensures
        rapl_pkg matches Some(pkg) ==> (p.pl1_uw is Some ==> read_int(
            last_stored(profile_plan(p, rapl_pkg, policies, gpu_card), pkg.push(PL1_FILE@)),
        ) == p.pl1_uw),
        rapl_pkg matches Some(pkg) ==> (p.pl2_uw is Some ==> read_int(
            last_stored(profile_plan(p, rapl_pkg, policies, gpu_card), pkg.push(PL2_FILE@)),
        ) == p.pl2_uw),
        gpu_card matches Some(c) ==> (p.gpu_max_mhz is Some ==> read_int(
            last_stored(profile_plan(p, rapl_pkg, policies, gpu_card), c.push(GPU_MAX_FILE@)),
        ) == p.gpu_max_mhz),
        gpu_card matches Some(c) ==> (p.gpu_boost_mhz is Some ==> read_int(
            last_stored(profile_plan(p, rapl_pkg, policies, gpu_card), c.push(GPU_BOOST_FILE@)),
        ) == p.gpu_boost_mhz),
        p.governor matches Some(g) ==> (policies.len() > 0 ==> read_value(
            last_stored(profile_plan(p, rapl_pkg, policies, gpu_card), policies[0].push(GOVERNOR_FILE@)),
        ) == Some(trimmed(g.push('\n')))),
        p.epp matches Some(e) ==> (policies.len() > 0 && p.governor != Some("performance"@) ==> read_value(
            last_stored(profile_plan(p, rapl_pkg, policies, gpu_card), policies[0].push(EPP_FILE@)),
        ) == Some(trimmed(e.push('\n')))),
{
    lemma_lever_files_distinct();
    let e = epp_plan(p.epp, p.governor, policies);
    let r = rapl_plan(rapl_pkg, p.pl1_uw, p.pl2_uw);
    let g = gpu_plan(gpu_card, p.gpu_max_mhz, p.gpu_boost_mhz);
    let plan = profile_plan(p, rapl_pkg, policies, gpu_card);
    assert(plan == (e + r) + g);
    if let Some(pkg) = rapl_pkg {
        let l1 = pkg.push(PL1_FILE@);
        let l2 = pkg.push(PL2_FILE@);
        lemma_last_stored_concat(e + r, g, l1);
        lemma_last_stored_concat(e + r, g, l2);
        lemma_last_stored_concat(e, r, l1);
        lemma_last_stored_concat(e, r, l2);
        lemma_plan_leaves(p, rapl_pkg, policies, gpu_card);
        lemma_last_stored_other_leaf(g, l1);
        lemma_last_stored_other_leaf(g, l2);
        let a = int_write(pkg, PL1_FILE@, p.pl1_uw, WriteKind::Retrying);
        let b = int_write(pkg, PL2_FILE@, p.pl2_uw, WriteKind::Retrying);
        assert(r == a + b);
        lemma_last_stored_concat(a, b, l1);
        lemma_last_stored_concat(a, b, l2);
        if let Some(v) = p.pl1_uw {
            assert(last_stored(b, l1) is None) by {
                if b.len() > 0 {
                    assert(b.drop_last().len() == 0);
                    assert(b.last().path == pkg.push(PL2_FILE@));
                    assert(lever_rank(PL1_FILE@) != lever_rank(PL2_FILE@));
                    assert(b.last().path.last() != l1.last());
                    assert(last_stored(b.drop_last(), l1) is None);
                }
            }
            assert(a.drop_last().len() == 0);
            lemma_written_value_reads_back(v);
        }
        if let Some(v) = p.pl2_uw {
            assert(b.drop_last().len() == 0);
            lemma_written_value_reads_back(v);
        }
    }
    if let Some(c) = gpu_card {
        let m = c.push(GPU_MAX_FILE@);
        let bo = c.push(GPU_BOOST_FILE@);
        lemma_last_stored_concat(e + r, g, m);
        lemma_last_stored_concat(e + r, g, bo);
        let a = int_write(c, GPU_MAX_FILE@, p.gpu_max_mhz, WriteKind::Gpu);
        let b = int_write(c, GPU_BOOST_FILE@, p.gpu_boost_mhz, WriteKind::Gpu);
        assert(g == a + b);
        lemma_last_stored_concat(a, b, m);
        lemma_last_stored_concat(a, b, bo);
        if let Some(v) = p.gpu_max_mhz {
            assert(last_stored(b, m) is None) by {
                if b.len() > 0 {
                    assert(b.drop_last().len() == 0);
                    assert(b.last().path == c.push(GPU_BOOST_FILE@));
                    assert(lever_rank(GPU_MAX_FILE@) != lever_rank(GPU_BOOST_FILE@));
                    assert(b.last().path.last() != m.last());
                    assert(last_stored(b.drop_last(), m) is None);
                }
            }
            assert(a.drop_last().len() == 0);
            lemma_written_value_reads_back(v);
        }
        if let Some(v) = p.gpu_boost_mhz {
            assert(b.drop_last().len() == 0);
            lemma_written_value_reads_back(v);
        }
    }
    if policies.len() > 0 {
        let gp = policies[0].push(GOVERNOR_FILE@);
        let ep = policies[0].push(EPP_FILE@);
        lemma_plan_leaves(p, rapl_pkg, policies, gpu_card);
        lemma_last_stored_concat(e + r, g, gp);
        lemma_last_stored_concat(e + r, g, ep);
        lemma_last_stored_concat(e, r, gp);
        lemma_last_stored_concat(e, r, ep);
        lemma_last_stored_other_leaf(g, gp);
        lemma_last_stored_other_leaf(g, ep);
        lemma_last_stored_other_leaf(r, gp);
        lemma_last_stored_other_leaf(r, ep);
        let gov = match p.governor {
            Some(x) => each_write(policies, GOVERNOR_FILE@, x, WriteKind::Retrying),
            None => Seq::<WriteView>::empty(),
        };
        let epp = match p.epp {
            Some(x) => if p.governor != Some("performance"@) {
                each_write(policies, EPP_FILE@, x, WriteKind::Retrying)
            } else {
                Seq::<WriteView>::empty()
            },
            None => Seq::<WriteView>::empty(),
        };
        assert(e == gov + epp);
        lemma_last_stored_concat(gov, epp, gp);
        lemma_last_stored_concat(gov, epp, ep);
        if let Some(x) = p.governor {
            lemma_last_stored_each(policies, GOVERNOR_FILE@, x, WriteKind::Retrying, 0);
            if let Some(y) = p.epp {
                if p.governor != Some("performance"@) {
                    lemma_each_write_rank(policies, EPP_FILE@, y, WriteKind::Retrying);
                    lemma_last_stored_other_leaf(epp, gp);
                }
            }
        }
        if let Some(y) = p.epp {
            if p.governor != Some("performance"@) {
                lemma_last_stored_each(policies, EPP_FILE@, y, WriteKind::Retrying, 0);
            }
        }
    }
}

/// The files the RAPL and GPU writes go to are named by their levers, and
/// each write of a plan goes to a named file.
proof fn lemma_plan_leaves(
    p: ProfileView,
    rapl_pkg: Option<Seq<Seq<char>>>,
    policies: Seq<Seq<Seq<char>>>,
    gpu_card: Option<Seq<Seq<char>>>,
)
    ensures
        forall|i: int|
            0 <= i < rapl_plan(rapl_pkg, p.pl1_uw, p.pl2_uw).len() ==> (#[trigger] rapl_plan(
                rapl_pkg,
                p.pl1_uw,
                p.pl2_uw,
            )[i]).path.len() > 0 && (rapl_plan(rapl_pkg, p.pl1_uw, p.pl2_uw)[i].path.last()
                == PL1_FILE@ || rapl_plan(rapl_pkg, p.pl1_uw, p.pl2_uw)[i].path.last() == PL2_FILE@),
        forall|i: int|
            0 <= i < gpu_plan(gpu_card, p.gpu_max_mhz, p.gpu_boost_mhz).len() ==> (#[trigger] gpu_plan(
                gpu_card,
                p.gpu_max_mhz,
                p.gpu_boost_mhz,
            )[i]).path.len() > 0 && (gpu_plan(gpu_card, p.gpu_max_mhz, p.gpu_boost_mhz)[i].path.last()
                == GPU_MAX_FILE@ || gpu_plan(gpu_card, p.gpu_max_mhz, p.gpu_boost_mhz)[i].path.last()
                == GPU_BOOST_FILE@),
{
}

/// The values written are the decimal forms of the profile's numbers, so a
/// later read of the file gives the number back.
pub proof fn lemma_written_value_reads_back(v: i64)
    ensures
        read_int(Some(int_decimal(v as int).push('\n'))) == Some(v),
{
    crate::text::lemma_int_decimal_ends(v as int);
    crate::text::lemma_trimmed_line(int_decimal(v as int));
    crate::text::lemma_parse_int_decimal(v);
}

} // verus!
