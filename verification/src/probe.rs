//! The PL2 probe: raises the short-term power limit step by step (64, 80,
//! 100, 115 W, never past the 115 W maximum turbo power of the chip), loads
//! the CPU after each step and stops at the first sign of trouble: a package
//! temperature above 95 °C, or a limit the firmware did not accept as
//! written. The last step that passed is the safe limit.
//!
//! Also the parser for the package temperature in the output of `sensors`.

use vstd::prelude::*;
use crate::text::{chars_of, contains_chars, contains_seq, is_digit, parse_i64_chars, parse_i64_spec};

verus! {

/// Package temperature above which the probe stops, in °C.
pub const MAXTEMP: i64 = 95;

/// The limit assumed safe before any step passes, in W.
pub const BASELINE_W: i64 = 64;

/// Number of steps.
pub const STEP_COUNT: usize = 4;

/// Seconds of load per step, and seconds of it spent watching the temperature.
pub const LOAD_SECS: u64 = 8;

pub const WATCH_SECS: u64 = 7;

/// Seconds of cooling down after a step that passed.
pub const COOLDOWN_SECS: u64 = 20;

/// Milliseconds between two looks at frequency and temperature under load.
pub const SAMPLE_MS: u64 = 500;

/// The PL2 of step `i`, in W.
pub open spec fn step_watts_spec(i: int) -> i64 {
    if i == 0 {
        64
    } else if i == 1 {
        80
    } else if i == 2 {
        100
    } else {
        115
    }
}

/// The PL2 of step `i`, in W.
pub fn step_watts(i: usize) -> (r: i64)
    requires
        i < STEP_COUNT,
    ensures
        r == step_watts_spec(i as int),
{
    if i == 0 {
        64
    } else if i == 1 {
        80
    } else if i == 2 {
        100
    } else {
        115
    }
}

/// Whole watts of a limit read back in microwatts (division truncates toward
/// zero, as Rust's does).
pub open spec fn whole_watts(uw: i64) -> int {
    if uw >= 0 {
        uw / 1_000_000
    } else {
        -((-uw) / 1_000_000)
    }
}

/// Why the probe ended.
#[derive(Clone, Copy, Debug, PartialEq, Eq, Structural)]
pub enum ProbeEnd {
    /// Every step passed.
    Completed,
    /// Too hot before a step began.
    HotBeforeStep,
    /// The firmware accepted another limit than the one written.
    LimitAdjusted,
    /// Too hot under load.
    HotUnderLoad,
}

/// The probe's progress.
pub struct Pl2Probe {
    step: usize,
    best_w: i64,
    end: Option<ProbeEnd>,
}

pub struct ProbeView {
    pub step: int,
    pub best_w: i64,
    pub end: Option<ProbeEnd>,
}

impl View for Pl2Probe {
    type V = ProbeView;

    closed spec fn view(&self) -> ProbeView {
        ProbeView { step: self.step as int, best_w: self.best_w, end: self.end }
    }
}

/// The probe's invariant: the safe limit is the baseline or a step that passed.
pub open spec fn probe_wf(p: ProbeView) -> bool {
    &&& 0 <= p.step <= STEP_COUNT
    &&& (p.step == 0 ==> p.best_w == BASELINE_W)
    &&& (p.step > 0 ==> p.best_w == step_watts_spec(p.step - 1))
    &&& (p.step == STEP_COUNT ==> p.end == Some(ProbeEnd::Completed))
    &&& (p.end == Some(ProbeEnd::Completed) ==> p.step == STEP_COUNT)
}

/// Whether a temperature reading is too hot (`None`, no reading, is not).
pub open spec fn too_hot(temp: Option<i64>) -> bool {
    match temp {
        Some(t) => t > MAXTEMP,
        None => false,
    }
}

pub fn is_too_hot(temp: Option<i64>) -> (r: bool)
    ensures
        r == too_hot(temp),
{
    match temp {
        Some(t) => t > MAXTEMP,
        None => false,
    }
}

impl Pl2Probe {
    #[verifier::type_invariant]
    closed spec fn inv(&self) -> bool {
        probe_wf(self@)
    }

    /// A probe before its first step.
    pub fn new() -> (r: Pl2Probe)
        ensures
            r@ == (ProbeView { step: 0, best_w: BASELINE_W, end: None }),
            probe_wf(r@),
    {
        Pl2Probe { step: 0, best_w: BASELINE_W, end: None }
    }

    /// The PL2 to try next, in W; `None` once the probe has ended.
    pub fn next_step(&self) -> (r: Option<i64>)
        ensures
            match r {
                Some(w) => self@.end is None && self@.step < STEP_COUNT && w == step_watts_spec(
                    self@.step,
                ),
                None => self@.end is Some,
            },
    {
        proof {
            use_type_invariant(self);
        }
        if self.end.is_some() || self.step >= STEP_COUNT {
            None
        } else {
            Some(step_watts(self.step))
        }
    }

    /// Before the step: stops when the package is already too hot. Returns
    /// whether to go on.
    pub fn check_before_step(&mut self, temp: Option<i64>) -> (r: bool)
        requires
            old(self)@.end is None,
        ensures
            r == !too_hot(temp),
            final(self)@ == (if r {
                old(self)@
            } else {
                ProbeView { end: Some(ProbeEnd::HotBeforeStep), ..old(self)@ }
            }),
            probe_move(old(self)@, final(self)@),
    {
        proof {
            use_type_invariant(&*self);
        }
        if is_too_hot(temp) {
            *self = Pl2Probe { step: self.step, best_w: self.best_w, end: Some(ProbeEnd::HotBeforeStep) };
            false
        } else {
            true
        }
    }

    /// After writing the step's PL2: `read_back_uw` is what the limit reads
    /// now. Stops when the firmware holds another number of whole watts.
    /// Returns whether to go on.
    pub fn check_written(&mut self, read_back_uw: i64) -> (r: bool)
        requires
            old(self)@.end is None,
        ensures
            r == (whole_watts(read_back_uw) == step_watts_spec(old(self)@.step)),
            final(self)@ == (if r {
                old(self)@
            } else {
                ProbeView { end: Some(ProbeEnd::LimitAdjusted), ..old(self)@ }
            }),
            probe_move(old(self)@, final(self)@),
    {
        proof {
            use_type_invariant(&*self);
        }
        let got_w: i64 = if read_back_uw >= 0 {
            read_back_uw / 1_000_000
        } else {
            let m: i128 = 0 - (read_back_uw as i128);
            (0 - m / 1_000_000) as i64
        };
        if got_w != step_watts(self.step) {
            *self = Pl2Probe { step: self.step, best_w: self.best_w, end: Some(ProbeEnd::LimitAdjusted) };
            false
        } else {
            true
        }
    }

    /// After the load: stops when it overheated; otherwise the step's limit
    /// becomes the safe one and the probe moves on.
    pub fn finish_step(&mut self, overheated: bool)
        requires
            old(self)@.end is None,
        ensures
            overheated ==> final(self)@ == (ProbeView {
                end: Some(ProbeEnd::HotUnderLoad),
                ..old(self)@
            }),
            !overheated ==> final(self)@.step == old(self)@.step + 1 && final(self)@.best_w
                == step_watts_spec(old(self)@.step) && final(self)@.end == (if old(self)@.step + 1
                == STEP_COUNT {
                Some(ProbeEnd::Completed)
            } else {
                None
            }),
            probe_move(old(self)@, final(self)@),
    {
        proof {
            use_type_invariant(&*self);
        }
        if overheated {
            *self = Pl2Probe { step: self.step, best_w: self.best_w, end: Some(ProbeEnd::HotUnderLoad) };
        } else {
            let step = self.step + 1;
            let end = if step == STEP_COUNT {
                Some(ProbeEnd::Completed)
            } else {
                None
            };
            *self = Pl2Probe { step, best_w: step_watts(self.step), end };
        }
    }

    /// How the probe ended, if it has.
    pub fn end(&self) -> (r: Option<ProbeEnd>)
        ensures
            r == self@.end,
    {
        self.end
    }

    /// The safe PL2, in W: the last step that passed, else the baseline.
    pub fn best_w(&self) -> (r: i64)
        ensures
            r == self@.best_w,
            probe_wf(self@),
    {
        proof {
            use_type_invariant(self);
        }
        self.best_w
    }

    /// The value to put in `profiles.toml` as `pl2_uw`.
    pub fn recommended_pl2_uw(&self) -> (r: i64)
        ensures
            r == self@.best_w * 1_000_000,
    {
        proof {
            use_type_invariant(self);
        }
        self.best_w * 1_000_000
    }
}

/// The probe never recommends more than the chip's maximum turbo power
/// (115 W) nor less than the baseline (64 W).
pub proof fn lemma_probe_within_limits(p: ProbeView)
    requires
        probe_wf(p),
    ensures
        BASELINE_W <= p.best_w <= 115,
        p.best_w == BASELINE_W || exists|i: int| 0 <= i < STEP_COUNT && p.best_w == step_watts_spec(i),
{
    if p.step > 0 {
        assert(p.best_w == step_watts_spec(p.step - 1));
    }
}

/// One move of the probe: a check that passes (nothing changes), a check or a
/// load that ends it (too hot before the step, a limit the firmware adjusted,
/// too hot under load), or a load that passes and moves to the next step.
/// Only a probe that has not ended moves.
pub open spec fn probe_move(a: ProbeView, b: ProbeView) -> bool {
    &&& a.end is None
    &&& {
        ||| b == a
        ||| b == (ProbeView { end: Some(ProbeEnd::HotBeforeStep), ..a })
        ||| b == (ProbeView { end: Some(ProbeEnd::LimitAdjusted), ..a })
        ||| b == (ProbeView { end: Some(ProbeEnd::HotUnderLoad), ..a })
        ||| (b.step == a.step + 1 && b.best_w == step_watts_spec(a.step) && b.end == (if a.step + 1
            == STEP_COUNT {
            Some(ProbeEnd::Completed)
        } else {
            None
        }))
    }
}

/// The probe as it starts.
pub open spec fn probe_start() -> ProbeView {
    ProbeView { step: 0, best_w: BASELINE_W, end: None }
}

/// The steps rise strictly, and none is above the chip's 115 W.
pub proof fn lemma_steps_rise()
    ensures
        forall|i: int, j: int|
            0 <= i < j < STEP_COUNT ==> #[trigger] step_watts_spec(i) < #[trigger] step_watts_spec(j),
        forall|i: int| 0 <= i < STEP_COUNT ==> #[trigger] step_watts_spec(i) <= 115,
{
}

/// Step `s` was offered (the probe had not ended there) at some state before
/// the `i`-th of the run.
pub open spec fn offered_before(run: Seq<ProbeView>, i: int, s: int) -> bool {
    exists|j: int| 0 <= j < i && (#[trigger] run[j]).step == s && run[j].end is None
}

proof fn lemma_move_keeps_wf(a: ProbeView, b: ProbeView)
    requires
        probe_wf(a),
        probe_move(a, b),
    ensures
        probe_wf(b),
        a.step <= b.step <= a.step + 1,
{
}

proof fn lemma_probe_run_upto(run: Seq<ProbeView>, n: int)
    requires
        1 <= n <= run.len(),
        run[0] == probe_start(),
        forall|i: int| 0 <= i < run.len() - 1 ==> probe_move(#[trigger] run[i], run[i + 1]),
    ensures
        forall|i: int| 0 <= i < n ==> probe_wf(#[trigger] run[i]),
        forall|i: int, j: int| 0 <= i <= j < n ==> (#[trigger] run[i]).step <= (#[trigger] run[j]).step,
        forall|i: int, s: int|
            0 <= i < n && 0 <= s < run[i].step ==> #[trigger] offered_before(run, i, s),
    decreases n,
{
    if n > 1 {
        lemma_probe_run_upto(run, n - 1);
        let a = run[n - 2];
        let b = run[n - 1];
        assert(probe_move(run[n - 2], run[n - 2 + 1]));
        assert(probe_wf(run[n - 2]));
        lemma_move_keeps_wf(a, b);
        assert forall|i: int, j: int| 0 <= i <= j < n implies (#[trigger] run[i]).step
            <= (#[trigger] run[j]).step by {
            if j == n - 1 && i < n - 1 {
                assert(run[i].step <= run[n - 2].step);
            }
        }
        assert forall|i: int, s: int|
            0 <= i < n && 0 <= s < run[i].step implies #[trigger] offered_before(run, i, s) by {
            if i == n - 1 {
                if s == a.step {
                    assert(run[n - 2].step == s && run[n - 2].end is None);
                } else {
                    assert(offered_before(run, n - 2, s));
                    let j = choose|j: int| 0 <= j < n - 2 && (#[trigger] run[j]).step == s
                        && run[j].end is None;
                    assert(0 <= j < i && run[j].step == s && run[j].end is None);
                }
            }
        }
    } else {
        assert(probe_wf(run[0]));
    }
}

/// Over any run of the probe from its start, one move at a time:
/// - every state keeps the probe's invariant, so the safe limit stays
///   between 64 W and 115 W;
/// - the step only goes up, by one at a time, so the PL2 values offered
///   (`next_step`, only while the probe has not ended) are a prefix of
///   64, 80, 100, 115 W, each offered before the next, rising strictly;
/// - once the probe has ended (too hot, an adjusted limit, or all steps
///   done) nothing moves it again: an ended state is the last of the run.
pub proof fn lemma_probe_run(run: Seq<ProbeView>)
    requires
        run.len() > 0,
        run[0] == probe_start(),
        forall|i: int| 0 <= i < run.len() - 1 ==> probe_move(#[trigger] run[i], run[i + 1]),
    ensures
        forall|i: int| 0 <= i < run.len() ==> probe_wf(#[trigger] run[i]),
        forall|i: int| 0 <= i < run.len() - 1 ==> (#[trigger] run[i]).end is None,
        forall|i: int| 0 <= i < run.len() - 1 ==> (#[trigger] run[i + 1]).step <= run[i].step + 1,
        forall|i: int, j: int| 0 <= i <= j < run.len() ==> (#[trigger] run[i]).step <= (#[trigger] run[j]).step,
        forall|i: int| 0 <= i < run.len() && (#[trigger] run[i]).end is None ==> run[i].step < STEP_COUNT
            && step_watts_spec(run[i].step) <= 115,
        forall|i: int, j: int|
            0 <= i < j < run.len() && (#[trigger] run[i]).end is None && (#[trigger] run[j]).end is None
                && run[i].step < run[j].step ==> step_watts_spec(run[i].step) < step_watts_spec(
                run[j].step,
            ),
        forall|i: int, s: int|
            0 <= i < run.len() && 0 <= s < run[i].step ==> #[trigger] offered_before(run, i, s),
{
    lemma_probe_run_upto(run, run.len() as int);
    lemma_steps_rise();
    assert forall|i: int| 0 <= i < run.len() - 1 implies (#[trigger] run[i + 1]).step <= run[i].step + 1 by {
        assert(probe_move(run[i], run[i + 1]));
    }
    assert forall|i: int| 0 <= i < run.len() && (#[trigger] run[i]).end is None implies run[i].step
        < STEP_COUNT && step_watts_spec(run[i].step) <= 115 by {
        assert(probe_wf(run[i]));
    }
    assert forall|i: int, j: int|
        0 <= i < j < run.len() && (#[trigger] run[i]).end is None && (#[trigger] run[j]).end is None
            && run[i].step < run[j].step implies step_watts_spec(run[i].step) < step_watts_spec(
            run[j].step,
        ) by {
        assert(probe_wf(run[j]));
    }
}

// ------------------------------------------------------------ sensors output

/// First index from `j` on that is not a digit (nor a `.`, when `dots`).
pub open spec fn run_end(s: Seq<char>, j: int, dots: bool) -> int
    decreases s.len() - j,
{
    if 0 <= j < s.len() && (is_digit(s[j]) || (dots && s[j] == '.')) {
        run_end(s, j + 1, dots)
    } else {
        j
    }
}

pub proof fn lemma_run_end_bounds(s: Seq<char>, j: int, dots: bool)
    requires
        0 <= j <= s.len(),
    ensures
        j <= run_end(s, j, dots) <= s.len(),
        forall|k: int| j <= k < run_end(s, j, dots) ==> is_digit(#[trigger] s[k]) || (dots && s[k]
            == '.'),
        run_end(s, j, dots) < s.len() ==> !(is_digit(s[run_end(s, j, dots)]) || (dots && s[run_end(
            s,
            j,
            dots,
        )] == '.')),
    decreases s.len() - j,
{
    if j < s.len() && (is_digit(s[j]) || (dots && s[j] == '.')) {
        lemma_run_end_bounds(s, j + 1, dots);
    }
}

/// The first temperature in a line from position `i` on: a `+` or `-`
/// followed by a number (`+45.0`, `-5.0`); its integer part is taken, with
/// its sign. A number too large for an `i64` is passed over.
pub open spec fn scan_temp(line: Seq<char>, i: int) -> Option<i64>
    decreases line.len() - i,
{
    if i < 0 || i >= line.len() {
        None
    } else if (line[i] == '+' || line[i] == '-') && i + 1 < line.len() && is_digit(line[i + 1]) {
        let j = run_end(line, i + 1, true);
        let k = run_end(line, i + 1, false);
        match parse_i64_spec(line.subrange(i, k)) {
            Some(v) => Some(v),
            None => {
                proof {
                    lemma_run_end_bounds(line, i + 1, true);
                }
                scan_temp(line, j)
            },
        }
    } else {
        scan_temp(line, i + 1)
    }
}

/// The lines of a text, split at `\n`. (A `\r` before the `\n`, and a last
/// empty line, change nothing that is looked for in them.)
pub open spec fn lines_from(s: Seq<char>, start: int, i: int) -> Seq<Seq<char>>
    decreases s.len() - i,
{
    if i >= s.len() {
        seq![s.subrange(start, s.len() as int)]
    } else if s[i] == '\n' {
        seq![s.subrange(start, i)] + lines_from(s, i + 1, i + 1)
    } else {
        lines_from(s, start, i + 1)
    }
}

/// The temperature of the first line that names `Package` and holds one.
pub open spec fn first_package_temp(lines: Seq<Seq<char>>) -> Option<i64>
    decreases lines.len(),
{
    if lines.len() == 0 {
        None
    } else if contains_seq(lines[0], "Package"@) && scan_temp(lines[0], 0) is Some {
        scan_temp(lines[0], 0)
    } else {
        first_package_temp(lines.drop_first())
    }
}

/// The package temperature in the output of `sensors`, in whole °C.
pub open spec fn package_temp_spec(text: Seq<char>) -> Option<i64> {
    first_package_temp(lines_from(text, 0, 0))
}

fn sub_chars(v: &Vec<char>, a: usize, b: usize) -> (r: Vec<char>)
    requires
        a <= b <= v.len(),
    ensures
        r@ == v@.subrange(a as int, b as int),
{
    let mut r: Vec<char> = Vec::new();
    let mut k = a;
    while k < b
        invariant
            a <= k <= b <= v.len(),
            r@ == v@.subrange(a as int, k as int),
        decreases b - k,
    {
        r.push(v[k]);
        proof {
            assert(v@.subrange(a as int, k + 1) =~= v@.subrange(a as int, k as int).push(v@[k as int]));
        }
        k = k + 1;
    }
    r
}

fn is_digit_char(c: char) -> (r: bool)
    ensures
        r == is_digit(c),
{
    '0' <= c && c <= '9'
}

fn scan_temp_exec(line: &Vec<char>) -> (r: Option<i64>)
    ensures
        r == scan_temp(line@, 0),
{
    let n = line.len();
    let mut i: usize = 0;
    while i < n
        invariant
            n == line.len(),
            i <= n,
            scan_temp(line@, 0) == scan_temp(line@, i as int),
        decreases n - i,
    {
        let c = line[i];
        if (c == '+' || c == '-') && i + 1 < n && is_digit_char(line[i + 1]) {
            let mut j = i + 1;
            while j < n && (is_digit_char(line[j]) || line[j] == '.')
                invariant
                    n == line.len(),
                    i + 1 <= j <= n,
                    run_end(line@, i + 1, true) == run_end(line@, j as int, true),
                decreases n - j,
            {
                j = j + 1;
            }
            let mut k = i + 1;
            while k < n && is_digit_char(line[k])
                invariant
                    n == line.len(),
                    i + 1 <= k <= n,
                    run_end(line@, i + 1, false) == run_end(line@, k as int, false),
                decreases n - k,
            {
                k = k + 1;
            }
            let int_part = sub_chars(line, i, k);
            match parse_i64_chars(&int_part) {
                Some(v) => {
                    return Some(v);
                },
                None => {},
            }
            i = j;
        } else {
            i = i + 1;
        }
    }
    None
}

/// The package temperature in the output of `sensors`, in whole °C: on the
/// first line naming `Package` that holds a signed number (`+45.0°C`,
/// `-5.0°C`), the integer part of that number, with its sign.
pub fn parse_package_temp(text: &str) -> (r: Option<i64>)
    ensures
        r == package_temp_spec(text@),
{
    let v = chars_of(text);
    let package = chars_of("Package");
    let n = v.len();
    let mut start: usize = 0;
    let mut i: usize = 0;
    while i < n
        invariant
            v@ == text@,
            package@ == "Package"@,
            n == v.len(),
            start <= i <= n,
            package_temp_spec(text@) == first_package_temp(
                lines_from(text@, start as int, i as int),
            ),
        decreases n - i,
    {
        if v[i] == '\n' {
            let line = sub_chars(&v, start, i);
            if contains_chars(&line, &package) {
                let t = scan_temp_exec(&line);
                if t.is_some() {
                    proof {
                        let ls = lines_from(text@, start as int, i as int);
                        assert(ls[0] == line@);
                    }
                    return t;
                }
            }
            proof {
                let ls = lines_from(text@, start as int, i as int);
                assert(ls[0] == line@);
                assert(ls.drop_first() =~= lines_from(text@, i + 1, i + 1));
            }
            start = i + 1;
        }
        i = i + 1;
    }
    let line = sub_chars(&v, start, n);
    proof {
        let ls = lines_from(text@, start as int, i as int);
        assert(ls =~= seq![line@]);
        assert(ls.drop_first() =~= Seq::<Seq<char>>::empty());
        assert(first_package_temp(ls.drop_first()) is None);
    }
    if contains_chars(&line, &package) {
        scan_temp_exec(&line)
    } else {
        None
    }
}

} // verus!
