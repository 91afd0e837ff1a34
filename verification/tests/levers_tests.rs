use acer_profile::controller::apply_profile;
use acer_profile::glob::SysPath;
use acer_profile::levers::{
    cpu_max_freq_khz, epp_apply, epp_read, gpu_apply, gpu_read_bounds, hwmon_name_path,
    i915_card_dir, rapl_apply, rapl_discover, rapl_read, read_int_value, read_str, status,
    temps_read, write_step, AcerTempReading, GpuReadings, HwmonTempReading, Levers, OpenOutcome,
    RaplReadings, SysfsWrite, WriteKind, WriteStep, EBUSY,
    after_write, gpu_files, policy_files, rapl_files, WriteOutcome, EINVAL,
};
use acer_profile::profiles::ProfileTable;

fn path(s: &str) -> SysPath {
    SysPath { comps: s.split('/').filter(|c| !c.is_empty()).map(|c| c.to_string()).collect() }
}

fn s(v: &str) -> Option<String> {
    Some(v.to_string())
}

fn summary(w: &[SysfsWrite]) -> Vec<(String, String, WriteKind)> {
    w.iter()
        .map(|w| (format!("/{}", w.path.comps.join("/")), w.value.clone(), w.kind))
        .collect()
}

fn policies() -> Vec<SysPath> {
    vec![path("/cpu/policy0"), path("/cpu/policy1")]
}

#[test]
fn governor_is_written_before_epp() {
    let w = epp_apply(Some("power"), Some("powersave"), &policies());
    assert_eq!(
        summary(&w),
        vec![
            ("/cpu/policy0/scaling_governor".into(), "powersave".into(), WriteKind::Retrying),
            ("/cpu/policy1/scaling_governor".into(), "powersave".into(), WriteKind::Retrying),
            (
                "/cpu/policy0/energy_performance_preference".into(),
                "power".into(),
                WriteKind::Retrying
            ),
            (
                "/cpu/policy1/energy_performance_preference".into(),
                "power".into(),
                WriteKind::Retrying
            ),
        ]
    );
}

#[test]
fn performance_governor_skips_epp() {
    let w = epp_apply(Some("performance"), Some("performance"), &policies());
    assert_eq!(w.len(), 2);
    assert!(w.iter().all(|w| w.path.comps.last().unwrap() == "scaling_governor"));
}

#[test]
fn epp_without_governor_and_without_policies() {
    let w = epp_apply(Some("power"), None, &policies());
    assert_eq!(w.len(), 2);
    assert!(epp_apply(Some("power"), Some("powersave"), &Vec::new()).is_empty());
}

#[test]
fn rapl_and_gpu_writes() {
    let pkg = path("/rapl/intel-rapl:0");
    assert_eq!(
        summary(&rapl_apply(Some(&pkg), Some(35_000_000), Some(45_000_000))),
        vec![
            (
                "/rapl/intel-rapl:0/constraint_0_power_limit_uw".into(),
                "35000000".into(),
                WriteKind::Retrying
            ),
            (
                "/rapl/intel-rapl:0/constraint_1_power_limit_uw".into(),
                "45000000".into(),
                WriteKind::Retrying
            ),
        ]
    );
    assert!(rapl_apply(None, Some(1), Some(2)).is_empty());
    assert_eq!(rapl_apply(Some(&pkg), None, Some(2)).len(), 1);
    let card = path("/gpu/card0");
    assert_eq!(
        summary(&gpu_apply(Some(&card), Some(1600), Some(1600))),
        vec![
            ("/gpu/card0/gt_max_freq_mhz".into(), "1600".into(), WriteKind::Gpu),
            ("/gpu/card0/gt_boost_freq_mhz".into(), "1600".into(), WriteKind::Gpu),
        ]
    );
    assert!(gpu_apply(None, Some(1), None).is_empty());
}

#[test]
fn profile_writes_come_lever_by_lever() {
    let table = ProfileTable::defaults();
    let levers = Levers {
        rapl_pkg: Some(path("/rapl/intel-rapl:0")),
        policies: policies(),
        gpu_card: Some(path("/gpu/card0")),
    };
    let w = apply_profile(table.get("normal").unwrap(), &levers);
    let leaves: Vec<String> = w.iter().map(|w| w.path.comps.last().unwrap().clone()).collect();
    assert_eq!(
        leaves,
        vec![
            "scaling_governor",
            "scaling_governor",
            "energy_performance_preference",
            "energy_performance_preference",
            "constraint_0_power_limit_uw",
            "constraint_1_power_limit_uw",
            "gt_max_freq_mhz",
            "gt_boost_freq_mhz",
        ]
    );
    let perf = apply_profile(table.get("performance").unwrap(), &levers);
    assert_eq!(perf.len(), 6);
    assert_eq!(perf[4].value, "2350");
}

#[test]
fn write_steps() {
    let opened = |c: &str| OpenOutcome::Opened { current: Some(c.to_string()) };
    assert_eq!(write_step(WriteKind::Retrying, 0, &opened("power\n"), "power"), WriteStep::Unchanged);
    assert_eq!(write_step(WriteKind::Retrying, 0, &opened("performance\n"), "power"), WriteStep::Overwrite);
    assert_eq!(
        write_step(WriteKind::Retrying, 0, &OpenOutcome::Opened { current: None }, "power"),
        WriteStep::Overwrite
    );
    assert_eq!(write_step(WriteKind::Retrying, 0, &OpenOutcome::Denied, "power"), WriteStep::GiveUp);
    let busy = OpenOutcome::Failed { errno: Some(EBUSY) };
    assert_eq!(write_step(WriteKind::Retrying, 0, &busy, "x"), WriteStep::RetryAfterPause);
    assert_eq!(write_step(WriteKind::Retrying, 1, &busy, "x"), WriteStep::RetryAfterPause);
    assert_eq!(write_step(WriteKind::Retrying, 2, &busy, "x"), WriteStep::GiveUp);
    assert_eq!(write_step(WriteKind::Gpu, 0, &busy, "x"), WriteStep::GiveUp);
    assert_eq!(
        write_step(WriteKind::Retrying, 0, &OpenOutcome::Failed { errno: Some(22) }, "x"),
        WriteStep::GiveUp
    );
    assert_eq!(
        write_step(WriteKind::Retrying, 0, &OpenOutcome::Failed { errno: None }, "x"),
        WriteStep::GiveUp
    );
}

#[test]
fn rapl_package_is_the_one_named_package_0() {
    let pkgs = vec![path("/r/intel-rapl:0"), path("/r/intel-rapl:1")];
    assert_eq!(
        rapl_discover(&pkgs, &vec![s("psys\n"), s("package-0\n")]),
        Some(path("/r/intel-rapl:1"))
    );
    assert_eq!(rapl_discover(&pkgs, &vec![None, s("psys")]), Some(path("/r/intel-rapl:0")));
    assert_eq!(rapl_discover(&Vec::new(), &Vec::new()), None);
}

#[test]
fn rapl_read_parses_limits() {
    let r = RaplReadings { pl1: s("45000000\n"), pl2: s("64000000\n"), pl1_max: s("45000000\n"), pl2_max: s("0\n") };
    let c = rapl_read(Some(path("/r/intel-rapl:0")), &r);
    assert_eq!(c.pl1_uw, Some(45_000_000));
    assert_eq!(c.pl2_uw, Some(64_000_000));
    assert_eq!(c.pl2_max_uw, Some(0));
    let none = rapl_read(None, &r);
    assert!(none.pkg.is_none() && none.pl1_uw.is_none());
    let bad = RaplReadings { pl1: s(""), pl2: s("abc"), pl1_max: None, pl2_max: s(" 7 ") };
    let c = rapl_read(Some(path("/r")), &bad);
    assert_eq!((c.pl1_uw, c.pl2_uw, c.pl1_max_uw, c.pl2_max_uw), (None, None, None, Some(7)));
}

#[test]
fn epp_read_uses_first_policy() {
    assert_eq!(
        epp_read(&policies(), &s("balance_power\n"), &s("powersave\n")),
        (s("balance_power"), s("powersave"))
    );
    assert_eq!(epp_read(&Vec::new(), &s("x"), &s("y")), (None, None));
}

#[test]
fn gpu_card_and_bounds() {
    let files = vec![path("/pci/i915/0000:00:02.0/drm/card1/gt_max_freq_mhz")];
    assert_eq!(i915_card_dir(&files), Some(path("/pci/i915/0000:00:02.0/drm/card1")));
    assert_eq!(i915_card_dir(&Vec::new()), None);
    let r = GpuReadings { rp0: s("2350\n"), rp1: s("800\n"), rpn: s("800\n"), max: s("1600\n"), boost: s("1600\n"), cur: None };
    let card = path("/c");
    let b = gpu_read_bounds(Some(&card), &r);
    assert_eq!((b.rp0, b.rpn, b.max, b.boost, b.cur), (Some(2350), Some(800), Some(1600), Some(1600), None));
    let none = gpu_read_bounds(None, &r);
    assert!(none.max.is_none() && none.rp0.is_none());
}

#[test]
fn cpu_frequency_is_the_largest_positive() {
    assert_eq!(cpu_max_freq_khz(&vec![s("400000\n"), s("5089000\n"), None, s("x")]), Some(5_089_000));
    assert_eq!(cpu_max_freq_khz(&vec![s("0"), s("-5")]), None);
    assert_eq!(cpu_max_freq_khz(&Vec::new()), None);
}

#[test]
fn temperatures_are_labelled() {
    let acer = vec![
        AcerTempReading { file: path("/acer/hwmon/hwmon5/temp1_input"), raw: s("45000\n") },
        AcerTempReading { file: path("/acer/hwmon/hwmon5/temp2_input"), raw: None },
    ];
    let hwmon = vec![
        HwmonTempReading { file: path("/c/hwmon0/temp1_input"), raw: s("51000\n"), name_raw: s("coretemp\n") },
        HwmonTempReading { file: path("/c/hwmon1/temp1_input"), raw: None, name_raw: s("acpitz\n") },
        HwmonTempReading { file: path("/c/hwmon2/temp1_input"), raw: s("30000"), name_raw: None },
    ];
    assert_eq!(
        temps_read(&acer, &hwmon),
        vec![
            ("acer_temp1_input".to_string(), 45000),
            ("acer_temp2_input".to_string(), 0),
            ("coretemp".to_string(), 51000),
            ("hwmon".to_string(), 30000),
        ]
    );
    assert_eq!(hwmon_name_path(&path("/c/hwmon0/temp1_input")), path("/c/hwmon0/name"));
    assert_eq!(hwmon_name_path(&SysPath::root()), path("/name"));
}

#[test]
fn status_reports_rapl_only_with_a_package() {
    let readings = RaplReadings { pl1: None, pl2: None, pl1_max: None, pl2_max: None };
    let gpu = gpu_read_bounds(None, &GpuReadings { rp0: None, rp1: None, rpn: None, max: None, boost: None, cur: None });
    let st = status((s("power"), s("powersave")), rapl_read(None, &readings), gpu, Vec::new(), Some(1));
    assert!(st.rapl.is_none());
    assert_eq!(st.epp, s("power"));
    assert_eq!(st.cpu_freq_khz, Some(1));
    let gpu = gpu_read_bounds(None, &GpuReadings { rp0: None, rp1: None, rpn: None, max: None, boost: None, cur: None });
    let st = status((None, None), rapl_read(Some(path("/r")), &readings), gpu, Vec::new(), None);
    assert!(st.rapl.is_some());
}

#[test]
fn read_helpers_trim() {
    assert_eq!(read_str(&s("  powersave \n")), s("powersave"));
    assert_eq!(read_str(&None), None);
    assert_eq!(read_int_value(&s("1600\n")), Some(1600));
    assert_eq!(read_int_value(&s("\n")), None);
}

#[test]
fn busy_writes_are_retried_and_gpu_failures_tolerated() {
    let busy = WriteOutcome::Failed { errno: Some(EBUSY) };
    assert_eq!(after_write(WriteKind::Retrying, 0, &WriteOutcome::Stored), WriteStep::Written);
    assert_eq!(after_write(WriteKind::Retrying, 0, &busy), WriteStep::RetryAfterPause);
    assert_eq!(after_write(WriteKind::Retrying, 1, &busy), WriteStep::RetryAfterPause);
    assert_eq!(after_write(WriteKind::Retrying, 2, &busy), WriteStep::GiveUp);
    assert_eq!(
        after_write(WriteKind::Retrying, 0, &WriteOutcome::Failed { errno: Some(5) }),
        WriteStep::GiveUp
    );
    assert_eq!(after_write(WriteKind::Gpu, 0, &busy), WriteStep::Tolerated);
    assert_eq!(after_write(WriteKind::Gpu, 0, &WriteOutcome::Stored), WriteStep::Written);
    assert_eq!(
        write_step(WriteKind::Gpu, 0, &OpenOutcome::Failed { errno: Some(EINVAL) }, "800"),
        WriteStep::Tolerated
    );
    assert_eq!(
        write_step(WriteKind::Gpu, 0, &OpenOutcome::Failed { errno: Some(2) }, "800"),
        WriteStep::GiveUp
    );
}

#[test]
fn files_read_are_the_files_written() {
    let pkg = path("/sys/class/powercap/intel-rapl:0");
    let card = path("/sys/class/drm/card1");
    let pol = path("/sys/devices/system/cpu/cpufreq/policy0");
    let profile = acer_profile::profiles::Profile {
        pl1_uw: Some(35_000_000),
        pl2_uw: Some(45_000_000),
        epp: s("balance_power"),
        governor: s("powersave"),
        gpu_max_mhz: Some(1600),
        gpu_boost_mhz: Some(1200),
    };
    let levers = Levers { rapl_pkg: Some(pkg.duplicate()), policies: vec![pol.duplicate()], gpu_card: Some(card.duplicate()) };
    let writes = apply_profile(&profile, &levers);
    let stored = |p: &SysPath| -> Option<String> {
        writes.iter().rev().find(|w| w.path == *p).map(|w| format!("{}\n", w.value))
    };
    let rf = rapl_files(&pkg);
    let r = rapl_read(
        Some(pkg.duplicate()),
        &RaplReadings { pl1: stored(&rf.pl1), pl2: stored(&rf.pl2), pl1_max: None, pl2_max: None },
    );
    assert_eq!((r.pl1_uw, r.pl2_uw), (Some(35_000_000), Some(45_000_000)));
    let gf = gpu_files(&card);
    let g = gpu_read_bounds(
        Some(&card),
        &GpuReadings { rp0: None, rp1: None, rpn: None, max: stored(&gf.max), boost: stored(&gf.boost), cur: None },
    );
    assert_eq!((g.max, g.boost), (Some(1600), Some(1200)));
    let pf = policy_files(&pol);
    let (epp, gov) = epp_read(&vec![pol.duplicate()], &stored(&pf.epp), &stored(&pf.governor));
    assert_eq!(epp.as_deref(), Some("balance_power"));
    assert_eq!(gov.as_deref(), Some("powersave"));
    assert_eq!(stored(&pf.cur_freq), None);
}

#[test]
fn defaults_and_clones() {
    let r = acer_profile::levers::RaplConstraints::default();
    assert!(r.pkg.is_none() && r.pl1_uw.is_none() && r.pl2_max_uw.is_none());
    let st = acer_profile::levers::Status::default();
    assert!(st.rapl.is_none() && st.epp.is_none() && st.temps.is_empty() && st.gpu.max.is_none());
    let c = acer_profile::levers::RaplConstraints { pl1_uw: Some(1), ..r }.clone();
    assert_eq!(c.pl1_uw, Some(1));
    let g = acer_profile::levers::GpuBounds { max: Some(800), ..Default::default() }.clone();
    assert_eq!(g.max, Some(800));
    let p = acer_profile::profiles::Profile { epp: s("power"), ..Default::default() }.clone();
    assert_eq!(p.epp.as_deref(), Some("power"));
}
