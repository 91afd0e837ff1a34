use acer_profile::measure::{measured_profiles, FreqSampler};
use acer_profile::probe::{
    is_too_hot, parse_package_temp, step_watts, Pl2Probe, ProbeEnd, BASELINE_W, MAXTEMP,
    STEP_COUNT,
};

#[test]
fn steps_are_64_80_100_115() {
    let w: Vec<i64> = (0..STEP_COUNT).map(step_watts).collect();
    assert_eq!(w, vec![64, 80, 100, 115]);
    assert_eq!(BASELINE_W, 64);
}

#[test]
fn too_hot_is_above_95() {
    assert_eq!(MAXTEMP, 95);
    assert!(!is_too_hot(Some(95)));
    assert!(is_too_hot(Some(96)));
    assert!(!is_too_hot(None));
}

#[test]
fn probe_completes_every_step() {
    let mut p = Pl2Probe::new();
    let mut tried = Vec::new();
    while let Some(w) = p.next_step() {
        tried.push(w);
        assert!(p.check_before_step(Some(60)));
        assert!(p.check_written(w * 1_000_000));
        p.finish_step(false);
    }
    assert_eq!(tried, vec![64, 80, 100, 115]);
    assert_eq!(p.end(), Some(ProbeEnd::Completed));
    assert_eq!(p.best_w(), 115);
    assert_eq!(p.recommended_pl2_uw(), 115_000_000);
}

#[test]
fn probe_stops_hot_under_load() {
    let mut p = Pl2Probe::new();
    assert_eq!(p.next_step(), Some(64));
    assert!(p.check_before_step(Some(50)));
    assert!(p.check_written(64_000_000));
    p.finish_step(false);
    assert_eq!(p.next_step(), Some(80));
    assert!(p.check_before_step(Some(70)));
    assert!(p.check_written(80_500_000));
    p.finish_step(true);
    assert_eq!(p.end(), Some(ProbeEnd::HotUnderLoad));
    assert_eq!(p.next_step(), None);
    assert_eq!(p.best_w(), 64);
}

#[test]
fn probe_stops_when_too_hot_before_a_step() {
    let mut p = Pl2Probe::new();
    assert!(!p.check_before_step(Some(97)));
    assert_eq!(p.end(), Some(ProbeEnd::HotBeforeStep));
    assert_eq!(p.best_w(), BASELINE_W);
    assert_eq!(p.recommended_pl2_uw(), 64_000_000);
}

#[test]
fn probe_stops_when_firmware_adjusts_the_limit() {
    let mut p = Pl2Probe::new();
    p.check_before_step(None);
    p.check_written(64_000_000);
    p.finish_step(false);
    assert_eq!(p.next_step(), Some(80));
    assert!(!p.check_written(79_999_999));
    assert_eq!(p.end(), Some(ProbeEnd::LimitAdjusted));
    assert_eq!(p.best_w(), 64);
}

#[test]
fn package_temperature_from_sensors_output() {
    let out = "coretemp-isa-0000\nAdapter: ISA adapter\nPackage id 0:  +45.0°C  (high = +110.0°C, crit = +110.0°C)\nCore 0:        +41.0°C\n";
    assert_eq!(parse_package_temp(out), Some(45));
}

#[test]
fn package_temperature_first_matching_line() {
    let out = "Package id 0: n/a\nCore 0: +41.0°C\nPackage id 1:  +88.5°C\n";
    assert_eq!(parse_package_temp(out), Some(88));
    assert_eq!(parse_package_temp("Package id 0:  +72.0°C"), Some(72));
}

#[test]
fn package_temperature_missing() {
    assert_eq!(parse_package_temp(""), None);
    assert_eq!(parse_package_temp("Core 0: +41.0°C\n"), None);
    assert_eq!(parse_package_temp("Package id 0: n/a\n"), None);
}

#[test]
fn package_temperature_skips_a_number_too_large() {
    let out = "Package id 0: +99999999999999999999.0°C +51.0°C\n";
    assert_eq!(parse_package_temp(out), Some(51));
}

#[test]
fn measured_profiles_in_order() {
    assert_eq!(measured_profiles(), vec!["eco", "normal", "performance"]);
}

#[test]
fn sampler_average_in_mhz() {
    let mut s = FreqSampler::new();
    assert_eq!(s.average_mhz(), 0);
    for khz in [3_000_000, 4_000_000, 4_500_500] {
        assert!(s.can_add(khz));
        s.add(khz);
    }
    assert_eq!(s.average_mhz(), 3833);
    assert!(!s.can_add(-1));
    assert!(!s.can_add(i64::MAX));
}

#[test]
fn package_temperature_keeps_the_sign() {
    assert_eq!(parse_package_temp("Package id 0:  -5.0°C\n"), Some(-5));
    assert_eq!(parse_package_temp("Package id 0:  -0.5°C\n"), Some(0));
    assert_eq!(parse_package_temp("Package id 0:  +45.0°C\n"), Some(45));
}
