use acer_profile::controller::{
    profile_from_state, set_profile, set_succeeded, state_file_content, STATE_DIR, STATE_FILE,
};
use acer_profile::daemon::{startup_profile, StateWatch, STARTUP_DEFAULT};
use acer_profile::glob::SysPath;
use acer_profile::levers::{Levers, SysfsWrite};
use acer_profile::profiles::ProfileTable;

fn path(s: &str) -> SysPath {
    SysPath { comps: s.split('/').filter(|c| !c.is_empty()).map(|c| c.to_string()).collect() }
}

fn levers() -> Levers {
    Levers {
        rapl_pkg: Some(path("/sys/class/powercap/intel-rapl:0")),
        policies: vec![path("/sys/devices/system/cpu/cpufreq/policy0")],
        gpu_card: Some(path("/sys/class/drm/card1")),
    }
}

fn summary(w: &[SysfsWrite]) -> Vec<(String, String)> {
    w.iter().map(|w| (w.path.comps.last().unwrap().clone(), w.value.clone())).collect()
}

#[test]
fn state_file_paths() {
    assert_eq!(STATE_DIR, "/var/lib/acer-profile");
    assert_eq!(STATE_FILE, "/var/lib/acer-profile/current");
}

#[test]
fn state_file_round_trip() {
    let content = state_file_content("performance");
    assert_eq!(content, "performance\n");
    assert_eq!(profile_from_state(&Some(content)), Some("performance".to_string()));
}

#[test]
fn state_file_missing_or_blank() {
    assert_eq!(profile_from_state(&None), None);
    assert_eq!(profile_from_state(&Some("  \n".to_string())), None);
    assert_eq!(profile_from_state(&Some("\teco \r\n".to_string())), Some("eco".to_string()));
}

#[test]
fn set_profile_by_alias_plans_every_lever() {
    let table = ProfileTable::defaults();
    let ch = set_profile("power-saver", &table, &levers()).unwrap();
    assert_eq!(ch.profile, "eco");
    assert_eq!(ch.state, "eco\n");
    assert_eq!(
        summary(&ch.writes),
        vec![
            ("scaling_governor".to_string(), "powersave".to_string()),
            ("energy_performance_preference".to_string(), "power".to_string()),
            ("constraint_0_power_limit_uw".to_string(), "20000000".to_string()),
            ("constraint_1_power_limit_uw".to_string(), "25000000".to_string()),
            ("gt_max_freq_mhz".to_string(), "800".to_string()),
            ("gt_boost_freq_mhz".to_string(), "800".to_string()),
        ]
    );
}

#[test]
fn set_profile_performance_skips_epp() {
    let table = ProfileTable::defaults();
    let ch = set_profile("perf", &table, &levers()).unwrap();
    assert_eq!(ch.profile, "performance");
    assert_eq!(ch.state, "performance\n");
    let w = summary(&ch.writes);
    assert_eq!(w[0], ("scaling_governor".to_string(), "performance".to_string()));
    assert!(w.iter().all(|(f, _)| f != "energy_performance_preference"));
    assert_eq!(w.len(), 5);
}

#[test]
fn set_profile_unknown_name() {
    let table = ProfileTable::defaults();
    assert!(set_profile("turbo", &table, &levers()).is_none());
    assert!(set_profile("", &table, &levers()).is_none());
}

#[test]
fn set_profile_without_levers_writes_nothing() {
    let table = ProfileTable::defaults();
    let none = Levers { rapl_pkg: None, policies: Vec::new(), gpu_card: None };
    let ch = set_profile("balanced", &table, &none).unwrap();
    assert_eq!(ch.profile, "normal");
    assert!(ch.writes.is_empty());
    assert_eq!(ch.state, "normal\n");
}

#[test]
fn daemon_starts_with_recorded_profile_or_normal() {
    assert_eq!(STARTUP_DEFAULT, "normal");
    assert_eq!(startup_profile(Some("eco".to_string())), "eco");
    assert_eq!(startup_profile(None), "normal");
}

#[test]
fn daemon_applies_a_change_once() {
    let mut w = StateWatch::new("normal");
    assert_eq!(w.poll(Some("normal".to_string())), None);
    assert_eq!(w.poll(None), None);
    assert_eq!(w.last_seen(), "normal");
    assert_eq!(w.poll(Some("eco".to_string())), Some("eco".to_string()));
    assert_eq!(w.last_seen(), "eco");
    assert_eq!(w.poll(Some("eco".to_string())), None);
}

#[test]
fn setting_succeeds_only_when_the_state_file_is_written() {
    let table = ProfileTable::defaults();
    let known = set_profile("eco", &table, &levers());
    assert!(set_succeeded(&known, true));
    assert!(!set_succeeded(&known, false));
    let unknown = set_profile("turbo", &table, &levers());
    assert!(!set_succeeded(&unknown, true));
}
