use acer_profile::dbus::{
    profile_dict, DbusError, PowerProfiles, PowerProfilesAlias, SharedState, BUS_NAME,
    BUS_NAME_ALIAS, CPU_DRIVER, OBJECT_PATH, OBJECT_PATH_ALIAS, PLATFORM_DRIVER, VERSION,
};

#[test]
fn bus_names_and_paths() {
    assert_eq!(BUS_NAME, "net.hadess.PowerProfiles");
    assert_eq!(BUS_NAME_ALIAS, "org.freedesktop.UPower.PowerProfiles");
    assert_eq!(OBJECT_PATH, "/net/hadess/PowerProfiles");
    assert_eq!(OBJECT_PATH_ALIAS, "/org/freedesktop/UPower/PowerProfiles");
}

#[test]
fn active_profile_uses_dbus_names() {
    let pp = PowerProfiles::new();
    let mut st = SharedState::new("eco");
    assert_eq!(pp.active_profile(&st), "power-saver");
    st.set("normal");
    assert_eq!(pp.active_profile(&st), "balanced");
    st.set("performance");
    assert_eq!(pp.active_profile(&st), "performance");
    assert_eq!(st.get(), "performance");
}

#[test]
fn set_then_get_reads_back_the_dbus_name() {
    for obj_is_alias in [false, true] {
        for name in ["power-saver", "balanced", "performance"] {
            let mut st = SharedState::new("normal");
            let (canonical, got) = if obj_is_alias {
                let pp = PowerProfilesAlias::new();
                let c = pp.requested_profile(name).unwrap();
                assert_eq!(pp.set_active_profile(&mut st, c, true), Ok(()));
                (c, pp.active_profile(&st))
            } else {
                let pp = PowerProfiles::new();
                let c = pp.requested_profile(name).unwrap();
                assert_eq!(pp.set_active_profile(&mut st, c, true), Ok(()));
                (c, pp.active_profile(&st))
            };
            assert_eq!(st.get(), canonical);
            assert_eq!(got, name);
        }
    }
}

#[test]
fn requested_profile_accepts_aliases() {
    let pp = PowerProfiles::new();
    assert_eq!(pp.requested_profile("eco"), Ok("eco"));
    assert_eq!(pp.requested_profile("perf"), Ok("performance"));
    assert_eq!(pp.requested_profile("balanced"), Ok("normal"));
}

#[test]
fn requested_profile_refuses_unknown_name() {
    let pp = PowerProfiles::new();
    assert_eq!(
        pp.requested_profile("turbo"),
        Err(DbusError::InvalidArgs { value: "turbo".to_string() })
    );
    let alias = PowerProfilesAlias::new();
    assert_eq!(
        alias.requested_profile("Balanced"),
        Err(DbusError::InvalidArgs { value: "Balanced".to_string() })
    );
}

#[test]
fn failed_apply_keeps_the_state() {
    let pp = PowerProfiles::new();
    let mut st = SharedState::new("normal");
    assert_eq!(
        pp.set_active_profile(&mut st, "performance", false),
        Err(DbusError::Failed { profile: "performance".to_string() })
    );
    assert_eq!(st.get(), "normal");
    assert_eq!(pp.active_profile(&st), "balanced");
}

#[test]
fn profiles_property_lists_three() {
    let pp = PowerProfiles::new();
    let list = pp.profiles();
    assert_eq!(list.len(), 3);
    assert_eq!(list[0], profile_dict("power-saver", CPU_DRIVER));
    assert_eq!(list[1].profile, "balanced");
    assert_eq!(list[2].profile, "performance");
    assert_eq!(list[2].cpu_driver, "intel_pstate");
    assert_eq!(list[2].platform_driver, PLATFORM_DRIVER);
    assert_eq!(list[2].driver, "intel_pstate");
    assert_eq!(PowerProfilesAlias::new().profiles(), list);
}

#[test]
fn fixed_properties() {
    let pp = PowerProfiles::new();
    assert_eq!(pp.version(), "0.30");
    assert_eq!(VERSION, "0.30");
    assert_eq!(pp.performance_degraded(), "");
    assert_eq!(pp.performance_inhibited(), "");
    assert!(pp.actions().is_empty());
    assert!(pp.active_profile_holds().is_empty());
    let alias = PowerProfilesAlias::new();
    assert_eq!(alias.version(), "0.30");
    assert_eq!(alias.performance_degraded(), "");
    assert!(alias.actions().is_empty());
}

#[test]
fn hold_profile_counts_cookies_from_one() {
    let mut pp = PowerProfiles::new();
    assert_eq!(pp.hold_profile("performance", "game", "app"), 1);
    assert_eq!(pp.hold_profile("performance", "game", "app"), 2);
    pp.release_profile(1);
    assert_eq!(pp.hold_profile("power-saver", "battery", "app"), 3);
    let mut alias = PowerProfilesAlias::new();
    assert_eq!(alias.hold_profile("performance", "", ""), 1);
    alias.release_profile(7);
    assert_eq!(alias.hold_profile("performance", "", ""), 2);
}
