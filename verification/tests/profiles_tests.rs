use acer_profile::profiles::{
    alias, aliases_of, canonical, is_valid_profile, profile_aliases_list, resolve, to_ppd_name,
    valid_profiles, Profile, ProfileTable,
};

fn profile(pl1: i64, epp: &str) -> Profile {
    Profile {
        pl1_uw: Some(pl1),
        pl2_uw: None,
        epp: Some(epp.to_string()),
        governor: None,
        gpu_max_mhz: None,
        gpu_boost_mhz: None,
    }
}

#[test]
fn aliases_map_to_canonical_names() {
    assert_eq!(alias("power-saver"), Some("eco"));
    assert_eq!(alias("eco"), Some("eco"));
    assert_eq!(alias("balanced"), Some("normal"));
    assert_eq!(alias("normal"), Some("normal"));
    assert_eq!(alias("performance"), Some("performance"));
    assert_eq!(alias("perf"), Some("performance"));
    assert_eq!(alias("turbo"), None);
    assert_eq!(alias("Eco"), None);
    assert_eq!(alias(""), None);
    assert_eq!(canonical("balanced"), Some("normal"));
}

#[test]
fn canonical_names_are_fixed_points() {
    for c in valid_profiles() {
        assert_eq!(alias(c), Some(c));
        assert!(is_valid_profile(c));
    }
    assert!(!is_valid_profile("perf"));
}

#[test]
fn ppd_names_round_trip() {
    assert_eq!(to_ppd_name("eco"), "power-saver");
    assert_eq!(to_ppd_name("normal"), "balanced");
    assert_eq!(to_ppd_name("performance"), "performance");
    assert_eq!(to_ppd_name("bogus"), "balanced");
    for c in valid_profiles() {
        assert_eq!(alias(to_ppd_name(c)), Some(c));
    }
}

#[test]
fn alias_list_agrees_with_alias() {
    let list = profile_aliases_list();
    assert_eq!(list.len(), 6);
    for (a, c) in list {
        assert_eq!(alias(a), Some(c));
    }
}

#[test]
fn aliases_of_lists_the_other_names() {
    assert_eq!(aliases_of("eco"), vec!["power-saver"]);
    assert_eq!(aliases_of("normal"), vec!["balanced"]);
    assert_eq!(aliases_of("performance"), vec!["perf"]);
    assert_eq!(aliases_of("bogus"), Vec::<&str>::new());
}

#[test]
fn defaults_are_the_calibrated_values() {
    let t = ProfileTable::defaults();
    let eco = t.get("eco").unwrap();
    assert_eq!(eco.pl1_uw, Some(20_000_000));
    assert_eq!(eco.pl2_uw, Some(25_000_000));
    assert_eq!(eco.epp.as_deref(), Some("power"));
    assert_eq!(eco.governor.as_deref(), Some("powersave"));
    assert_eq!(eco.gpu_max_mhz, Some(800));
    assert_eq!(eco.gpu_boost_mhz, Some(800));
    let normal = t.get("normal").unwrap();
    assert_eq!(normal.pl1_uw, Some(35_000_000));
    assert_eq!(normal.pl2_uw, Some(45_000_000));
    assert_eq!(normal.epp.as_deref(), Some("balance_power"));
    assert_eq!(normal.gpu_max_mhz, Some(1600));
    let perf = t.get("performance").unwrap();
    assert_eq!(perf.pl1_uw, Some(45_000_000));
    assert_eq!(perf.pl2_uw, Some(64_000_000));
    assert_eq!(perf.epp.as_deref(), Some("performance"));
    assert_eq!(perf.governor.as_deref(), Some("performance"));
    assert_eq!(perf.gpu_boost_mhz, Some(2350));
    assert!(t.get("balanced").is_none());
}

#[test]
fn overrides_replace_known_profiles_only() {
    let mut t = ProfileTable::defaults();
    let ignored = t.apply_overrides(vec![
        ("eco".to_string(), profile(28_000_000, "power")),
        ("balanced".to_string(), profile(1, "x")),
        ("turbo".to_string(), profile(2, "y")),
        ("eco".to_string(), profile(22_000_000, "balance_power")),
    ]);
    assert_eq!(ignored, vec!["balanced".to_string(), "turbo".to_string()]);
    let eco = t.get("eco").unwrap();
    assert_eq!(eco.pl1_uw, Some(22_000_000));
    assert_eq!(eco.pl2_uw, None);
    assert_eq!(eco.governor, None);
    assert_eq!(t.get("normal").unwrap().pl1_uw, Some(35_000_000));
}

#[test]
fn resolve_accepts_aliases() {
    let t = ProfileTable::defaults();
    assert_eq!(resolve("power-saver", &t).unwrap().pl1_uw, Some(20_000_000));
    assert_eq!(resolve("perf", &t).unwrap().pl2_uw, Some(64_000_000));
    assert!(resolve("turbo", &t).is_none());
}

#[test]
fn default_profile_is_empty() {
    let p = Profile::default();
    assert_eq!(p.pl1_uw, None);
    assert_eq!(p.epp, None);
    assert_eq!(p.gpu_boost_mhz, None);
}
