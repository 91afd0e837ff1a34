use acer_profile::glob::{
    glob_match, glob_step, has_wildcard, path_le_exec, pattern_segments_exec, sort_paths, GlobWalk,
    SysPath,
};

fn path(s: &str) -> SysPath {
    SysPath { comps: s.split('/').filter(|c| !c.is_empty()).map(|c| c.to_string()).collect() }
}

fn names(v: &[&str]) -> Vec<String> {
    v.iter().map(|s| s.to_string()).collect()
}

#[test]
fn star_matches_any_run() {
    assert!(glob_match("policy*", "policy0"));
    assert!(glob_match("policy*", "policy"));
    assert!(!glob_match("policy*", "polic"));
    assert!(glob_match("intel-rapl:*", "intel-rapl:0"));
    assert!(!glob_match("intel-rapl:*", "intel-rapl0"));
    assert!(glob_match("*:*", "0000:00:02.0"));
    assert!(!glob_match("*:*", "drm"));
    assert!(glob_match("temp*_input", "temp1_input"));
    assert!(glob_match("temp*_input", "temp_input"));
    assert!(!glob_match("temp*_input", "temp1_label"));
    assert!(glob_match("*", ""));
    assert!(glob_match("**", "abc"));
    assert!(glob_match("a**b", "ab"));
    assert!(!glob_match("", "a"));
    assert!(glob_match("", ""));
}

#[test]
fn literal_segment_matches_only_itself() {
    assert!(glob_match("cpufreq", "cpufreq"));
    assert!(!glob_match("cpufreq", "cpufreqx"));
    assert!(!has_wildcard("cpufreq"));
    assert!(has_wildcard("card*"));
}

#[test]
fn segments_drop_empty_parts() {
    assert_eq!(
        pattern_segments_exec("/sys/devices//system/cpu/cpufreq/policy*/"),
        names(&["sys", "devices", "system", "cpu", "cpufreq", "policy*"])
    );
    assert_eq!(pattern_segments_exec("/"), Vec::<String>::new());
    assert_eq!(pattern_segments_exec("a"), names(&["a"]));
}

#[test]
fn step_keeps_matching_names_below_each_base() {
    let bases = vec![path("/sys/a"), path("/sys/b")];
    let found = vec![names(&["policy1", "other", "policy0"]), names(&["policy2"])];
    let out = glob_step("policy*", &bases, &found);
    assert_eq!(
        out,
        vec![path("/sys/a/policy1"), path("/sys/a/policy0"), path("/sys/b/policy2")]
    );
}

#[test]
fn paths_sort_component_by_component() {
    assert!(path_le_exec(&path("/a/b/x"), &path("/a/b-c")));
    assert!(!path_le_exec(&path("/a/b-c"), &path("/a/b/x")));
    let sorted = sort_paths(vec![
        path("/p/policy2"),
        path("/p/policy10"),
        path("/p/policy0"),
        path("/p/policy1"),
    ]);
    assert_eq!(
        sorted,
        vec![path("/p/policy0"), path("/p/policy1"), path("/p/policy10"), path("/p/policy2")]
    );
}

#[test]
fn walk_finds_sorted_matches() {
    let mut walk = GlobWalk::new("/sys/class/powercap/intel-rapl:*");
    let mut listings: Vec<Vec<String>> = Vec::new();
    while !walk.is_done() {
        let seg = walk.pending().unwrap().clone();
        let found: Vec<Vec<String>> = walk
            .paths()
            .iter()
            .map(|_| {
                if seg.contains('*') {
                    names(&["intel-rapl:1", "intel-rapl:0", "intel-rapl-mmio:0", "x"])
                } else {
                    vec![seg.clone()]
                }
            })
            .collect();
        listings.push(found.iter().flatten().cloned().collect());
        walk.advance(&found);
    }
    let out = walk.finish();
    assert_eq!(
        out,
        vec![
            path("/sys/class/powercap/intel-rapl:0"),
            path("/sys/class/powercap/intel-rapl:1"),
        ]
    );
    assert_eq!(listings.len(), 4);
}

#[test]
fn walk_stops_when_nothing_is_found() {
    let mut walk = GlobWalk::new("/nope/x*");
    assert!(!walk.is_done());
    walk.advance(&vec![Vec::new()]);
    assert!(walk.is_done());
    assert_eq!(walk.finish(), Vec::<SysPath>::new());
}

#[test]
fn path_helpers() {
    let p = path("/sys/class/hwmon/hwmon3/temp1_input");
    assert_eq!(p.parent().unwrap(), path("/sys/class/hwmon/hwmon3"));
    assert_eq!(p.file_name().unwrap(), "temp1_input");
    assert_eq!(SysPath::root().parent(), None);
    assert_eq!(SysPath::root().file_name(), None);
    assert_eq!(path("/a").child("b"), path("/a/b"));
    assert_eq!(p.duplicate(), p);
}

#[test]
fn walk_finds_each_path_once() {
    let mut walk = GlobWalk::new("/a/*/b*");
    while !walk.is_done() {
        let seg = walk.pending().unwrap().clone();
        let found: Vec<Vec<String>> = walk
            .paths()
            .iter()
            .map(|_| {
                if seg.contains('*') {
                    names(&["b2", "x", "b1", "y"])
                } else {
                    vec![seg.clone()]
                }
            })
            .collect();
        walk.advance(&found);
    }
    let out = walk.finish();
    assert_eq!(out.len(), 8);
    for i in 0..out.len() {
        for j in 0..out.len() {
            if i != j {
                assert_ne!(out[i], out[j]);
            }
        }
    }
    assert_eq!(out[0], path("/a/b1/b1"));
    assert_eq!(out[7], path("/a/y/b2"));
}
