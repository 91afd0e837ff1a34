//! Profile definitions: the three canonical profiles (`eco`, `normal`,
//! `performance`), their aliases, the names shown on DBus, the calibrated
//! defaults and how a configuration file overrides them.

use vstd::prelude::*;
use crate::text::str_eq;

verus! {

// ------------------------------------------------------------ names

/// Canonical name for an accepted profile name, `None` for an unknown one.
pub open spec fn alias_spec(n: Seq<char>) -> Option<Seq<char>> {
    if n == "power-saver"@ || n == "eco"@ {
        Some("eco"@)
    } else if n == "balanced"@ || n == "normal"@ {
        Some("normal"@)
    } else if n == "performance"@ || n == "perf"@ {
        Some("performance"@)
    } else {
        None
    }
}

/// The name a canonical profile has on DBus (power-profiles-daemon style).
pub open spec fn ppd_name_spec(c: Seq<char>) -> Seq<char> {
    if c == "eco"@ {
        "power-saver"@
    } else if c == "normal"@ {
        "balanced"@
    } else if c == "performance"@ {
        "performance"@
    } else {
        "balanced"@
    }
}

pub open spec fn is_canonical(n: Seq<char>) -> bool {
    n == "eco"@ || n == "normal"@ || n == "performance"@
}

/// Maps an accepted name (canonical or alias) to its canonical profile name.
pub fn alias(name: &str) -> (r: Option<&'static str>)
    ensures
        match r {
            Some(c) => alias_spec(name@) == Some(c@),
            None => alias_spec(name@) is None,
        },
{
    if str_eq(name, "power-saver") || str_eq(name, "eco") {
        Some("eco")
    } else if str_eq(name, "balanced") || str_eq(name, "normal") {
        Some("normal")
    } else if str_eq(name, "performance") || str_eq(name, "perf") {
        Some("performance")
    } else {
        None
    }
}

/// The canonical name of a profile, `None` for an unknown name.
pub fn canonical(name: &str) -> (r: Option<&'static str>)
    ensures
        match r {
            Some(c) => alias_spec(name@) == Some(c@),
            None => alias_spec(name@) is None,
        },
{
    alias(name)
}

/// The DBus (power-profiles-daemon) name of a canonical profile; unknown
/// names map to `balanced`.
pub fn to_ppd_name(canonical: &str) -> (r: &'static str)
    ensures
        r@ == ppd_name_spec(canonical@),
{
    if str_eq(canonical, "eco") {
        "power-saver"
    } else if str_eq(canonical, "normal") {
        "balanced"
    } else if str_eq(canonical, "performance") {
        "performance"
    } else {
        "balanced"
    }
}

/// Every accepted name with its canonical profile, in help-text order.
pub open spec fn alias_pairs() -> Seq<(Seq<char>, Seq<char>)> {
    seq![
        ("power-saver"@, "eco"@),
        ("balanced"@, "normal"@),
        ("performance"@, "performance"@),
        ("eco"@, "eco"@),
        ("normal"@, "normal"@),
        ("perf"@, "performance"@),
    ]
}

pub open spec fn pairs_view(v: Seq<(&'static str, &'static str)>) -> Seq<(Seq<char>, Seq<char>)> {
    v.map_values(|e: (&'static str, &'static str)| (e.0@, e.1@))
}

/// The accepted names listed in `pairs` as aliases of `name`, other than
/// `name` itself, in order.
pub open spec fn aliases_in(pairs: Seq<(Seq<char>, Seq<char>)>, name: Seq<char>) -> Seq<Seq<char>>
    decreases pairs.len(),
{
    if pairs.len() == 0 {
        Seq::empty()
    } else {
        let rest = aliases_in(pairs.drop_last(), name);
        let e = pairs.last();
        if e.1 == name && e.0 != name {
            rest.push(e.0)
        } else {
            rest
        }
    }
}

/// Every accepted name with its canonical profile, for command-line help.
pub fn profile_aliases_list() -> (r: Vec<(&'static str, &'static str)>)
    ensures
        pairs_view(r@) == alias_pairs(),
{
    let mut v: Vec<(&'static str, &'static str)> = Vec::new();
    v.push(("power-saver", "eco"));
    v.push(("balanced", "normal"));
    v.push(("performance", "performance"));
    v.push(("eco", "eco"));
    v.push(("normal", "normal"));
    v.push(("perf", "performance"));
    assert(pairs_view(v@) =~= alias_pairs());
    v
}

/// The aliases of the canonical profile `name`, other than `name` itself, in
/// help-text order.
pub fn aliases_of(name: &str) -> (r: Vec<&'static str>)
    ensures
        r@.map_values(|s: &'static str| s@) == aliases_in(alias_pairs(), name@),
{
    let list = profile_aliases_list();
    let ghost pairs = alias_pairs();
    let mut out: Vec<&'static str> = Vec::new();
    let mut i: usize = 0;
    assert(pairs.take(0) =~= Seq::<(Seq<char>, Seq<char>)>::empty());
    while i < list.len()
        invariant
            pairs_view(list@) == pairs,
            i <= list.len(),
            out@.map_values(|s: &'static str| s@) == aliases_in(pairs.take(i as int), name@),
        decreases list.len() - i,
    {
        let (a, c) = list[i];
        let ghost before = out@.map_values(|s: &'static str| s@);
        proof {
            assert(pairs.take(i + 1).drop_last() =~= pairs.take(i as int));
            assert(pairs.take(i + 1).last() == pairs[i as int]);
            assert(pairs[i as int] == (a@, c@));
        }
        if str_eq(c, name) && !str_eq(a, name) {
            out.push(a);
            assert(out@.map_values(|s: &'static str| s@) =~= before.push(a@));
        }
        i = i + 1;
    }
    assert(pairs.take(i as int) =~= pairs);
    out
}

/// Each listed alias is accepted as the profile it is listed with.
pub proof fn lemma_alias_pairs_agree()
    ensures
        forall|i: int|
            0 <= i < alias_pairs().len() ==> alias_spec((#[trigger] alias_pairs()[i]).0) == Some(
                alias_pairs()[i].1,
            ),
{
    lemma_names_distinct();
}

/// The canonical profile names, in display order.
pub fn valid_profiles() -> (r: Vec<&'static str>)
    ensures
        r@.len() == 3,
        r@[0]@ == "eco"@,
        r@[1]@ == "normal"@,
        r@[2]@ == "performance"@,
{
    let mut v: Vec<&'static str> = Vec::new();
    v.push("eco");
    v.push("normal");
    v.push("performance");
    v
}

/// Whether `name` is one of the canonical profile names.
pub fn is_valid_profile(name: &str) -> (r: bool)
    ensures
        r == is_canonical(name@),
{
    str_eq(name, "eco") || str_eq(name, "normal") || str_eq(name, "performance")
}

// ------------------------------------------------------------ laws on names

/// The six accepted names are pairwise different.
pub proof fn lemma_names_distinct()
    ensures
        "power-saver"@ != "eco"@,
        "power-saver"@ != "balanced"@,
        "power-saver"@ != "normal"@,
        "power-saver"@ != "performance"@,
        "power-saver"@ != "perf"@,
        "eco"@ != "balanced"@,
        "eco"@ != "normal"@,
        "eco"@ != "performance"@,
        "eco"@ != "perf"@,
        "balanced"@ != "normal"@,
        "balanced"@ != "performance"@,
        "balanced"@ != "perf"@,
        "normal"@ != "performance"@,
        "normal"@ != "perf"@,
        "performance"@ != "perf"@,
{
    reveal_strlit("power-saver");
    reveal_strlit("eco");
    reveal_strlit("balanced");
    reveal_strlit("normal");
    reveal_strlit("performance");
    reveal_strlit("perf");
    assert("power-saver"@.len() == 11);
    assert("eco"@.len() == 3);
    assert("balanced"@.len() == 8);
    assert("normal"@.len() == 6);
    assert("performance"@.len() == 11);
    assert("perf"@.len() == 4);
    assert("power-saver"@[2] == 'w');
    assert("performance"@[2] == 'r');
}

/// Canonical names are accepted names and map to themselves.
pub proof fn lemma_canonical_fixed(c: Seq<char>)
    requires
        is_canonical(c),
    ensures
        alias_spec(c) == Some(c),
{
    lemma_names_distinct();
}

/// Every accepted name maps to a canonical name.
pub proof fn lemma_alias_canonical(n: Seq<char>)
    ensures
        alias_spec(n) matches Some(c) ==> is_canonical(c),
{
}

/// The DBus name of a canonical profile is accepted back as that profile.
pub proof fn lemma_ppd_name_round_trip(c: Seq<char>)
    requires
        is_canonical(c),
    ensures
        alias_spec(ppd_name_spec(c)) == Some(c),
{
    lemma_names_distinct();
}

// ------------------------------------------------------------ profiles

pub open spec fn opt_text(o: Option<String>) -> Option<Seq<char>> {
    match o {
        Some(s) => Some(s@),
        None => None,
    }
}

/// The lever settings of one profile. An absent value leaves that lever alone.
#[derive(Clone, Debug)]
pub struct Profile {
    /// Long-term (sustained) package power limit, in microwatts.
    pub pl1_uw: Option<i64>,
    /// Short-term (turbo) package power limit, in microwatts.
    pub pl2_uw: Option<i64>,
    /// `energy_performance_preference` of every CPU policy.
    pub epp: Option<String>,
    /// `scaling_governor` of every CPU policy.
    pub governor: Option<String>,
    /// i915 `gt_max_freq_mhz`.
    pub gpu_max_mhz: Option<i64>,
    /// i915 `gt_boost_freq_mhz`.
    pub gpu_boost_mhz: Option<i64>,
}

pub struct ProfileView {
    pub pl1_uw: Option<i64>,
    pub pl2_uw: Option<i64>,
    pub epp: Option<Seq<char>>,
    pub governor: Option<Seq<char>>,
    pub gpu_max_mhz: Option<i64>,
    pub gpu_boost_mhz: Option<i64>,
}

impl View for Profile {
    type V = ProfileView;

    open spec fn view(&self) -> ProfileView {
        ProfileView {
            pl1_uw: self.pl1_uw,
            pl2_uw: self.pl2_uw,
            epp: opt_text(self.epp),
            governor: opt_text(self.governor),
            gpu_max_mhz: self.gpu_max_mhz,
            gpu_boost_mhz: self.gpu_boost_mhz,
        }
    }
}

impl Default for Profile {
    /// A profile that touches no lever.
    fn default() -> (r: Profile)
        ensures
            r@ == (ProfileView {
                pl1_uw: None,
                pl2_uw: None,
                epp: None,
                governor: None,
                gpu_max_mhz: None,
                gpu_boost_mhz: None,
            }),
    {
        Profile {
            pl1_uw: None,
            pl2_uw: None,
            epp: None,
            governor: None,
            gpu_max_mhz: None,
            gpu_boost_mhz: None,
        }
    }
}

/// The calibrated settings of the canonical profile `c`: `eco` 20/25 W,
/// `power`, `powersave`, GPU 800 MHz; `normal` 35/45 W, `balance_power`,
/// `powersave`, GPU 1600 MHz; `performance` 45/64 W, `performance` EPP and
/// governor, GPU 2350 MHz.
pub open spec fn default_profile(c: Seq<char>) -> ProfileView {
    if c == "eco"@ {
        ProfileView {
            pl1_uw: Some(20_000_000),
            pl2_uw: Some(25_000_000),
            epp: Some("power"@),
            governor: Some("powersave"@),
            gpu_max_mhz: Some(800),
            gpu_boost_mhz: Some(800),
        }
    } else if c == "normal"@ {
        ProfileView {
            pl1_uw: Some(35_000_000),
            pl2_uw: Some(45_000_000),
            epp: Some("balance_power"@),
            governor: Some("powersave"@),
            gpu_max_mhz: Some(1600),
            gpu_boost_mhz: Some(1600),
        }
    } else {
        ProfileView {
            pl1_uw: Some(45_000_000),
            pl2_uw: Some(64_000_000),
            epp: Some("performance"@),
            governor: Some("performance"@),
            gpu_max_mhz: Some(2350),
            gpu_boost_mhz: Some(2350),
        }
    }
}

/// The table of default profiles, keyed by canonical name.
pub open spec fn default_table() -> Map<Seq<char>, ProfileView> {
    map![
        "eco"@ => default_profile("eco"@),
        "normal"@ => default_profile("normal"@),
        "performance"@ => default_profile("performance"@),
    ]
}

/// One table entry replaced by a configuration section; a section whose name
/// is not a profile of the table is ignored.
pub open spec fn override_entry(
    t: Map<Seq<char>, ProfileView>,
    name: Seq<char>,
    p: ProfileView,
) -> Map<Seq<char>, ProfileView> {
    if t.dom().contains(name) {
        t.insert(name, p)
    } else {
        t
    }
}

/// The table after every configuration section, in order.
pub open spec fn overridden(
    t: Map<Seq<char>, ProfileView>,
    sections: Seq<(Seq<char>, ProfileView)>,
) -> Map<Seq<char>, ProfileView>
    decreases sections.len(),
{
    if sections.len() == 0 {
        t
    } else {
        let s = sections.last();
        override_entry(overridden(t, sections.drop_last()), s.0, s.1)
    }
}

pub open spec fn sections_view(v: Seq<(String, Profile)>) -> Seq<(Seq<char>, ProfileView)> {
    v.map_values(|e: (String, Profile)| (e.0@, e.1@))
}

/// Overriding keeps the table's names; the entry of a name that no section
/// names stays as it was; and the entry of a name is the profile of the last
/// section that names it. So a section never changes the entry of another
/// name, and a later section for the same name wins.
pub proof fn lemma_overrides_last_wins(
    t: Map<Seq<char>, ProfileView>,
    sections: Seq<(Seq<char>, ProfileView)>,
)
    ensures
        overridden(t, sections).dom() == t.dom(),
        forall|n: Seq<char>|
            t.dom().contains(n) && (forall|i: int| 0 <= i < sections.len() ==> (#[trigger] sections[i]).0 != n)
                ==> #[trigger] overridden(t, sections)[n] == t[n],
        forall|i: int|
            0 <= i < sections.len() && t.dom().contains((#[trigger] sections[i]).0) && (forall|j: int|
                i < j < sections.len() ==> (#[trigger] sections[j]).0 != sections[i].0) ==> overridden(
                t,
                sections,
            )[sections[i].0] == sections[i].1,
    decreases sections.len(),
{
    if sections.len() > 0 {
        let sd = sections.drop_last();
        let l = sections.len() - 1;
        let last = sections[l];
        assert(last == sections.last());
        lemma_overrides_last_wins(t, sd);
        let prev = overridden(t, sd);
        assert(overridden(t, sections) == override_entry(prev, last.0, last.1));
        assert(overridden(t, sections).dom() =~= t.dom());
        assert forall|n: Seq<char>|
            t.dom().contains(n) && (forall|i: int| 0 <= i < sections.len() ==> (#[trigger] sections[i]).0 != n)
                implies #[trigger] overridden(t, sections)[n] == t[n] by {
            assert(sections[l].0 != n);
            assert forall|i: int| 0 <= i < sd.len() implies (#[trigger] sd[i]).0 != n by {
                assert(sd[i] == sections[i]);
            }
        }
        assert forall|i: int|
            0 <= i < sections.len() && t.dom().contains((#[trigger] sections[i]).0) && (forall|j: int|
                i < j < sections.len() ==> (#[trigger] sections[j]).0 != sections[i].0) implies overridden(
                t,
                sections,
            )[sections[i].0] == sections[i].1 by {
            if i < l {
                assert(sections[l].0 != sections[i].0);
                assert(sd[i] == sections[i]);
                assert forall|j: int| i < j < sd.len() implies (#[trigger] sd[j]).0 != sd[i].0 by {
                    assert(sd[j] == sections[j]);
                }
            }
        }
    }
}

/// The names among `sections` that name no profile, in order.
pub open spec fn unknown_names(sections: Seq<(Seq<char>, ProfileView)>) -> Seq<Seq<char>>
    decreases sections.len(),
{
    if sections.len() == 0 {
        Seq::empty()
    } else {
        let rest = unknown_names(sections.drop_last());
        if is_canonical(sections.last().0) {
            rest
        } else {
            rest.push(sections.last().0)
        }
    }
}

/// The profiles by canonical name. It always holds the three canonical
/// profiles and nothing else.
pub struct ProfileTable {
    eco: Profile,
    normal: Profile,
    performance: Profile,
}

impl View for ProfileTable {
    type V = Map<Seq<char>, ProfileView>;

    closed spec fn view(&self) -> Map<Seq<char>, ProfileView> {
        map!["eco"@ => self.eco@, "normal"@ => self.normal@, "performance"@ => self.performance@]
    }
}

proof fn lemma_distinct_names()
    ensures
        "eco"@ != "normal"@,
        "eco"@ != "performance"@,
        "normal"@ != "performance"@,
{
    lemma_names_distinct();
}

fn text(s: &str) -> (r: Option<String>)
    ensures
        opt_text(r) == Some(s@),
{
    Some(s.to_owned())
}

fn make_profile(
    pl1: i64,
    pl2: i64,
    epp: &str,
    governor: &str,
    gpu_max: i64,
    gpu_boost: i64,
) -> (r: Profile)
    ensures
        r@ == (ProfileView {
            pl1_uw: Some(pl1),
            pl2_uw: Some(pl2),
            epp: Some(epp@),
            governor: Some(governor@),
            gpu_max_mhz: Some(gpu_max),
            gpu_boost_mhz: Some(gpu_boost),
        }),
{
    Profile {
        pl1_uw: Some(pl1),
        pl2_uw: Some(pl2),
        epp: text(epp),
        governor: text(governor),
        gpu_max_mhz: Some(gpu_max),
        gpu_boost_mhz: Some(gpu_boost),
    }
}

impl ProfileTable {
    /// The table with domain facts: exactly the three canonical names.
    pub proof fn lemma_domain(&self)
        ensures
            forall|n: Seq<char>| #[trigger] self@.dom().contains(n) <==> is_canonical(n),
            self@["eco"@] == self.eco_view(),
            self@["normal"@] == self.normal_view(),
            self@["performance"@] == self.performance_view(),
    {
        lemma_distinct_names();
    }

    pub closed spec fn eco_view(&self) -> ProfileView {
        self.eco@
    }

    pub closed spec fn normal_view(&self) -> ProfileView {
        self.normal@
    }

    pub closed spec fn performance_view(&self) -> ProfileView {
        self.performance@
    }

    /// The calibrated defaults (Acer Swift SFG14-73, Core Ultra 9 185H).
    pub fn defaults() -> (r: ProfileTable)
        ensures
            r@ == default_table(),
    {
        let r = ProfileTable {
            eco: make_profile(20_000_000, 25_000_000, "power", "powersave", 800, 800),
            normal: make_profile(35_000_000, 45_000_000, "balance_power", "powersave", 1600, 1600),
            performance: make_profile(
                45_000_000,
                64_000_000,
                "performance",
                "performance",
                2350,
                2350,
            ),
        };
        proof {
            lemma_distinct_names();
            assert(r@ =~= default_table());
        }
        r
    }

    /// The profile named exactly `name` (a canonical name), if any.
    pub fn get(&self, name: &str) -> (r: Option<&Profile>)
        ensures
            match r {
                Some(p) => self@.dom().contains(name@) && p@ == self@[name@],
                None => !self@.dom().contains(name@),
            },
    {
        proof {
            lemma_distinct_names();
        }
        if str_eq(name, "eco") {
            Some(&self.eco)
        } else if str_eq(name, "normal") {
            Some(&self.normal)
        } else if str_eq(name, "performance") {
            Some(&self.performance)
        } else {
            None
        }
    }

    /// Replaces profiles by configuration sections, in order; a later section
    /// for the same profile wins. Returns the names of the sections that name
    /// no profile, which are ignored.
    pub fn apply_overrides(&mut self, sections: Vec<(String, Profile)>) -> (ignored: Vec<String>)
        ensures
            final(self)@ == overridden(old(self)@, sections_view(sections@)),
            ignored@.map_values(|s: String| s@) == unknown_names(sections_view(sections@)),
    {
        let ghost start = self@;
        let ghost all = sections_view(sections@);
        let mut ignored: Vec<String> = Vec::new();
        let mut rest = sections;
        proof {
            lemma_distinct_names();
        }
        let ghost n = all.len();
        assert(n == rest.len());
        assert(sections_view(rest@) =~= all.skip(0));
        assert(all.take(0) =~= Seq::<(Seq<char>, ProfileView)>::empty());
        let mut i: usize = 0;
        while rest.len() > 0
            invariant
                n == all.len(),
                n <= usize::MAX,
                i + rest.len() == n,
                sections_view(rest@) =~= all.skip(i as int),
                self@ == overridden(start, all.take(i as int)),
                ignored@.map_values(|s: String| s@) == unknown_names(all.take(i as int)),
            decreases rest.len(),
        {
            let ghost before_rest = sections_view(rest@);
            let ghost raw_before = rest@;
            let (name, profile) = rest.remove(0);
            proof {
                assert(rest@ =~= raw_before.remove(0));
                assert(sections_view(rest@) =~= before_rest.drop_first());
                assert(before_rest[0] == (name@, profile@));
                assert(all[i as int] == (name@, profile@));
                assert(all.take(i + 1).drop_last() =~= all.take(i as int));
                assert(all.take(i + 1).last() == all[i as int]);
                assert(sections_view(rest@) =~= all.skip(i + 1));
            }
            let ghost before_ignored = ignored@.map_values(|s: String| s@);
            if str_eq(name.as_str(), "eco") {
                self.eco = profile;
            } else if str_eq(name.as_str(), "normal") {
                self.normal = profile;
            } else if str_eq(name.as_str(), "performance") {
                self.performance = profile;
            } else {
                ignored.push(name);
                assert(ignored@.map_values(|s: String| s@) =~= before_ignored.push(
                    all[i as int].0,
                ));
            }
            proof {
                lemma_distinct_names();
                let prev = overridden(start, all.take(i as int));
                assert(self@ =~= override_entry(prev, all[i as int].0, all[i as int].1));
            }
            i = i + 1;
        }
        proof {
            assert(all.take(i as int) =~= all);
        }
        ignored
    }
}

/// Resolves an accepted name (canonical or alias) to its profile.
pub fn resolve<'a>(name: &str, profiles: &'a ProfileTable) -> (r: Option<&'a Profile>)
    ensures
        match r {
            Some(p) => alias_spec(name@) matches Some(c) && profiles@.dom().contains(c) && p@
                == profiles@[c],
            None => alias_spec(name@) is None,
        },
{
    proof {
        profiles.lemma_domain();
    }
    match alias(name) {
        Some(key) => profiles.get(key),
        None => None,
    }
}

/// Every profile table holds the three canonical profiles and nothing else.
pub proof fn lemma_table_domain(t: &ProfileTable)
    ensures
        forall|n: Seq<char>| #[trigger] t@.dom().contains(n) <==> is_canonical(n),
{
    t.lemma_domain();
}

/// Every accepted name resolves to a profile.
pub proof fn lemma_accepted_names_resolve(t: &ProfileTable, n: Seq<char>)
    requires
        alias_spec(n) is Some,
    ensures
        t@.dom().contains(alias_spec(n)->0),
{
    t.lemma_domain();
}

} // verus!
