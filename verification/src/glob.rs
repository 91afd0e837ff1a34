//! Wildcard matching and path discovery for sysfs patterns such as
//! `/sys/devices/system/cpu/cpufreq/policy*`.
//!
//! A pattern is split at `/` into segments; each segment may hold `*`, which
//! matches any run of characters (the empty one too). The directory walk is
//! driven from outside: for each pending segment the caller reports, for every
//! path found so far, the names present below it, and the walk keeps those
//! that match. The finished list is sorted component by component.

use vstd::prelude::*;
use vstd::relations::*;
use vstd::seq_lib::lemma_no_dup_in_concat;
use vstd::string::*;
use crate::text::{chars_of, str_eq};

verus! {

broadcast use vstd::seq_lib::group_to_multiset_ensures;

// ------------------------------------------------------------ matching

/// Whether the name `n` matches the segment pattern `p`.
pub open spec fn glob_matches(p: Seq<char>, n: Seq<char>) -> bool
    decreases p.len(), n.len(),
{
    if p.len() == 0 {
        n.len() == 0
    } else if p[0] == '*' {
        glob_matches(p.drop_first(), n) || (n.len() > 0 && glob_matches(p, n.drop_first()))
    } else {
        n.len() > 0 && n[0] == p[0] && glob_matches(p.drop_first(), n.drop_first())
    }
}

pub open spec fn has_star(p: Seq<char>) -> bool {
    exists|i: int| 0 <= i < p.len() && p[i] == '*'
}

/// A leading `*` matches exactly when the rest of the pattern matches some
/// suffix of the name.
proof fn lemma_star_split(p: Seq<char>, n: Seq<char>)
    requires
        p.len() > 0,
        p[0] == '*',
    ensures
        glob_matches(p, n) <==> exists|k: int|
            0 <= k <= n.len() && #[trigger] glob_matches(p.drop_first(), n.skip(k)),
    decreases n.len(),
{
    if n.len() == 0 {
        assert(n.skip(0) =~= n);
        if glob_matches(p, n) {
            assert(glob_matches(p.drop_first(), n.skip(0)));
        }
    } else {
        lemma_star_split(p, n.drop_first());
        if glob_matches(p, n) {
            if glob_matches(p.drop_first(), n) {
                assert(n.skip(0) =~= n);
                assert(glob_matches(p.drop_first(), n.skip(0)));
            } else {
                let k = choose|k: int|
                    0 <= k <= n.drop_first().len() && #[trigger] glob_matches(
                        p.drop_first(),
                        n.drop_first().skip(k),
                    );
                assert(n.drop_first().skip(k) =~= n.skip(k + 1));
                assert(glob_matches(p.drop_first(), n.skip(k + 1)));
            }
        }
        if exists|k: int| 0 <= k <= n.len() && #[trigger] glob_matches(p.drop_first(), n.skip(k)) {
            let k = choose|k: int|
                0 <= k <= n.len() && #[trigger] glob_matches(p.drop_first(), n.skip(k));
            if k == 0 {
                assert(n.skip(0) =~= n);
            } else {
                assert(n.drop_first().skip(k - 1) =~= n.skip(k));
                assert(glob_matches(p.drop_first(), n.drop_first().skip(k - 1)));
            }
        }
    }
}

/// Two leading stars match what one does.
proof fn lemma_double_star(p: Seq<char>, n: Seq<char>)
    requires
        p.len() > 1,
        p[0] == '*',
        p[1] == '*',
    ensures
        glob_matches(p, n) == glob_matches(p.drop_first(), n),
    decreases n.len(),
{
    if n.len() > 0 {
        lemma_double_star(p, n.drop_first());
    }
}

/// Without a `*`, a segment matches exactly the name equal to it.
pub proof fn lemma_literal_segment(p: Seq<char>, n: Seq<char>)
    requires
        !has_star(p),
    ensures
        glob_matches(p, n) <==> p == n,
    decreases p.len(),
{
    if p.len() > 0 {
        assert(p[0] != '*');
        assert(!has_star(p.drop_first())) by {
            if has_star(p.drop_first()) {
                let i = choose|i: int| 0 <= i < p.drop_first().len() && p.drop_first()[i] == '*';
                assert(p[i + 1] == '*');
            }
        }
        if n.len() > 0 {
            lemma_literal_segment(p.drop_first(), n.drop_first());
            if p.drop_first() == n.drop_first() && p[0] == n[0] {
                assert forall|i: int| 0 <= i < p.len() implies p[i] == n[i] by {
                    if i > 0 {
                        assert(p[i] == p.drop_first()[i - 1]);
                        assert(n[i] == n.drop_first()[i - 1]);
                    }
                }
                assert(p =~= n);
            }
            if p == n {
                assert(p.drop_first() =~= n.drop_first());
            }
        }
    } else {
        if n.len() == 0 {
            assert(p =~= n);
        }
    }
}

/// A lone `*` matches every name.
pub proof fn lemma_star_matches_all(n: Seq<char>)
    ensures
        glob_matches(seq!['*'], n),
{
    lemma_star_split(seq!['*'], n);
    assert(seq!['*'].drop_first() =~= Seq::<char>::empty());
    assert(n.skip(n.len() as int) =~= Seq::<char>::empty());
    assert(glob_matches(seq!['*'].drop_first(), n.skip(n.len() as int)));
}

fn glob_match_impl(pat: &Vec<char>, pi0: usize, nam: &Vec<char>, ni0: usize) -> (r: bool)
    requires
        pi0 <= pat.len(),
        ni0 <= nam.len(),
    ensures
        r == glob_matches(pat@.skip(pi0 as int), nam@.skip(ni0 as int)),
    decreases pat.len() - pi0,
{
    let mut pi = pi0;
    let mut ni = ni0;
    let ghost goal = glob_matches(pat@.skip(pi0 as int), nam@.skip(ni0 as int));
    while pi < pat.len()
        invariant
            goal == glob_matches(pat@.skip(pi0 as int), nam@.skip(ni0 as int)),
            pi0 <= pi <= pat.len(),
            ni <= nam.len(),
            goal == glob_matches(pat@.skip(pi as int), nam@.skip(ni as int)),
        decreases pat.len() - pi,
    {
        if pat[pi] == '*' {
            let ghost m = nam@.skip(ni as int);
            let ghost star = pi;
            pi = pi + 1;
            while pi < pat.len() && pat[pi] == '*'
                invariant
                    goal == glob_matches(pat@.skip(pi0 as int), nam@.skip(ni0 as int)),
                    pi0 <= star < pi <= pat.len(),
                    ni <= nam.len(),
                    m == nam@.skip(ni as int),
                    pat@[pi - 1] == '*',
                    goal == glob_matches(pat@.skip(pi - 1), m),
                decreases pat.len() - pi,
            {
                proof {
                    if pi + 1 <= pat.len() && pat@[pi as int] == '*' {
                        let p = pat@.skip(pi - 1);
                        assert(p[0] == '*' && p[1] == '*');
                        lemma_double_star(p, m);
                        assert(p.drop_first() =~= pat@.skip(pi as int));
                    }
                }
                pi = pi + 1;
            }
            proof {
                let p = pat@.skip(pi - 1);
                lemma_star_split(p, m);
                assert(p.drop_first() =~= pat@.skip(pi as int));
            }
            if pi == pat.len() {
                proof {
                    assert(pat@.skip(pi as int) =~= Seq::<char>::empty());
                    assert(m.skip(m.len() as int) =~= Seq::<char>::empty());
                    assert(glob_matches(pat@.skip(pi as int), m.skip(m.len() as int)));
                }
                return true;
            }
            let ghost n0 = ni;
            loop
                invariant
                    goal == glob_matches(pat@.skip(pi0 as int), nam@.skip(ni0 as int)),
                    pi0 < pi < pat.len(),
                    n0 <= ni <= nam.len(),
                    m == nam@.skip(n0 as int),
                    goal == exists|k: int|
                        0 <= k <= m.len() && #[trigger] glob_matches(pat@.skip(pi as int), m.skip(k)),
                    forall|k: int|
                        0 <= k < ni - n0 ==> !#[trigger] glob_matches(pat@.skip(pi as int), m.skip(k)),
                decreases nam.len() - ni,
            {
                if glob_match_impl(pat, pi, nam, ni) {
                    proof {
                        assert(m.skip(ni - n0) =~= nam@.skip(ni as int));
                    }
                    return true;
                }
                proof {
                    assert(m.skip(ni - n0) =~= nam@.skip(ni as int));
                }
                if ni == nam.len() {
                    proof {
                        assert forall|k: int| 0 <= k <= m.len() implies !#[trigger] glob_matches(
                            pat@.skip(pi as int),
                            m.skip(k),
                        ) by {}
                    }
                    return false;
                }
                ni = ni + 1;
            }
        } else {
            proof {
                let p = pat@.skip(pi as int);
                let n = nam@.skip(ni as int);
                assert(p.drop_first() =~= pat@.skip(pi + 1));
                if ni < nam.len() {
                    assert(n.drop_first() =~= nam@.skip(ni + 1));
                }
            }
            if ni >= nam.len() || pat[pi] != nam[ni] {
                return false;
            }
            pi = pi + 1;
            ni = ni + 1;
        }
    }
    proof {
        assert(pat@.skip(pi as int) =~= Seq::<char>::empty());
    }
    ni == nam.len()
}

/// Whether `name` matches the wildcard segment `pattern`.
pub fn glob_match(pattern: &str, name: &str) -> (r: bool)
    ensures
        r == glob_matches(pattern@, name@),
{
    let pat = chars_of(pattern);
    let nam = chars_of(name);
    proof {
        assert(pat@.skip(0) =~= pat@);
        assert(nam@.skip(0) =~= nam@);
    }
    glob_match_impl(&pat, 0, &nam, 0)
}


// ------------------------------------------------------------ paths

/// An absolute path, held as its components below `/`.
#[derive(Clone, Debug, PartialEq, Eq)]
pub struct SysPath {
    pub comps: Vec<String>,
}

impl View for SysPath {
    type V = Seq<Seq<char>>;

    open spec fn view(&self) -> Seq<Seq<char>> {
        self.comps@.map_values(|c: String| c@)
    }
}

impl SysPath {
    /// The root directory `/`.
    pub fn root() -> (r: SysPath)
        ensures
            r@ == Seq::<Seq<char>>::empty(),
    {
        let r = SysPath { comps: Vec::new() };
        assert(r@ =~= Seq::<Seq<char>>::empty());
        r
    }

    /// A path with the same components.
    pub fn duplicate(&self) -> (r: SysPath)
        ensures
            r@ == self@,
    {
        let mut comps: Vec<String> = Vec::new();
        let mut i: usize = 0;
        while i < self.comps.len()
            invariant
                i <= self.comps.len(),
                comps@.map_values(|c: String| c@) =~= self@.take(i as int),
            decreases self.comps.len() - i,
        {
            let c = self.comps[i].clone();
            comps.push(c);
            proof {
                assert(self@.take(i + 1) =~= self@.take(i as int).push(self.comps@[i as int]@));
            }
            i = i + 1;
        }
        proof {
            assert(self@.take(i as int) =~= self@);
        }
        SysPath { comps }
    }

    /// The entry `name` inside this directory.
    pub fn child(&self, name: &str) -> (r: SysPath)
        ensures
            r@ == self@.push(name@),
    {
        let mut r = self.duplicate();
        let ghost before = r@;
        r.comps.push(name.to_owned());
        assert(r@ =~= before.push(name@));
        r
    }

    /// The directory holding this path, `None` for the root.
    pub fn parent(&self) -> (r: Option<SysPath>)
        ensures
            match r {
                Some(p) => self@.len() > 0 && p@ == self@.drop_last(),
                None => self@.len() == 0,
            },
    {
        if self.comps.len() == 0 {
            return None;
        }
        let mut p = self.duplicate();
        let ghost before = p@;
        p.comps.pop();
        assert(p@ =~= before.drop_last());
        Some(p)
    }

    /// The last component, `None` for the root.
    pub fn file_name(&self) -> (r: Option<String>)
        ensures
            match r {
                Some(n) => self@.len() > 0 && n@ == self@.last(),
                None => self@.len() == 0,
            },
    {
        if self.comps.len() == 0 {
            None
        } else {
            Some(self.comps[self.comps.len() - 1].clone())
        }
    }
}

// ------------------------------------------------------------ ordering

/// Lexicographic order of strings by code point, as `str` orders them.
pub open spec fn text_le(a: Seq<char>, b: Seq<char>) -> bool
    decreases a.len(),
{
    if a.len() == 0 {
        true
    } else if b.len() == 0 {
        false
    } else if a[0] != b[0] {
        a[0] < b[0]
    } else {
        text_le(a.drop_first(), b.drop_first())
    }
}

/// Component-wise order of paths, as `Path` orders them.
pub open spec fn path_le(a: Seq<Seq<char>>, b: Seq<Seq<char>>) -> bool
    decreases a.len(),
{
    if a.len() == 0 {
        true
    } else if b.len() == 0 {
        false
    } else if a[0] != b[0] {
        text_le(a[0], b[0])
    } else {
        path_le(a.drop_first(), b.drop_first())
    }
}

pub open spec fn path_order() -> spec_fn(Seq<Seq<char>>, Seq<Seq<char>>) -> bool {
    |a: Seq<Seq<char>>, b: Seq<Seq<char>>| path_le(a, b)
}

pub open spec fn paths_view(v: Seq<SysPath>) -> Seq<Seq<Seq<char>>> {
    v.map_values(|p: SysPath| p@)
}

proof fn lemma_text_le_refl(a: Seq<char>)
    ensures
        text_le(a, a),
    decreases a.len(),
{
    if a.len() > 0 {
        lemma_text_le_refl(a.drop_first());
    }
}

proof fn lemma_text_le_antisym(a: Seq<char>, b: Seq<char>)
    requires
        text_le(a, b),
        text_le(b, a),
    ensures
        a == b,
    decreases a.len(),
{
    if a.len() > 0 && b.len() > 0 && a[0] == b[0] {
        lemma_text_le_antisym(a.drop_first(), b.drop_first());
        assert(a =~= seq![a[0]] + a.drop_first());
        assert(b =~= seq![b[0]] + b.drop_first());
    } else if a.len() == 0 {
        assert(b.len() == 0);
        assert(a =~= b);
    }
}

proof fn lemma_text_le_trans(a: Seq<char>, b: Seq<char>, c: Seq<char>)
    requires
        text_le(a, b),
        text_le(b, c),
    ensures
        text_le(a, c),
    decreases a.len(),
{
    if a.len() > 0 && b.len() > 0 && c.len() > 0 && a[0] == b[0] && b[0] == c[0] {
        lemma_text_le_trans(a.drop_first(), b.drop_first(), c.drop_first());
    }
}

proof fn lemma_text_le_total(a: Seq<char>, b: Seq<char>)
    ensures
        text_le(a, b) || text_le(b, a),
    decreases a.len(),
{
    if a.len() > 0 && b.len() > 0 && a[0] == b[0] {
        lemma_text_le_total(a.drop_first(), b.drop_first());
    }
}

proof fn lemma_path_le_refl(a: Seq<Seq<char>>)
    ensures
        path_le(a, a),
    decreases a.len(),
{
    if a.len() > 0 {
        lemma_path_le_refl(a.drop_first());
    }
}

proof fn lemma_path_le_antisym(a: Seq<Seq<char>>, b: Seq<Seq<char>>)
    requires
        path_le(a, b),
        path_le(b, a),
    ensures
        a == b,
    decreases a.len(),
{
    if a.len() > 0 && b.len() > 0 {
        if a[0] == b[0] {
            lemma_path_le_antisym(a.drop_first(), b.drop_first());
            assert(a =~= seq![a[0]] + a.drop_first());
            assert(b =~= seq![b[0]] + b.drop_first());
        } else {
            lemma_text_le_antisym(a[0], b[0]);
        }
    } else if a.len() == 0 {
        assert(b.len() == 0);
        assert(a =~= b);
    }
}

proof fn lemma_path_le_trans(a: Seq<Seq<char>>, b: Seq<Seq<char>>, c: Seq<Seq<char>>)
    requires
        path_le(a, b),
        path_le(b, c),
    ensures
        path_le(a, c),
    decreases a.len(),
{
    if a.len() > 0 && b.len() > 0 && c.len() > 0 {
        if a[0] == b[0] && b[0] == c[0] {
            lemma_path_le_trans(a.drop_first(), b.drop_first(), c.drop_first());
        } else if a[0] != b[0] && b[0] != c[0] {
            lemma_text_le_trans(a[0], b[0], c[0]);
            if a[0] == c[0] {
                lemma_text_le_antisym(a[0], b[0]);
            }
        }
    }
}

proof fn lemma_path_le_total(a: Seq<Seq<char>>, b: Seq<Seq<char>>)
    ensures
        path_le(a, b) || path_le(b, a),
    decreases a.len(),
{
    if a.len() > 0 && b.len() > 0 {
        if a[0] == b[0] {
            lemma_path_le_total(a.drop_first(), b.drop_first());
        } else {
            lemma_text_le_total(a[0], b[0]);
        }
    }
}

/// The path order is a total order, so sorting by it is well defined.
pub proof fn lemma_path_order_total()
    ensures
        total_ordering(path_order()),
{
    assert forall|a: Seq<Seq<char>>| #[trigger] path_order()(a, a) by {
        lemma_path_le_refl(a);
    }
    assert forall|a: Seq<Seq<char>>, b: Seq<Seq<char>>|
        #[trigger] path_order()(a, b) && #[trigger] path_order()(b, a) implies a == b by {
        lemma_path_le_antisym(a, b);
    }
    assert forall|a: Seq<Seq<char>>, b: Seq<Seq<char>>, c: Seq<Seq<char>>|
        #[trigger] path_order()(a, b) && #[trigger] path_order()(b, c) implies path_order()(
        a,
        c,
    ) by {
        lemma_path_le_trans(a, b, c);
    }
    assert forall|a: Seq<Seq<char>>, b: Seq<Seq<char>>|
        #[trigger] path_order()(a, b) || #[trigger] path_order()(b, a) by {
        lemma_path_le_total(a, b);
    }
}

fn text_le_exec(a: &str, b: &str) -> (r: bool)
    ensures
        r == text_le(a@, b@),
{
    let x = chars_of(a);
    let y = chars_of(b);
    let mut i: usize = 0;
    assert(x@.skip(0) =~= x@);
    assert(y@.skip(0) =~= y@);
    while i < x.len() && i < y.len() && x[i] == y[i]
        invariant
            x@ == a@,
            y@ == b@,
            i <= x.len(),
            i <= y.len(),
            text_le(a@, b@) == text_le(x@.skip(i as int), y@.skip(i as int)),
        decreases x.len() - i,
    {
        proof {
            assert(x@.skip(i as int).drop_first() =~= x@.skip(i + 1));
            assert(y@.skip(i as int).drop_first() =~= y@.skip(i + 1));
        }
        i = i + 1;
    }
    if i == x.len() {
        true
    } else if i == y.len() {
        false
    } else {
        x[i] < y[i]
    }
}

/// Whether path `a` sorts no later than path `b`.
pub fn path_le_exec(a: &SysPath, b: &SysPath) -> (r: bool)
    ensures
        r == path_le(a@, b@),
{
    let mut i: usize = 0;
    assert(a@.skip(0) =~= a@);
    assert(b@.skip(0) =~= b@);
    while i < a.comps.len() && i < b.comps.len()
        invariant
            i <= a.comps.len(),
            i <= b.comps.len(),
            path_le(a@, b@) == path_le(a@.skip(i as int), b@.skip(i as int)),
        decreases a.comps.len() - i,
    {
        let same = str_eq(a.comps[i].as_str(), b.comps[i].as_str());
        assert(a@.skip(i as int)[0] == a.comps@[i as int]@);
        assert(b@.skip(i as int)[0] == b.comps@[i as int]@);
        if !same {
            return text_le_exec(a.comps[i].as_str(), b.comps[i].as_str());
        }
        proof {
            assert(a@.skip(i as int).drop_first() =~= a@.skip(i + 1));
            assert(b@.skip(i as int).drop_first() =~= b@.skip(i + 1));
        }
        i = i + 1;
    }
    i == a.comps.len()
}

/// The paths in ascending path order (a stable insertion sort).
pub fn sort_paths(v: Vec<SysPath>) -> (r: Vec<SysPath>)
    ensures
        paths_view(r@) == paths_view(v@).sort_by(path_order()),
{
    let ghost whole = paths_view(v@);
    let mut input = v;
    let mut out: Vec<SysPath> = Vec::new();
    proof {
        lemma_path_order_total();
    }
    while input.len() > 0
        invariant
            total_ordering(path_order()),
            sorted_by(paths_view(out@), path_order()),
            paths_view(out@).to_multiset().add(paths_view(input@).to_multiset())
                == whole.to_multiset(),
        decreases input.len(),
    {
        let ghost before_in = paths_view(input@);
        let x = input.pop().unwrap();
        proof {
            assert(before_in =~= paths_view(input@).push(x@));
        }
        let mut j: usize = 0;
        while j < out.len() && path_le_exec(&out[j], &x)
            invariant
                j <= out.len(),
                forall|k: int| 0 <= k < j ==> path_le(#[trigger] out@[k]@, x@),
            decreases out.len() - j,
        {
            j = j + 1;
        }
        let ghost old_out = paths_view(out@);
        let ghost xv = x@;
        out.insert(j, x);
        proof {
            let new_out = paths_view(out@);
            assert(new_out =~= old_out.insert(j as int, xv));
            assert forall|a: int, b: int| 0 <= a < b < new_out.len() implies #[trigger] path_order()(
                new_out[a],
                new_out[b],
            ) by {
                if b < j {
                } else if b == j {
                    assert(path_le(out@[a]@, xv));
                } else if a < j {
                    assert(path_order()(old_out[a], old_out[b - 1]));
                } else if a == j {
                    assert(!path_le(old_out[j as int], xv));
                    lemma_path_le_total(old_out[j as int], xv);
                    if b - 1 > j {
                        assert(path_order()(old_out[j as int], old_out[b - 1]));
                        lemma_path_le_trans(xv, old_out[j as int], old_out[b - 1]);
                    }
                } else {
                    assert(path_order()(old_out[a - 1], old_out[b - 1]));
                }
            }
            vstd::seq_lib::to_multiset_insert(old_out, j as int, xv);
        }
    }
    proof {
        assert(paths_view(input@) =~= Seq::<Seq<Seq<char>>>::empty());
        assert(paths_view(out@).to_multiset() =~= whole.to_multiset());
        whole.lemma_sort_by_ensures(path_order());
        vstd::seq_lib::lemma_sorted_unique(
            paths_view(out@),
            whole.sort_by(path_order()),
            path_order(),
        );
    }
    out
}


// ------------------------------------------------------------ segments

/// Segments of a pattern split at `/`, empty ones left out. `start` is where
/// the segment being read began, `i` the position reached.
pub open spec fn segments_from(s: Seq<char>, start: int, i: int) -> Seq<Seq<char>>
    decreases s.len() - i,
{
    if i >= s.len() {
        if start < i {
            seq![s.subrange(start, i)]
        } else {
            Seq::empty()
        }
    } else if s[i] == '/' {
        (if start < i {
            seq![s.subrange(start, i)]
        } else {
            Seq::<Seq<char>>::empty()
        }) + segments_from(s, i + 1, i + 1)
    } else {
        segments_from(s, start, i + 1)
    }
}

pub open spec fn pattern_segments(s: Seq<char>) -> Seq<Seq<char>> {
    segments_from(s, 0, 0)
}

pub open spec fn strings_view(v: Seq<String>) -> Seq<Seq<char>> {
    v.map_values(|c: String| c@)
}

proof fn lemma_segments_left(x: Seq<char>, y: Seq<char>, start: int, i: int)
    requires
        0 <= start <= i <= x.len(),
    ensures
        segments_from(x + seq!['/'] + y, start, i) == segments_from(x, start, i) + segments_from(
            x + seq!['/'] + y,
            x.len() + 1 as int,
            x.len() + 1 as int,
        ),
    decreases x.len() - i,
{
    let s = x + seq!['/'] + y;
    let n = x.len() as int;
    let rest = segments_from(s, n + 1, n + 1);
    assert(s[n] == '/');
    if i < n {
        assert(s[i] == x[i]);
        if x[i] == '/' {
            lemma_segments_left(x, y, i + 1, i + 1);
            assert(s.subrange(start, i) =~= x.subrange(start, i));
            let head = if start < i {
                seq![x.subrange(start, i)]
            } else {
                Seq::<Seq<char>>::empty()
            };
            assert(head + (segments_from(x, i + 1, i + 1) + rest) =~= (head + segments_from(
                x,
                i + 1,
                i + 1,
            )) + rest);
        } else {
            lemma_segments_left(x, y, start, i + 1);
        }
    } else {
        assert(s.subrange(start, n) =~= x.subrange(start, n));
        if start < n {
            assert(seq![x.subrange(start, n)] + rest =~= seq![x.subrange(start, n)] + rest);
        } else {
            assert(Seq::<Seq<char>>::empty() + rest =~= rest);
        }
    }
}

proof fn lemma_segments_right(x: Seq<char>, y: Seq<char>, start: int, j: int)
    requires
        x.len() + 1 <= start <= j <= x.len() + 1 + y.len(),
    ensures
        segments_from(x + seq!['/'] + y, start, j) == segments_from(
            y,
            start - (x.len() + 1),
            j - (x.len() + 1),
        ),
    decreases x.len() + 1 + y.len() - j,
{
    let s = x + seq!['/'] + y;
    let off = x.len() + 1;
    assert(s.len() == off + y.len());
    if j >= s.len() {
        assert(s.subrange(start, j) =~= y.subrange(start - off, j - off));
    } else {
        assert(s[j] == y[j - off]);
        if s[j] == '/' {
            lemma_segments_right(x, y, j + 1, j + 1);
            assert(s.subrange(start, j) =~= y.subrange(start - off, j - off));
        } else {
            lemma_segments_right(x, y, start, j + 1);
        }
    }
}

proof fn lemma_segments_word_from(w: Seq<char>, i: int)
    requires
        w.len() > 0,
        forall|k: int| 0 <= k < w.len() ==> w[k] != '/',
        0 <= i <= w.len(),
    ensures
        segments_from(w, 0, i) == seq![w],
    decreases w.len() - i,
{
    if i < w.len() {
        lemma_segments_word_from(w, i + 1);
    } else {
        assert(w.subrange(0, w.len() as int) =~= w);
    }
}

/// Splitting a pattern at a `/` splits its segments there and nowhere else:
/// the segments of `x/y` are those of `x` followed by those of `y`.
pub proof fn lemma_segments_split(x: Seq<char>, y: Seq<char>)
    ensures
        pattern_segments(x + seq!['/'] + y) == pattern_segments(x) + pattern_segments(y),
{
    lemma_segments_left(x, y, 0, 0);
    lemma_segments_right(x, y, x.len() + 1 as int, x.len() + 1 as int);
}

/// A non-empty run of characters without `/` is one segment, whole (other
/// characters such as `_`, `*` or `:` do not split it); the empty pattern has
/// no segment. With `lemma_segments_split` this fixes the segments of every
/// pattern: its maximal non-empty runs free of `/`, in order.
pub proof fn lemma_segments_word(w: Seq<char>)
    ensures
        (w.len() > 0 && forall|k: int| 0 <= k < w.len() ==> w[k] != '/') ==> pattern_segments(w)
            == seq![w],
        pattern_segments(Seq::<char>::empty()) == Seq::<Seq<char>>::empty(),
{
    if w.len() > 0 && forall|k: int| 0 <= k < w.len() ==> w[k] != '/' {
        lemma_segments_word_from(w, 0);
    }
}

/// The non-empty `/`-separated segments of `pattern`.
pub fn pattern_segments_exec(pattern: &str) -> (r: Vec<String>)
    ensures
        strings_view(r@) == pattern_segments(pattern@),
{
    let v = chars_of(pattern);
    let n = v.len();
    let mut out: Vec<String> = Vec::new();
    let mut start: usize = 0;
    let mut i: usize = 0;
    while i < n
        invariant
            v@ == pattern@,
            n == v.len(),
            start <= i <= n,
            pattern_segments(pattern@) == strings_view(out@) + segments_from(
                pattern@,
                start as int,
                i as int,
            ),
        decreases n - i,
    {
        if v[i] == '/' {
            let ghost before = strings_view(out@);
            if start < i {
                out.push(pattern.substring_char(start, i).to_owned());
                assert(strings_view(out@) =~= before.push(pattern@.subrange(start as int, i as int)));
            }
            proof {
                if start < i {
                    assert(strings_view(out@) + segments_from(pattern@, i + 1, i + 1) =~= before
                        + (seq![pattern@.subrange(start as int, i as int)] + segments_from(
                        pattern@,
                        i + 1,
                        i + 1,
                    )));
                } else {
                    assert(Seq::<Seq<char>>::empty() + segments_from(pattern@, i + 1, i + 1)
                        =~= segments_from(pattern@, i + 1, i + 1));
                }
            }
            start = i + 1;
        }
        i = i + 1;
    }
    let ghost before = strings_view(out@);
    if start < i {
        out.push(pattern.substring_char(start, i).to_owned());
        assert(strings_view(out@) =~= before.push(pattern@.subrange(start as int, i as int)));
    }
    proof {
        if start < i {
            assert(before + seq![pattern@.subrange(start as int, i as int)] =~= strings_view(out@));
        } else {
            assert(before + Seq::<Seq<char>>::empty() =~= before);
        }
    }
    out
}

/// Whether a segment holds a wildcard.
pub fn has_wildcard(seg: &str) -> (r: bool)
    ensures
        r == has_star(seg@),
{
    let v = chars_of(seg);
    let mut i: usize = 0;
    while i < v.len()
        invariant
            v@ == seg@,
            i <= v.len(),
            forall|k: int| 0 <= k < i ==> v@[k] != '*',
        decreases v.len() - i,
    {
        if v[i] == '*' {
            return true;
        }
        i = i + 1;
    }
    false
}

// ------------------------------------------------------------ expansion

/// The entries of `names` that match `seg`, each placed below `base`, in order.
pub open spec fn expand_base(seg: Seq<char>, base: Seq<Seq<char>>, names: Seq<Seq<char>>) -> Seq<
    Seq<Seq<char>>,
>
    decreases names.len(),
{
    if names.len() == 0 {
        Seq::empty()
    } else {
        let rest = expand_base(seg, base, names.drop_last());
        if glob_matches(seg, names.last()) {
            rest.push(base.push(names.last()))
        } else {
            rest
        }
    }
}

/// One walk step: every base in turn, expanded by the names found below it.
pub open spec fn expand_all(
    seg: Seq<char>,
    bases: Seq<Seq<Seq<char>>>,
    found: Seq<Seq<Seq<char>>>,
) -> Seq<Seq<Seq<char>>>
    decreases bases.len(),
{
    if bases.len() == 0 {
        Seq::empty()
    } else {
        expand_all(seg, bases.drop_last(), found.drop_last()) + expand_base(
            seg,
            bases.last(),
            found.last(),
        )
    }
}

/// `p` has exactly `n` components and each matches its segment.
pub open spec fn fits_segments(segs: Seq<Seq<char>>, n: int, p: Seq<Seq<char>>) -> bool {
    &&& p.len() == n
    &&& forall|k: int| 0 <= k < n ==> #[trigger] glob_matches(segs[k], p[k])
}

/// `p` matches the whole pattern.
pub open spec fn matches_pattern(pattern: Seq<char>, p: Seq<Seq<char>>) -> bool {
    fits_segments(pattern_segments(pattern), pattern_segments(pattern).len() as int, p)
}

pub open spec fn listings_view(found: Seq<Vec<String>>) -> Seq<Seq<Seq<char>>> {
    found.map_values(|v: Vec<String>| strings_view(v@))
}

proof fn lemma_expand_base_fits(
    segs: Seq<Seq<char>>,
    n: int,
    base: Seq<Seq<char>>,
    names: Seq<Seq<char>>,
)
    requires
        0 <= n < segs.len(),
        fits_segments(segs, n, base),
    ensures
        forall|q: int|
            0 <= q < expand_base(segs[n], base, names).len() ==> fits_segments(
                segs,
                n + 1,
                #[trigger] expand_base(segs[n], base, names)[q],
            ),
    decreases names.len(),
{
    if names.len() > 0 {
        lemma_expand_base_fits(segs, n, base, names.drop_last());
        let p = base.push(names.last());
        let rest = expand_base(segs[n], base, names.drop_last());
        if glob_matches(segs[n], names.last()) {
            assert forall|k: int| 0 <= k < n + 1 implies #[trigger] glob_matches(segs[k], p[k]) by {
                if k < n {
                    assert(glob_matches(segs[k], base[k]));
                }
            }
            assert forall|q: int| 0 <= q < rest.push(p).len() implies fits_segments(
                segs,
                n + 1,
                #[trigger] rest.push(p)[q],
            ) by {
                if q < rest.len() {
                    assert(rest.push(p)[q] == rest[q]);
                } else {
                    assert(rest.push(p)[q] == p);
                }
            }
        }
    }
}

proof fn lemma_expand_all_fits(
    segs: Seq<Seq<char>>,
    n: int,
    bases: Seq<Seq<Seq<char>>>,
    found: Seq<Seq<Seq<char>>>,
)
    requires
        0 <= n < segs.len(),
        forall|b: int| 0 <= b < bases.len() ==> fits_segments(segs, n, #[trigger] bases[b]),
    ensures
        forall|q: int|
            0 <= q < expand_all(segs[n], bases, found).len() ==> fits_segments(
                segs,
                n + 1,
                #[trigger] expand_all(segs[n], bases, found)[q],
            ),
    decreases bases.len(),
{
    if bases.len() > 0 {
        lemma_expand_all_fits(segs, n, bases.drop_last(), found.drop_last());
        assert(fits_segments(segs, n, bases[bases.len() - 1]));
        lemma_expand_base_fits(segs, n, bases.last(), found.last());
        let a = expand_all(segs[n], bases.drop_last(), found.drop_last());
        let b = expand_base(segs[n], bases.last(), found.last());
        assert forall|q: int| 0 <= q < (a + b).len() implies fits_segments(
            segs,
            n + 1,
            #[trigger] (a + b)[q],
        ) by {
            if q < a.len() {
                assert((a + b)[q] == a[q]);
            } else {
                assert((a + b)[q] == b[q - a.len()]);
            }
        }
    }
}

/// Every path of `expand_base(seg, base, names)` lies directly in `base` and
/// is named by one of `names`.
proof fn lemma_expand_base_elems(seg: Seq<char>, base: Seq<Seq<char>>, names: Seq<Seq<char>>)
    ensures
        forall|q: int|
            0 <= q < expand_base(seg, base, names).len() ==> (#[trigger] expand_base(seg, base, names)[q]).len()
                > 0 && expand_base(seg, base, names)[q].drop_last() == base && names.contains(
                expand_base(seg, base, names)[q].last(),
            ),
    decreases names.len(),
{
    if names.len() > 0 {
        let nd = names.drop_last();
        lemma_expand_base_elems(seg, base, nd);
        let rest = expand_base(seg, base, nd);
        let all = expand_base(seg, base, names);
        assert forall|q: int| 0 <= q < all.len() implies (#[trigger] all[q]).len() > 0 && all[q].drop_last()
            == base && names.contains(all[q].last()) by {
            if q < rest.len() {
                assert(all[q] == rest[q]);
                let k = choose|k: int| 0 <= k < nd.len() && nd[k] == rest[q].last();
                assert(names[k] == nd[k]);
            } else {
                assert(all[q] == base.push(names.last()));
                assert(base.push(names.last()).drop_last() =~= base);
                assert(names[names.len() - 1] == names.last());
            }
        }
    }
}

/// Names listed once give paths found once.
proof fn lemma_expand_base_distinct(seg: Seq<char>, base: Seq<Seq<char>>, names: Seq<Seq<char>>)
    requires
        names.no_duplicates(),
    ensures
        expand_base(seg, base, names).no_duplicates(),
    decreases names.len(),
{
    if names.len() > 0 {
        let nd = names.drop_last();
        assert(nd.no_duplicates()) by {
            assert forall|i: int, j: int| 0 <= i < nd.len() && 0 <= j < nd.len() && i != j implies nd[i]
                != nd[j] by {
                assert(nd[i] == names[i] && nd[j] == names[j]);
            }
        }
        lemma_expand_base_distinct(seg, base, nd);
        lemma_expand_base_elems(seg, base, nd);
        let rest = expand_base(seg, base, nd);
        if glob_matches(seg, names.last()) {
            let p = base.push(names.last());
            assert forall|q: int| 0 <= q < rest.len() implies rest[q] != p by {
                if rest[q] == p {
                    assert(p.last() == names.last());
                    let k = choose|k: int| 0 <= k < nd.len() && nd[k] == rest[q].last();
                    assert(names[k] == names[names.len() - 1]);
                }
            }
            assert(rest.push(p) =~= rest + seq![p]);
            lemma_no_dup_in_concat(rest, seq![p]);
        }
    }
}

/// Distinct base paths, each with names listed once, give paths found once,
/// each in one of the bases.
proof fn lemma_expand_all_distinct(
    seg: Seq<char>,
    bases: Seq<Seq<Seq<char>>>,
    found: Seq<Seq<Seq<char>>>,
)
    requires
        found.len() == bases.len(),
        forall|i: int| 0 <= i < found.len() ==> (#[trigger] found[i]).no_duplicates(),
    ensures
        forall|q: int|
            0 <= q < expand_all(seg, bases, found).len() ==> (#[trigger] expand_all(seg, bases, found)[q]).len()
                > 0 && bases.contains(expand_all(seg, bases, found)[q].drop_last()),
        bases.no_duplicates() ==> expand_all(seg, bases, found).no_duplicates(),
    decreases bases.len(),
{
    if bases.len() > 0 {
        let bd = bases.drop_last();
        let fd = found.drop_last();
        assert forall|i: int| 0 <= i < fd.len() implies (#[trigger] fd[i]).no_duplicates() by {
            assert(fd[i] == found[i]);
        }
        lemma_expand_all_distinct(seg, bd, fd);
        let a = expand_all(seg, bd, fd);
        let last = bases.last();
        let names = found.last();
        assert(names == found[found.len() - 1]);
        lemma_expand_base_elems(seg, last, names);
        lemma_expand_base_distinct(seg, last, names);
        let b = expand_base(seg, last, names);
        let all = expand_all(seg, bases, found);
        assert(all == a + b);
        assert forall|q: int| 0 <= q < all.len() implies (#[trigger] all[q]).len() > 0 && bases.contains(
            all[q].drop_last(),
        ) by {
            if q < a.len() {
                assert(all[q] == a[q]);
                let k = choose|k: int| 0 <= k < bd.len() && bd[k] == a[q].drop_last();
                assert(bases[k] == bd[k]);
            } else {
                assert(all[q] == b[q - a.len()]);
                assert(bases[bases.len() - 1] == last);
            }
        }
        if bases.no_duplicates() {
            assert(bd.no_duplicates()) by {
                assert forall|i: int, j: int| 0 <= i < bd.len() && 0 <= j < bd.len() && i != j implies bd[i]
                    != bd[j] by {
                    assert(bd[i] == bases[i] && bd[j] == bases[j]);
                }
            }
            assert forall|i: int, j: int| 0 <= i < a.len() && 0 <= j < b.len() implies a[i] != b[j] by {
                assert(b[j].drop_last() == last);
                let k = choose|k: int| 0 <= k < bd.len() && bd[k] == a[i].drop_last();
                assert(bases[k] == bd[k]);
                assert(bases[bases.len() - 1] == last);
            }
            lemma_no_dup_in_concat(a, b);
        }
    }
}

/// `p` is `base` followed by one of `names` that matches `seg`.
pub open spec fn matched_below(
    seg: Seq<char>,
    base: Seq<Seq<char>>,
    names: Seq<Seq<char>>,
    p: Seq<Seq<char>>,
) -> bool {
    exists|k: int| 0 <= k < names.len() && glob_matches(seg, #[trigger] names[k]) && p == base.push(names[k])
}

/// `p` is one of `bases` followed by a name listed below it that matches
/// `seg`.
pub open spec fn listed_match(
    seg: Seq<char>,
    bases: Seq<Seq<Seq<char>>>,
    found: Seq<Seq<Seq<char>>>,
    p: Seq<Seq<char>>,
) -> bool {
    exists|i: int, k: int|
        0 <= i < bases.len() && 0 <= k < found[i].len() && glob_matches(seg, #[trigger] found[i][k])
            && p == bases[i].push(found[i][k])
}

proof fn lemma_expand_base_exact(seg: Seq<char>, base: Seq<Seq<char>>, names: Seq<Seq<char>>)
    ensures
        forall|k: int|
            0 <= k < names.len() && glob_matches(seg, #[trigger] names[k]) ==> expand_base(
                seg,
                base,
                names,
            ).contains(base.push(names[k])),
        forall|q: int|
            0 <= q < expand_base(seg, base, names).len() ==> matched_below(
                seg,
                base,
                names,
                #[trigger] expand_base(seg, base, names)[q],
            ),
    decreases names.len(),
{
    if names.len() > 0 {
        let nd = names.drop_last();
        lemma_expand_base_exact(seg, base, nd);
        let rest = expand_base(seg, base, nd);
        let all = expand_base(seg, base, names);
        let l = names.len() - 1;
        assert(names[l] == names.last());
        assert forall|k: int| 0 <= k < names.len() && glob_matches(seg, #[trigger] names[k]) implies all.contains(
            base.push(names[k]),
        ) by {
            if k < l {
                assert(nd[k] == names[k]);
                let q = choose|q: int| 0 <= q < rest.len() && rest[q] == base.push(nd[k]);
                assert(all[q] == rest[q]);
            } else {
                assert(all[all.len() - 1] == base.push(names.last()));
            }
        }
        assert forall|q: int|
            0 <= q < expand_base(seg, base, names).len() implies matched_below(
                seg,
                base,
                names,
                #[trigger] expand_base(seg, base, names)[q],
            ) by {
            if q < rest.len() {
                assert(all[q] == rest[q]);
                assert(matched_below(seg, base, nd, rest[q]));
                let k = choose|k: int|
                    0 <= k < nd.len() && glob_matches(seg, #[trigger] nd[k]) && rest[q] == base.push(
                        nd[k],
                    );
                assert(names[k] == nd[k]);
            } else {
                assert(all[q] == base.push(names[l]));
                assert(glob_matches(seg, names[l]));
            }
        }
    } else {
        assert(expand_base(seg, base, names) =~= Seq::<Seq<Seq<char>>>::empty());
    }
}

/// What a walk step finds, exactly: below each base path, every listed name
/// that matches the segment is found (nothing that matches is dropped), and
/// everything found is such a name below such a base.
pub proof fn lemma_step_finds_matches(
    seg: Seq<char>,
    bases: Seq<Seq<Seq<char>>>,
    found: Seq<Seq<Seq<char>>>,
)
    requires
        found.len() == bases.len(),
    ensures
        forall|i: int, k: int|
            0 <= i < bases.len() && 0 <= k < found[i].len() && glob_matches(seg, #[trigger] found[i][k])
                ==> expand_all(seg, bases, found).contains(bases[i].push(found[i][k])),
        forall|q: int|
            0 <= q < expand_all(seg, bases, found).len() ==> listed_match(
                seg,
                bases,
                found,
                #[trigger] expand_all(seg, bases, found)[q],
            ),
    decreases bases.len(),
{
    if bases.len() > 0 {
        let bd = bases.drop_last();
        let fd = found.drop_last();
        lemma_step_finds_matches(seg, bd, fd);
        let l = bases.len() - 1;
        let a = expand_all(seg, bd, fd);
        let b = expand_base(seg, bases.last(), found.last());
        let all = expand_all(seg, bases, found);
        assert(all == a + b);
        assert(found[l] == found.last() && bases[l] == bases.last());
        lemma_expand_base_exact(seg, bases.last(), found.last());
        assert forall|i: int, k: int|
            0 <= i < bases.len() && 0 <= k < found[i].len() && glob_matches(seg, #[trigger] found[i][k])
                implies all.contains(bases[i].push(found[i][k])) by {
            if i < l {
                assert(fd[i] == found[i] && bd[i] == bases[i]);
                assert(glob_matches(seg, fd[i][k]));
                let q = choose|q: int| 0 <= q < a.len() && a[q] == bd[i].push(fd[i][k]);
                assert(all[q] == a[q]);
            } else {
                assert(glob_matches(seg, found.last()[k]));
                let q = choose|q: int| 0 <= q < b.len() && b[q] == bases.last().push(found.last()[k]);
                assert(all[a.len() + q] == b[q]);
            }
        }
        assert forall|q: int|
            0 <= q < expand_all(seg, bases, found).len() implies listed_match(
                seg,
                bases,
                found,
                #[trigger] expand_all(seg, bases, found)[q],
            ) by {
            if q < a.len() {
                assert(all[q] == a[q]);
                assert(listed_match(seg, bd, fd, a[q]));
                let (i, k) = choose|i: int, k: int|
                    0 <= i < bd.len() && 0 <= k < fd[i].len() && glob_matches(seg, #[trigger] fd[i][k])
                        && a[q] == bd[i].push(fd[i][k]);
                assert(fd[i] == found[i] && bd[i] == bases[i]);
                assert(glob_matches(seg, found[i][k]));
            } else {
                assert(all[q] == b[q - a.len()]);
                assert(matched_below(seg, bases.last(), found.last(), b[q - a.len()]));
                let k = choose|k: int|
                    0 <= k < found.last().len() && glob_matches(seg, #[trigger] found.last()[k])
                        && b[q - a.len()] == bases.last().push(found.last()[k]);
                assert(glob_matches(seg, found[l][k]));
                assert(all[q] == bases[l].push(found[l][k]));
            }
        }
    } else {
        assert(expand_all(seg, bases, found) =~= Seq::<Seq<Seq<char>>>::empty());
    }
}

/// One walk step: keeps, below each base path, the reported names that match
/// `seg`.
pub fn glob_step(seg: &str, bases: &Vec<SysPath>, found: &Vec<Vec<String>>) -> (r: Vec<SysPath>)
    requires
        found.len() == bases.len(),
    ensures
        paths_view(r@) == expand_all(seg@, paths_view(bases@), listings_view(found@)),
{
    let ghost bv = paths_view(bases@);
    let ghost fv = listings_view(found@);
    let mut out: Vec<SysPath> = Vec::new();
    let mut i: usize = 0;
    assert(bv.take(0) =~= Seq::<Seq<Seq<char>>>::empty());
    assert(paths_view(out@) =~= expand_all(seg@, bv.take(0), fv.take(0)));
    while i < bases.len()
        invariant
            found.len() == bases.len(),
            bv == paths_view(bases@),
            fv == listings_view(found@),
            i <= bases.len(),
            paths_view(out@) == expand_all(seg@, bv.take(i as int), fv.take(i as int)),
        decreases bases.len() - i,
    {
        let names = &found[i];
        let ghost prefix = paths_view(out@);
        let ghost nv = strings_view(names@);
        assert(nv == fv[i as int]);
        let mut k: usize = 0;
        assert(nv.take(0) =~= Seq::<Seq<char>>::empty());
        assert(prefix + expand_base(seg@, bv[i as int], nv.take(0)) =~= prefix);
        while k < names.len()
            invariant
                i < bases.len(),
                bv == paths_view(bases@),
                nv == strings_view(names@),
                k <= names.len(),
                paths_view(out@) == prefix + expand_base(seg@, bv[i as int], nv.take(k as int)),
            decreases names.len() - k,
        {
            let ghost before = paths_view(out@);
            assert(nv.take(k + 1).drop_last() =~= nv.take(k as int));
            assert(nv.take(k + 1).last() == names@[k as int]@);
            if glob_match(seg, names[k].as_str()) {
                let p = bases[i].child(names[k].as_str());
                out.push(p);
                assert(paths_view(out@) =~= before.push(bv[i as int].push(names@[k as int]@)));
                assert(paths_view(out@) =~= prefix + expand_base(
                    seg@,
                    bv[i as int],
                    nv.take(k + 1),
                ));
            }
            k = k + 1;
        }
        proof {
            assert(nv.take(k as int) =~= nv);
            assert(bv.take(i + 1).drop_last() =~= bv.take(i as int));
            assert(fv.take(i + 1).drop_last() =~= fv.take(i as int));
        }
        i = i + 1;
    }
    proof {
        assert(bv.take(i as int) =~= bv);
        assert(fv.take(i as int) =~= fv);
    }
    out
}

// ------------------------------------------------------------ the walk

/// A directory walk for one pattern, advanced one segment at a time.
pub struct GlobWalk {
    segments: Vec<String>,
    next: usize,
    paths: Vec<SysPath>,
}

impl GlobWalk {
    /// The pattern's segments.
    pub closed spec fn segments(&self) -> Seq<Seq<char>> {
        strings_view(self.segments@)
    }

    /// How many segments have been walked.
    pub closed spec fn walked(&self) -> int {
        self.next as int
    }

    /// The paths found so far.
    pub closed spec fn found(&self) -> Seq<Seq<Seq<char>>> {
        paths_view(self.paths@)
    }

    #[verifier::type_invariant]
    closed spec fn inv(&self) -> bool {
        &&& self.next <= self.segments.len()
        &&& forall|q: int|
            0 <= q < self.paths.len() ==> fits_segments(
                strings_view(self.segments@),
                self.next as int,
                #[trigger] self.paths@[q]@,
            )
    }

    /// A walk of `pattern` that starts at `/`.
    pub fn new(pattern: &str) -> (r: GlobWalk)
        ensures
            r.segments() == pattern_segments(pattern@),
            r.walked() == 0,
            r.found() == seq![Seq::<Seq<char>>::empty()],
    {
        let segments = pattern_segments_exec(pattern);
        let mut paths: Vec<SysPath> = Vec::new();
        paths.push(SysPath::root());
        assert(paths_view(paths@) =~= seq![Seq::<Seq<char>>::empty()]);
        GlobWalk { segments, next: 0, paths }
    }

    /// The segment to walk next, `None` once every segment is walked.
    pub fn pending(&self) -> (r: Option<&String>)
        ensures
            match r {
                Some(s) => self.walked() < self.segments().len() && s@ == self.segments()[self.walked()],
                None => self.walked() >= self.segments().len(),
            },
    {
        proof {
            use_type_invariant(self);
        }
        if self.next < self.segments.len() {
            Some(&self.segments[self.next])
        } else {
            None
        }
    }

    /// The paths found so far; the next step lists the entries below each.
    pub fn paths(&self) -> (r: &Vec<SysPath>)
        ensures
            paths_view(r@) == self.found(),
    {
        &self.paths
    }

    /// Whether the walk is over: every segment walked, or nothing left to walk into.
    pub fn is_done(&self) -> (r: bool)
        ensures
            r == (self.walked() >= self.segments().len() || self.found().len() == 0),
    {
        self.next >= self.segments.len() || self.paths.len() == 0
    }

    /// Walks the pending segment. `found[i]` holds the names present below the
    /// `i`-th path found so far. When each listing names an entry once (as a
    /// directory listing does), no path is found twice.
    pub fn advance(&mut self, found: &Vec<Vec<String>>)
        requires
            old(self).walked() < old(self).segments().len(),
            found.len() == old(self).found().len(),
        ensures
            final(self).segments() == old(self).segments(),
            final(self).walked() == old(self).walked() + 1,
            final(self).found() == expand_all(
                old(self).segments()[old(self).walked()],
                old(self).found(),
                listings_view(found@),
            ),
            old(self).found().no_duplicates() && (forall|i: int|
                0 <= i < found.len() ==> (#[trigger] listings_view(found@)[i]).no_duplicates())
                ==> final(self).found().no_duplicates(),
    {
        proof {
            use_type_invariant(&*self);
        }
        let next_paths = glob_step(self.segments[self.next].as_str(), &self.paths, found);
        proof {
            let segs = strings_view(self.segments@);
            assert(segs[self.next as int] == self.segments@[self.next as int]@);
            assert forall|b: int| 0 <= b < paths_view(self.paths@).len() implies fits_segments(
                segs,
                self.next as int,
                #[trigger] paths_view(self.paths@)[b],
            ) by {
                assert(paths_view(self.paths@)[b] == self.paths@[b]@);
            }
            lemma_expand_all_fits(segs, self.next as int, paths_view(self.paths@), listings_view(found@));
            assert forall|q: int| 0 <= q < next_paths.len() implies fits_segments(
                segs,
                self.next + 1,
                #[trigger] next_paths@[q]@,
            ) by {
                assert(next_paths@[q]@ == paths_view(next_paths@)[q]);
            }
        }
        proof {
            if forall|i: int|
                0 <= i < found.len() ==> (#[trigger] listings_view(found@)[i]).no_duplicates() {
                lemma_expand_all_distinct(
                    strings_view(self.segments@)[self.next as int],
                    paths_view(self.paths@),
                    listings_view(found@),
                );
            }
        }
        let mut walk = GlobWalk { segments: Vec::new(), next: 0, paths: Vec::new() };
        std::mem::swap(self, &mut walk);
        *self = GlobWalk { segments: walk.segments, next: walk.next + 1, paths: next_paths };
    }

    /// The paths found, sorted; each fits the segments walked, and none is
    /// listed twice unless it was found twice.
    pub fn finish(self) -> (r: Vec<SysPath>)
        ensures
            paths_view(r@) == self.found().sort_by(path_order()),
            forall|q: int|
                0 <= q < r.len() ==> fits_segments(self.segments(), self.walked(), #[trigger] r@[q]@),
            self.found().no_duplicates() ==> paths_view(r@).no_duplicates(),
    {
        proof {
            use_type_invariant(&self);
        }
        let ghost segs = self.segments();
        let ghost n = self.walked();
        let ghost before = self.found();
        let paths = self.paths;
        let r = sort_paths(paths);
        proof {
            lemma_path_order_total();
            before.lemma_sort_by_ensures(path_order());
            if before.no_duplicates() {
                before.lemma_multiset_has_no_duplicates();
                paths_view(r@).lemma_multiset_has_no_duplicates_conv();
            }
            assert forall|q: int| 0 <= q < r.len() implies fits_segments(
                segs,
                n,
                #[trigger] r@[q]@,
            ) by {
                let x = paths_view(r@)[q];
                assert(x == r@[q]@);
                assert(before.sort_by(path_order()).contains(x));
                assert(before.contains(x));
                let j = choose|j: int| 0 <= j < before.len() && before[j] == x;
                assert(before[j] == paths@[j]@);
            }
        }
        r
    }
}

} // verus!
