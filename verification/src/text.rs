//! Character-level text handling shared by the sysfs, state-file and sensor
//! parsers: whitespace trimming, decimal integers, string comparison.

use vstd::prelude::*;
use vstd::string::*;

verus! {

// ------------------------------------------------------------------ specs

/// Unicode `White_Space` property, the set that `str::trim` removes.
pub open spec fn is_white_space(c: char) -> bool {
    ||| '\u{9}' <= c <= '\u{d}'
    ||| c == ' '
    ||| c == '\u{85}'
    ||| c == '\u{a0}'
    ||| c == '\u{1680}'
    ||| '\u{2000}' <= c <= '\u{200a}'
    ||| c == '\u{2028}'
    ||| c == '\u{2029}'
    ||| c == '\u{202f}'
    ||| c == '\u{205f}'
    ||| c == '\u{3000}'
}

/// `s` without leading and trailing white space.
pub open spec fn trimmed(s: Seq<char>) -> Seq<char>
    decreases s.len(),
{
    if s.len() > 0 && is_white_space(s[0]) {
        trimmed(s.drop_first())
    } else if s.len() > 0 && is_white_space(s.last()) {
        trimmed(s.drop_last())
    } else {
        s
    }
}

pub open spec fn is_digit(c: char) -> bool {
    '0' <= c <= '9'
}

pub open spec fn digit_value(c: char) -> int {
    c as int - '0' as int
}

pub open spec fn all_digits(s: Seq<char>) -> bool {
    forall|i: int| 0 <= i < s.len() ==> #[trigger] is_digit(s[i])
}

/// The value of a string of decimal digits, most significant first.
pub open spec fn digits_value(s: Seq<char>) -> int
    decreases s.len(),
{
    if s.len() == 0 {
        0
    } else {
        digits_value(s.drop_last()) * 10 + digit_value(s.last())
    }
}

/// What `str::parse::<i64>` gives: an optional `+` or `-`, then at least one
/// ASCII digit and nothing else, with a value that fits in an `i64`.
pub open spec fn parse_i64_spec(s: Seq<char>) -> Option<i64> {
    if s.len() == 0 {
        None
    } else {
        let neg = s[0] == '-';
        let body = if s[0] == '-' || s[0] == '+' {
            s.drop_first()
        } else {
            s
        };
        if body.len() == 0 || !all_digits(body) {
            None
        } else {
            let v = if neg {
                -digits_value(body)
            } else {
                digits_value(body)
            };
            if i64::MIN <= v <= i64::MAX {
                Some(v as i64)
            } else {
                None
            }
        }
    }
}

pub open spec fn digit_char(d: int) -> char {
    (d + '0' as int) as char
}

/// Decimal digits of a natural number, most significant first, no padding.
pub open spec fn nat_decimal(n: nat) -> Seq<char>
    decreases n,
{
    if n < 10 {
        seq![digit_char(n as int)]
    } else {
        nat_decimal(n / 10).push(digit_char((n % 10) as int))
    }
}

/// What `to_string` gives for an integer: a `-` for negatives, then the digits.
pub open spec fn int_decimal(v: int) -> Seq<char> {
    if v < 0 {
        seq!['-'] + nat_decimal((-v) as nat)
    } else {
        nat_decimal(v as nat)
    }
}

/// `needle` occurs in `hay` starting at position `i`.
pub open spec fn occurs_at(hay: Seq<char>, needle: Seq<char>, i: int) -> bool {
    0 <= i && i + needle.len() <= hay.len() && hay.subrange(i, i + needle.len()) == needle
}

pub open spec fn contains_seq(hay: Seq<char>, needle: Seq<char>) -> bool {
    exists|i: int| occurs_at(hay, needle, i)
}

// ------------------------------------------------------------------ lemmas

proof fn lemma_trimmed_bounds(s: Seq<char>, i: int, j: int)
    requires
        0 <= i <= j <= s.len(),
        forall|k: int| 0 <= k < i ==> is_white_space(#[trigger] s[k]),
        forall|k: int| j <= k < s.len() ==> is_white_space(#[trigger] s[k]),
        i < j ==> !is_white_space(s[i]) && !is_white_space(s[j - 1]),
    ensures
        trimmed(s) == s.subrange(i, j),
    decreases s.len(),
{
    if s.len() > 0 && is_white_space(s[0]) {
        let t = s.drop_first();
        if i > 0 {
            lemma_trimmed_bounds(t, i - 1, j - 1);
            assert(t.subrange(i - 1, j - 1) =~= s.subrange(i, j));
        } else {
            assert(j == 0);
            lemma_trimmed_bounds(t, 0, 0);
            assert(t.subrange(0, 0) =~= s.subrange(i, j));
        }
    } else if s.len() > 0 && is_white_space(s.last()) {
        let t = s.drop_last();
        if j == s.len() {
            assert(i == j);
            lemma_trimmed_bounds(t, i - 1, i - 1);
            assert(t.subrange(i - 1, i - 1) =~= s.subrange(i, j));
        } else {
            lemma_trimmed_bounds(t, i, j);
            assert(t.subrange(i, j) =~= s.subrange(i, j));
        }
    } else {
        if s.len() > 0 {
            assert(i == 0);
            assert(j == s.len());
        }
        assert(s.subrange(i, j) =~= s);
    }
}

proof fn lemma_digits_value_take_step(s: Seq<char>, k: int)
    requires
        0 <= k < s.len(),
    ensures
        digits_value(s.take(k + 1)) == digits_value(s.take(k)) * 10 + digit_value(s[k]),
{
    assert(s.take(k + 1).drop_last() =~= s.take(k));
}

proof fn lemma_digits_value_nonneg(s: Seq<char>)
    requires
        all_digits(s),
    ensures
        digits_value(s) >= 0,
    decreases s.len(),
{
    if s.len() > 0 {
        assert(all_digits(s.drop_last())) by {
            assert forall|i: int| 0 <= i < s.drop_last().len() implies #[trigger] is_digit(
                s.drop_last()[i],
            ) by {
                assert(is_digit(s[i]));
            }
        }
        lemma_digits_value_nonneg(s.drop_last());
        assert(is_digit(s[s.len() - 1]));
    }
}

/// A prefix of a digit string is worth no more than the whole string.
proof fn lemma_digits_value_prefix_le(s: Seq<char>, k: int)
    requires
        all_digits(s),
        0 <= k <= s.len(),
    ensures
        digits_value(s.take(k)) <= digits_value(s),
    decreases s.len() - k,
{
    if k < s.len() {
        lemma_digits_value_take_step(s, k);
        assert(all_digits(s.take(k))) by {
            assert forall|i: int| 0 <= i < s.take(k).len() implies #[trigger] is_digit(
                s.take(k)[i],
            ) by {
                assert(is_digit(s[i]));
            }
        }
        lemma_digits_value_nonneg(s.take(k));
        assert(is_digit(s[k]));
        lemma_digits_value_prefix_le(s, k + 1);
    } else {
        assert(s.take(k) =~= s);
    }
}

proof fn lemma_nat_decimal(n: nat)
    ensures
        nat_decimal(n).len() > 0,
        all_digits(nat_decimal(n)),
        digits_value(nat_decimal(n)) == n,
    decreases n,
{
    assert(digit_value(digit_char((n % 10) as int)) == n % 10);
    assert(n == (n / 10) * 10 + n % 10);
    if n < 10 {
        let s = nat_decimal(n);
        assert(s.drop_last() =~= Seq::<char>::empty());
        assert(digits_value(s.drop_last()) == 0);
    } else {
        lemma_nat_decimal(n / 10);
        let s = nat_decimal(n);
        assert(s.drop_last() =~= nat_decimal(n / 10));
        assert(all_digits(s)) by {
            assert forall|i: int| 0 <= i < s.len() implies #[trigger] is_digit(s[i]) by {
                if i < s.len() - 1 {
                    assert(is_digit(nat_decimal(n / 10)[i]));
                }
            }
        }
    }
}

/// The decimal form of any `i64` parses back to the same value.
pub proof fn lemma_parse_int_decimal(v: i64)
    ensures
        parse_i64_spec(int_decimal(v as int)) == Some(v),
{
    let m: nat = if v < 0 {
        (-v) as nat
    } else {
        v as nat
    };
    lemma_nat_decimal(m);
    let d = nat_decimal(m);
    assert(is_digit(d[0]));
    if v < 0 {
        let s = int_decimal(v as int);
        assert(s.drop_first() =~= d);
    }
}

/// Decimal forms carry no white space at either end.
pub proof fn lemma_int_decimal_ends(v: int)
    ensures
        int_decimal(v).len() > 0,
        !is_white_space(int_decimal(v)[0]),
        !is_white_space(int_decimal(v).last()),
{
    let m: nat = if v < 0 {
        (-v) as nat
    } else {
        v as nat
    };
    lemma_nat_decimal(m);
    let d = nat_decimal(m);
    assert(is_digit(d[d.len() - 1]));
    assert(is_digit(d[0]));
}

/// Trimming a string that has no white space at either end leaves it as it is.
pub proof fn lemma_trimmed_clean(s: Seq<char>)
    requires
        s.len() > 0 ==> !is_white_space(s[0]) && !is_white_space(s.last()),
    ensures
        trimmed(s) == s,
{
    lemma_trimmed_bounds(s, 0, s.len() as int);
    assert(s.subrange(0, s.len() as int) =~= s);
}

/// Trimming removes a trailing newline from a clean string.
pub proof fn lemma_trimmed_line(s: Seq<char>)
    requires
        s.len() > 0,
        !is_white_space(s[0]),
        !is_white_space(s.last()),
    ensures
        trimmed(s.push('\n')) == s,
{
    let t = s.push('\n');
    assert(is_white_space('\n'));
    lemma_trimmed_bounds(t, 0, s.len() as int);
    assert(t.subrange(0, s.len() as int) =~= s);
}

// --------------------------------------------------------------- exec code

/// The characters of `s`, in order.
pub fn chars_of(s: &str) -> (v: Vec<char>)
    ensures
        v@ == s@,
{
    let mut v: Vec<char> = Vec::new();
    for c in it: s.chars()
        invariant
            v@ == it.seq().take(it.index() as int),
    {
        v.push(c);
    }
    v
}

/// Character-wise equality of two strings.
pub fn str_eq(a: &str, b: &str) -> (r: bool)
    ensures
        r == (a@ == b@),
{
    let x = chars_of(a);
    let y = chars_of(b);
    if x.len() != y.len() {
        return false;
    }
    let mut i: usize = 0;
    while i < x.len()
        invariant
            x@ == a@,
            y@ == b@,
            x.len() == y.len(),
            i <= x.len(),
            forall|k: int| 0 <= k < i ==> x@[k] == y@[k],
        decreases x.len() - i,
    {
        if x[i] != y[i] {
            return false;
        }
        i = i + 1;
    }
    assert(x@ =~= y@);
    true
}

/// Whether `needle` occurs in `hay` at position `i`.
pub fn occurs_at_exec(hay: &Vec<char>, needle: &Vec<char>, i: usize) -> (r: bool)
    ensures
        r == occurs_at(hay@, needle@, i as int),
{
    if i > hay.len() || needle.len() > hay.len() - i {
        return false;
    }
    let mut k: usize = 0;
    while k < needle.len()
        invariant
            i + needle.len() <= hay.len(),
            k <= needle.len(),
            forall|m: int| 0 <= m < k ==> hay@[i + m] == needle@[m],
        decreases needle.len() - k,
    {
        if hay[i + k] != needle[k] {
            assert(hay@.subrange(i as int, i + needle.len())[k as int] != needle@[k as int]);
            return false;
        }
        k = k + 1;
    }
    assert(hay@.subrange(i as int, i + needle.len()) =~= needle@);
    true
}

/// Whether `needle` occurs anywhere in `hay`.
pub fn contains_chars(hay: &Vec<char>, needle: &Vec<char>) -> (r: bool)
    ensures
        r == contains_seq(hay@, needle@),
{
    let mut i: usize = 0;
    while i < hay.len()
        invariant
            i <= hay.len(),
            forall|m: int| 0 <= m < i ==> !occurs_at(hay@, needle@, m),
        decreases hay.len() - i,
    {
        if occurs_at_exec(hay, needle, i) {
            return true;
        }
        i = i + 1;
    }
    if occurs_at_exec(hay, needle, i) {
        return true;
    }
    assert forall|m: int| !occurs_at(hay@, needle@, m) by {
        if 0 <= m <= i {
        }
    }
    false
}

pub fn is_white_space_char(c: char) -> (r: bool)
    ensures
        r == is_white_space(c),
{
    ('\u{9}' <= c && c <= '\u{d}') || c == ' ' || c == '\u{85}' || c == '\u{a0}' || c
        == '\u{1680}' || ('\u{2000}' <= c && c <= '\u{200a}') || c == '\u{2028}' || c
        == '\u{2029}' || c == '\u{202f}' || c == '\u{205f}' || c == '\u{3000}'
}

/// `s` without leading and trailing white space (`str::trim`).
pub fn trim(s: &str) -> (r: String)
    ensures
        r@ == trimmed(s@),
{
    let v = chars_of(s);
    let n = v.len();
    let mut i: usize = 0;
    while i < n && is_white_space_char(v[i])
        invariant
            v@ == s@,
            n == v.len(),
            i <= n,
            forall|k: int| 0 <= k < i ==> is_white_space(#[trigger] v@[k]),
        decreases n - i,
    {
        i = i + 1;
    }
    let mut j: usize = n;
    while j > i && is_white_space_char(v[j - 1])
        invariant
            v@ == s@,
            n == v.len(),
            i <= j <= n,
            forall|k: int| j <= k < n ==> is_white_space(#[trigger] v@[k]),
        decreases j,
    {
        j = j - 1;
    }
    proof {
        lemma_trimmed_bounds(s@, i as int, j as int);
    }
    s.substring_char(i, j).to_owned()
}

/// `str::parse::<i64>` on the characters `v`.
pub fn parse_i64_chars(v: &Vec<char>) -> (r: Option<i64>)
    ensures
        r == parse_i64_spec(v@),
{
    let n = v.len();
    if n == 0 {
        return None;
    }
    let neg = v[0] == '-';
    let start: usize = if v[0] == '-' || v[0] == '+' {
        1
    } else {
        0
    };
    let ghost body = if v@[0] == '-' || v@[0] == '+' {
        v@.drop_first()
    } else {
        v@
    };
    assert(body =~= v@.subrange(start as int, n as int));
    if start == n {
        return None;
    }
    let mut acc: i128 = 0;
    let mut k: usize = start;
    while k < n
        invariant
            n == v.len(),
            start <= k <= n,
            body =~= v@.subrange(start as int, n as int),
            n > 0,
            body == (if v@[0] == '-' || v@[0] == '+' {
                v@.drop_first()
            } else {
                v@
            }),
            forall|m: int| start <= m < k ==> is_digit(#[trigger] v@[m]),
            acc == digits_value(body.take(k - start)),
            0 <= acc <= i64::MAX + 1,
        decreases n - k,
    {
        let c = v[k];
        if !('0' <= c && c <= '9') {
            assert(body[k - start] == v@[k as int]);
            assert(!is_digit(body[k - start]));
            assert(!all_digits(body));
            return None;
        }
        proof {
            lemma_digits_value_take_step(body, (k - start) as int);
        }
        let next: i128 = acc * 10 + (c as i128 - '0' as i128);
        if next > i64::MAX as i128 + 1 {
            // The value only grows as digits are added, so it cannot fit.
            proof {
                // Remaining characters may be non-digits, in which case parsing fails anyway.
                if all_digits(body) {
                    lemma_digits_value_prefix_le(body, (k + 1 - start) as int);
                    assert(digits_value(body) > i64::MAX + 1);
                }
            }
            return None;
        }
        acc = next;
        k = k + 1;
    }
    assert(body.take(n - start) =~= body);
    assert(all_digits(body));
    if neg {
        Some((0 - acc) as i64)
    } else if acc <= i64::MAX as i128 {
        Some(acc as i64)
    } else {
        None
    }
}

/// `str::parse::<i64>`.
pub fn parse_i64(s: &str) -> (r: Option<i64>)
    ensures
        r == parse_i64_spec(s@),
{
    let v = chars_of(s);
    parse_i64_chars(&v)
}

/// The one-character string of a decimal digit.
fn digit_str(d: u64) -> (r: &'static str)
    requires
        d < 10,
    ensures
        r@ == seq![digit_char(d as int)],
{
    if d == 0 {
        proof {
            reveal_strlit("0");
        }
        "0"
    } else if d == 1 {
        proof {
            reveal_strlit("1");
        }
        "1"
    } else if d == 2 {
        proof {
            reveal_strlit("2");
        }
        "2"
    } else if d == 3 {
        proof {
            reveal_strlit("3");
        }
        "3"
    } else if d == 4 {
        proof {
            reveal_strlit("4");
        }
        "4"
    } else if d == 5 {
        proof {
            reveal_strlit("5");
        }
        "5"
    } else if d == 6 {
        proof {
            reveal_strlit("6");
        }
        "6"
    } else if d == 7 {
        proof {
            reveal_strlit("7");
        }
        "7"
    } else if d == 8 {
        proof {
            reveal_strlit("8");
        }
        "8"
    } else {
        proof {
            reveal_strlit("9");
        }
        "9"
    }
}

fn nat_to_decimal(n: u64) -> (r: String)
    ensures
        r@ == nat_decimal(n as nat),
    decreases n,
{
    if n < 10 {
        digit_str(n).to_owned()
    } else {
        let mut s = nat_to_decimal(n / 10);
        s.append(digit_str(n % 10));
        s
    }
}

/// The decimal form of `v`, as `i64::to_string` writes it.
pub fn i64_to_decimal(v: i64) -> (r: String)
    ensures
        r@ == int_decimal(v as int),
{
    if v < 0 {
        let m: u64 = (0 - (v as i128)) as u64;
        let digits = nat_to_decimal(m);
        proof {
            reveal_strlit("-");
        }
        let mut s = "-".to_owned();
        s.append(digits.as_str());
        s
    } else {
        nat_to_decimal(v as u64)
    }
}

/// `s` followed by a newline: the line written to a sysfs or state file.
pub fn with_newline(s: &str) -> (r: String)
    ensures
        r@ == s@.push('\n'),
{
    proof {
        reveal_strlit("\n");
    }
    let mut r = s.to_owned();
    r.append("\n");
    assert(r@ =~= s@.push('\n'));
    r
}

/// Parses a trimmed sysfs value as an integer: `None` when absent, empty or
/// not an integer.
pub fn as_int(s: Option<&str>) -> (r: Option<i64>)
    ensures
        r == match s {
            Some(t) => if t@.len() == 0 {
                None
            } else {
                parse_i64_spec(t@)
            },
            None => None,
        },
{
    match s {
        Some(t) => {
            if t.is_empty() {
                None
            } else {
                parse_i64(t)
            }
        },
        None => None,
    }
}

} // verus!
