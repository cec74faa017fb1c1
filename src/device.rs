//! Reading the output of `df <dir>/`: the device that holds a directory and how full it is.
use vstd::prelude::*;

use crate::text::{
    digits_end, digits_value, lemma_skip_digits, lemma_skip_spaces, skip_digits, skip_spaces,
    skip_spaces_back, small_number, spaces_back, spaces_end,
};

verus! {

/// `s` without leading and trailing white space, as `str::trim` gives it.
pub open spec fn trim(s: Seq<char>) -> Seq<char> {
    let a = skip_spaces(s, 0);
    let b = skip_spaces_back(s, s.len() as int);
    if a < b {
        s.subrange(a, b)
    } else {
        Seq::empty()
    }
}

/// The second line of `t` when `t` has exactly two lines.
pub open spec fn second_line(t: Seq<char>) -> Option<Seq<char>> {
    if exists|i: int| #[trigger] only_newline(t, i) {
        let i = choose|i: int| #[trigger] only_newline(t, i);
        Some(t.subrange(i + 1, t.len() as int))
    } else {
        None
    }
}

/// Position `i` holds the one line break of `t`.
pub open spec fn only_newline(t: Seq<char>, i: int) -> bool {
    &&& 0 <= i < t.len()
    &&& t[i] == '\n'
    &&& forall|j: int| 0 <= j < t.len() && j != i ==> #[trigger] t[j] != '\n'
}

/// `\s+\d+` at position `k`: the position after it.
pub open spec fn spaced_number(s: Seq<char>, k: int) -> Option<int> {
    let a = skip_spaces(s, k);
    let b = skip_digits(s, a);
    if a > k && b > a {
        Some(b)
    } else {
        None
    }
}

/// `(\s+\d+){3}\s+(\d{1,2})%` at position `k`: the use percentage it holds.
pub open spec fn usage_at(s: Seq<char>, k: int) -> Option<nat> {
    match spaced_number(s, k) {
        None => None,
        Some(k1) => match spaced_number(s, k1) {
            None => None,
            Some(k2) => match spaced_number(s, k2) {
                None => None,
                Some(k3) => {
                    let a = skip_spaces(s, k3);
                    let b = skip_digits(s, a);
                    if a > k3 && 1 <= b - a <= 2 && b < s.len() && s[b] == '%' {
                        Some(digits_value(s.subrange(a, b)))
                    } else {
                        None
                    }
                },
            },
        },
    }
}

/// The first position at or after `k` where the usage columns match.
pub open spec fn first_usage(s: Seq<char>, k: int) -> Option<int>
    decreases s.len() + 1 - k,
{
    if k < 0 || k > s.len() {
        None
    } else if usage_at(s, k) is Some {
        Some(k)
    } else {
        first_usage(s, k + 1)
    }
}

/// What `^\s*(?P<device>.*?)(?:\s+\d+){3}\s+(?P<use>\d{1,2})%` captures in a line: the
/// leading spaces as many as possible, then the shortest device name after which the
/// usage columns match.
pub open spec fn df_fields(line: Seq<char>) -> Option<(Seq<char>, nat)> {
    let m = skip_spaces(line, 0);
    match first_usage(line, m) {
        Some(k) => Some((line.subrange(m, k), usage_at(line, k)->0)),
        None => if m > 0 && usage_at(line, m - 1) is Some {
            Some((Seq::empty(), usage_at(line, m - 1)->0))
        } else {
            None
        },
    }
}

/// The device and its use percentage that `df` output reports: exactly two lines once
/// trimmed, the second of which matches the columns.
pub open spec fn device_usage(output: Seq<char>) -> Option<(Seq<char>, nat)> {
    match second_line(trim(output)) {
        None => None,
        Some(line) => df_fields(line),
    }
}

/// The argument to give `df` for `path`: with a trailing slash, which makes `df` report the
/// directory's own device.
pub fn df_target(path: &str) -> (r: String)
    ensures
        r@ == if path@.len() > 0 && path@.last() == '/' {
            path@
        } else {
            path@.push('/')
        },
{
    let mut r = String::from_str(path);
    let n = path.unicode_len();
    if n == 0 || path.get_char(n - 1) != '/' {
        proof {
            reveal_strlit("/");
        }
        r.append("/");
        assert(path@ + "/"@ =~= path@.push('/'));
    }
    r
}

fn spaced_number_exec(s: &str, k: usize) -> (r: Option<usize>)
    requires
        k <= s@.len(),
    ensures
        match r {
            Some(x) => spaced_number(s@, k as int) == Some(x as int) && k < x <= s@.len(),
            None => spaced_number(s@, k as int) is None,
        },
{
    let a = spaces_end(s, k);
    proof {
        lemma_skip_spaces(s@, k as int);
    }
    let b = digits_end(s, a);
    proof {
        lemma_skip_digits(s@, a as int);
    }
    if a > k && b > a {
        Some(b)
    } else {
        None
    }
}

fn usage_at_exec(s: &str, k: usize) -> (r: Option<u8>)
    requires
        k <= s@.len(),
    ensures
        match r {
            Some(u) => usage_at(s@, k as int) == Some(u as nat),
            None => usage_at(s@, k as int) is None,
        },
{
    let k1 = match spaced_number_exec(s, k) {
        None => return None,
        Some(x) => x,
    };
    let k2 = match spaced_number_exec(s, k1) {
        None => return None,
        Some(x) => x,
    };
    let k3 = match spaced_number_exec(s, k2) {
        None => return None,
        Some(x) => x,
    };
    let a = spaces_end(s, k3);
    proof {
        lemma_skip_spaces(s@, k3 as int);
    }
    let b = digits_end(s, a);
    proof {
        lemma_skip_digits(s@, a as int);
    }
    if a > k3 && b > a && b - a <= 2 && b < s.unicode_len() && s.get_char(b) == '%' {
        let u = small_number(s, a, b);
        Some(u)
    } else {
        None
    }
}

fn df_fields_exec(line: &str) -> (r: Option<(String, u8)>)
    ensures
        match r {
            Some((d, u)) => df_fields(line@) == Some((d@, u as nat)),
            None => df_fields(line@) is None,
        },
{
    let n = line.unicode_len();
    let m = spaces_end(line, 0);
    proof {
        lemma_skip_spaces(line@, 0);
    }
    let mut k = m;
    loop
        invariant_except_break
            m <= k <= n,
            n == line@.len(),
            m as int == skip_spaces(line@, 0),
            first_usage(line@, m as int) == first_usage(line@, k as int),
        ensures
            first_usage(line@, m as int) is None,
            m as int == skip_spaces(line@, 0),
            n == line@.len(),
        decreases n - k,
    {
        match usage_at_exec(line, k) {
            Some(u) => {
                let d = String::from_str(line.substring_char(m, k));
                return Some((d, u));
            },
            None => {},
        }
        if k == n {
            assert(first_usage(line@, k + 1) is None);
            assert(first_usage(line@, k as int) is None);
            break;
        }
        k = k + 1;
    }
    assert(first_usage(line@, m as int) is None);
    if m > 0 {
        match usage_at_exec(line, m - 1) {
            Some(u) => {
                let d = String::new();
                assert(d@ =~= Seq::<char>::empty());
                return Some((d, u));
            },
            None => {},
        }
    }
    None
}

/// The position of the one line break in `s[a..b]`, if it holds exactly one.
fn lone_break(s: &str, a: usize, b: usize) -> (r: Option<usize>)
    requires
        a <= b <= s@.len(),
    ensures
        match r {
            Some(p) => a <= p < b && only_newline(s@.subrange(a as int, b as int), p - a),
            None => !exists|i: int| #[trigger] only_newline(s@.subrange(a as int, b as int), i),
        },
{
    let ghost t = s@.subrange(a as int, b as int);
    let mut p = a;
    while p < b && s.get_char(p) != '\n'
        invariant
            a <= p <= b <= s@.len(),
            forall|j: int| a <= j < p ==> #[trigger] s@[j] != '\n',
        decreases b - p,
    {
        p = p + 1;
    }
    if p == b {
        proof {
            assert forall|i: int| !#[trigger] only_newline(t, i) by {
                if 0 <= i < t.len() {
                    assert(t[i] == s@[a + i]);
                }
            }
        }
        return None;
    }
    let mut q = p + 1;
    while q < b && s.get_char(q) != '\n'
        invariant
            p < q <= b <= s@.len(),
            forall|j: int| p < j < q ==> #[trigger] s@[j] != '\n',
        decreases b - q,
    {
        q = q + 1;
    }
    if q < b {
        proof {
            assert(t[p - a] == '\n' && t[q - a] == '\n');
            assert forall|i: int| !#[trigger] only_newline(t, i) by {
                if only_newline(t, i) {
                    if i == p - a {
                        assert(t[q - a] != '\n');
                    } else {
                        assert(t[p - a] != '\n');
                    }
                }
            }
        }
        return None;
    }
    proof {
        assert forall|j: int| 0 <= j < t.len() && j != p - a implies #[trigger] t[j] != '\n' by {
            assert(t[j] == s@[a + j]);
        }
    }
    Some(p)
}

/// The device and use percentage in `df` output, or the error that the output is not in
/// the expected form.
pub fn get_device_usage(output: &str) -> (r: Result<(String, u8), String>)
    ensures
        match r {
            Ok((device, usage)) => device_usage(output@) == Some((device@, usage as nat)),
            Err(e) => device_usage(output@) is None && e@ == "Got an unexpected output from `df`"@,
        },
{
    let error = String::from_str("Got an unexpected output from `df`");
    let n = output.unicode_len();
    let a = spaces_end(output, 0);
    proof {
        lemma_skip_spaces(output@, 0);
    }
    let b = spaces_back(output, n);
    if a >= b {
        proof {
            let t = trim(output@);
            assert(t =~= Seq::<char>::empty());
        }
        return Err(error);
    }
    let ghost t = output@.subrange(a as int, b as int);
    assert(trim(output@) == t);
    let p = match lone_break(output, a, b) {
        Some(p) => p,
        None => return Err(error),
    };
    proof {
        let i = choose|i: int| #[trigger] only_newline(t, i);
        if i != p - a {
            assert(t[i] != '\n');
        }
        assert(t.subrange(p - a + 1, t.len() as int) =~= output@.subrange(p + 1, b as int));
    }
    let line = output.substring_char(p + 1, b);
    match df_fields_exec(line) {
        Some((device, usage)) => Ok((device, usage)),
        None => Err(error),
    }
}

} // verus!
