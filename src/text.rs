//! Character classes, scanning and decimal helpers shared by the parsers.
use vstd::prelude::*;

verus! {

/// Unicode `White_Space`: the characters that `char::is_whitespace` accepts.
pub open spec fn is_space(c: char) -> bool {
    ('\t' <= c && c <= '\r') || c == ' ' || c == '\u{85}' || c == '\u{a0}' || c == '\u{1680}'
        || ('\u{2000}' <= c && c <= '\u{200a}') || c == '\u{2028}' || c == '\u{2029}'
        || c == '\u{202f}' || c == '\u{205f}' || c == '\u{3000}'
}

pub open spec fn is_digit(c: char) -> bool {
    '0' <= c && c <= '9'
}

pub open spec fn digit_value(c: char) -> nat {
    (c as u32 - '0' as u32) as nat
}

/// The number that a run of decimal digits spells.
pub open spec fn digits_value(s: Seq<char>) -> nat
    decreases s.len(),
{
    if s.len() == 0 {
        0
    } else {
        digits_value(s.drop_last()) * 10 + digit_value(s.last())
    }
}

/// The first position at or after `i` that does not hold a space.
pub open spec fn skip_spaces(s: Seq<char>, i: int) -> int
    decreases s.len() - i,
{
    if 0 <= i < s.len() && is_space(s[i]) {
        skip_spaces(s, i + 1)
    } else {
        i
    }
}

/// The first position at or after `i` that does not hold a digit.
pub open spec fn skip_digits(s: Seq<char>, i: int) -> int
    decreases s.len() - i,
{
    if 0 <= i < s.len() && is_digit(s[i]) {
        skip_digits(s, i + 1)
    } else {
        i
    }
}

pub proof fn lemma_skip_spaces(s: Seq<char>, i: int)
    requires
        0 <= i <= s.len(),
    ensures
        i <= skip_spaces(s, i) <= s.len(),
        forall|k: int| i <= k < skip_spaces(s, i) ==> is_space(#[trigger] s[k]),
        skip_spaces(s, i) < s.len() ==> !is_space(s[skip_spaces(s, i)]),
    decreases s.len() - i,
{
    if i < s.len() && is_space(s[i]) {
        lemma_skip_spaces(s, i + 1);
    }
}

pub proof fn lemma_skip_digits(s: Seq<char>, i: int)
    requires
        0 <= i <= s.len(),
    ensures
        i <= skip_digits(s, i) <= s.len(),
        forall|k: int| i <= k < skip_digits(s, i) ==> is_digit(#[trigger] s[k]),
        skip_digits(s, i) < s.len() ==> !is_digit(s[skip_digits(s, i)]),
    decreases s.len() - i,
{
    if i < s.len() && is_digit(s[i]) {
        lemma_skip_digits(s, i + 1);
    }
}

pub fn space(c: char) -> (r: bool)
    ensures
        r == is_space(c),
{
    ('\t' <= c && c <= '\r') || c == ' ' || c == '\u{85}' || c == '\u{a0}' || c == '\u{1680}'
        || ('\u{2000}' <= c && c <= '\u{200a}') || c == '\u{2028}' || c == '\u{2029}'
        || c == '\u{202f}' || c == '\u{205f}' || c == '\u{3000}'
}

pub fn digit(c: char) -> (r: bool)
    ensures
        r == is_digit(c),
{
    '0' <= c && c <= '9'
}

/// Position of the first non-space character of `s` at or after `i`.
pub fn spaces_end(s: &str, i: usize) -> (r: usize)
    requires
        i <= s@.len(),
    ensures
        r as int == skip_spaces(s@, i as int),
{
    let n = s.unicode_len();
    let mut j: usize = i;
    while j < n && space(s.get_char(j))
        invariant
            i <= j <= n,
            n == s@.len(),
            skip_spaces(s@, j as int) == skip_spaces(s@, i as int),
        decreases n - j,
    {
        j = j + 1;
    }
    j
}

/// Position of the first non-digit character of `s` at or after `i`.
pub fn digits_end(s: &str, i: usize) -> (r: usize)
    requires
        i <= s@.len(),
    ensures
        r as int == skip_digits(s@, i as int),
{
    let n = s.unicode_len();
    let mut j: usize = i;
    while j < n && digit(s.get_char(j))
        invariant
            i <= j <= n,
            n == s@.len(),
            skip_digits(s@, j as int) == skip_digits(s@, i as int),
        decreases n - j,
    {
        j = j + 1;
    }
    j
}

/// The value of the digits `s[from..to]`, or `None` when it exceeds `limit`.
pub fn digits_to_u64(s: &str, from: usize, to: usize, limit: u64) -> (r: Option<u64>)
    requires
        from <= to <= s@.len(),
        forall|k: int| from <= k < to ==> is_digit(#[trigger] s@[k]),
    ensures
        match r {
            Some(v) => v as nat == digits_value(s@.subrange(from as int, to as int)) && v <= limit,
            None => digits_value(s@.subrange(from as int, to as int)) > limit,
        },
{
    let mut acc: u64 = 0;
    let mut j: usize = from;
    while j < to
        invariant
            from <= j <= to <= s@.len(),
            forall|k: int| from <= k < to ==> is_digit(#[trigger] s@[k]),
            acc as nat == digits_value(s@.subrange(from as int, j as int)),
            acc <= limit,
        decreases to - j,
    {
        let c = s.get_char(j);
        let d = (c as u32 - '0' as u32) as u64;
        assert(s@.subrange(from as int, j + 1).drop_last() == s@.subrange(from as int, j as int));
        assert(d as nat == digit_value(c));
        if d > limit || acc > (limit - d) / 10 {
            proof {
                let a = s@.subrange(from as int, j + 1);
                let b = s@.subrange(from as int, to as int);
                assert(a == b.subrange(0, a.len() as int));
                lemma_digits_value_grows(a, b);
                assert(acc * 10 + d > limit) by (nonlinear_arith)
                    requires
                        d > limit || acc > (limit - d) / 10,
                ;
            }
            return None;
        }
        assert(acc * 10 + d <= limit) by (nonlinear_arith)
            requires
                acc <= (limit - d) / 10,
                d <= limit,
        ;
        acc = acc * 10 + d;
        j = j + 1;
    }
    Some(acc)
}

/// A longer run of digits never spells a smaller number.
pub proof fn lemma_digits_value_grows(a: Seq<char>, b: Seq<char>)
    requires
        a.len() <= b.len(),
        a == b.subrange(0, a.len() as int),
    ensures
        digits_value(a) <= digits_value(b),
    decreases b.len(),
{
    if a.len() < b.len() {
        assert(a == b.drop_last().subrange(0, a.len() as int));
        lemma_digits_value_grows(a, b.drop_last());
        assert(digits_value(b) == digits_value(b.drop_last()) * 10 + digit_value(b.last()));
    } else {
        assert(a =~= b);
    }
}

/// Decimal digits of `n`, most significant first, with no leading zero.
pub open spec fn decimal(n: nat) -> Seq<char>
    decreases n,
{
    if n < 10 {
        seq![digit_char(n)]
    } else {
        decimal(n / 10).push(digit_char(n % 10))
    }
}

pub open spec fn digit_char(d: nat) -> char {
    if d == 0 {
        '0'
    } else if d == 1 {
        '1'
    } else if d == 2 {
        '2'
    } else if d == 3 {
        '3'
    } else if d == 4 {
        '4'
    } else if d == 5 {
        '5'
    } else if d == 6 {
        '6'
    } else if d == 7 {
        '7'
    } else if d == 8 {
        '8'
    } else {
        '9'
    }
}

fn digit_str(d: u64) -> (r: &'static str)
    requires
        d < 10,
    ensures
        r@ == seq![digit_char(d as nat)],
{
    proof {
        reveal_strlit("0");
        reveal_strlit("1");
        reveal_strlit("2");
        reveal_strlit("3");
        reveal_strlit("4");
        reveal_strlit("5");
        reveal_strlit("6");
        reveal_strlit("7");
        reveal_strlit("8");
        reveal_strlit("9");
    }
    if d == 0 {
        "0"
    } else if d == 1 {
        "1"
    } else if d == 2 {
        "2"
    } else if d == 3 {
        "3"
    } else if d == 4 {
        "4"
    } else if d == 5 {
        "5"
    } else if d == 6 {
        "6"
    } else if d == 7 {
        "7"
    } else if d == 8 {
        "8"
    } else {
        "9"
    }
}

/// Appends the decimal form of `n` to `out`.
pub fn push_decimal(out: &mut String, n: u64)
    ensures
        final(out)@ == old(out)@ + decimal(n as nat),
    decreases n,
{
    if n < 10 {
        out.append(digit_str(n));
    } else {
        push_decimal(out, n / 10);
        out.append(digit_str(n % 10));
    }
}

/// The number spelt by the one or two digits `s[from..to]`.
pub fn small_number(s: &str, from: usize, to: usize) -> (r: u8)
    requires
        from < to <= from + 2,
        to <= s@.len(),
        forall|k: int| from <= k < to ==> is_digit(#[trigger] s@[k]),
    ensures
        r as nat == digits_value(s@.subrange(from as int, to as int)),
        r < 100,
{
    let sub = Ghost(s@.subrange(from as int, to as int));
    let a = s.get_char(from);
    assert(is_digit(s@[from as int]));
    let x = (a as u32 - '0' as u32) as u8;
    assert(sub@.subrange(0, 1).drop_last() =~= Seq::<char>::empty());
    assert(sub@.subrange(0, 1).last() == a);
    assert(digits_value(Seq::<char>::empty()) == 0);
    assert(digits_value(sub@.subrange(0, 1)) == digit_value(a));
    if to == from + 1 {
        assert(sub@ =~= sub@.subrange(0, 1));
        x
    } else {
        let b = s.get_char(from + 1);
        assert(is_digit(s@[from + 1]));
        let y = (b as u32 - '0' as u32) as u8;
        assert(sub@.drop_last() =~= sub@.subrange(0, 1));
        x * 10 + y
    }
}


/// Whether two strings hold the same characters.
pub fn same_text(a: &str, b: &str) -> (r: bool)
    ensures
        r == (a@ == b@),
{
    let n = a.unicode_len();
    if n != b.unicode_len() {
        return false;
    }
    let mut i: usize = 0;
    while i < n
        invariant
            i <= n,
            n == a@.len(),
            n == b@.len(),
            forall|j: int| 0 <= j < i ==> a@[j] == b@[j],
        decreases n - i,
    {
        if a.get_char(i) != b.get_char(i) {
            return false;
        }
        i = i + 1;
    }
    assert(a@ =~= b@);
    true
}

/// Whether `s` begins with `prefix`.
pub fn starts_with(s: &str, prefix: &str) -> (r: bool)
    ensures
        r == (prefix@.len() <= s@.len() && s@.subrange(0, prefix@.len() as int) == prefix@),
{
    let n = prefix.unicode_len();
    if n > s.unicode_len() {
        return false;
    }
    let mut i: usize = 0;
    while i < n
        invariant
            i <= n <= s@.len(),
            n == prefix@.len(),
            forall|j: int| 0 <= j < i ==> s@[j] == prefix@[j],
        decreases n - i,
    {
        if s.get_char(i) != prefix.get_char(i) {
            assert(s@.subrange(0, n as int)[i as int] != prefix@[i as int]);
            return false;
        }
        i = i + 1;
    }
    assert(s@.subrange(0, n as int) =~= prefix@);
    true
}

/// The last position at or before `j` that does not follow a space.
pub open spec fn skip_spaces_back(s: Seq<char>, j: int) -> int
    decreases j,
{
    if 0 < j <= s.len() && is_space(s[j - 1]) {
        skip_spaces_back(s, j - 1)
    } else {
        j
    }
}

pub fn spaces_back(s: &str, j: usize) -> (r: usize)
    requires
        j <= s@.len(),
    ensures
        r as int == skip_spaces_back(s@, j as int),
        r <= j,
{
    let mut k = j;
    while k > 0 && space(s.get_char(k - 1))
        invariant
            k <= j <= s@.len(),
            skip_spaces_back(s@, k as int) == skip_spaces_back(s@, j as int),
        decreases k,
    {
        k = k - 1;
    }
    k
}

/// Whether `pat` occurs in `s` at position `i`.
pub fn starts_at(s: &str, i: usize, pat: &str) -> (r: bool)
    requires
        i <= s@.len(),
    ensures
        r == (i + pat@.len() <= s@.len() && s@.subrange(i as int, i + pat@.len()) == pat@),
{
    let n = s.unicode_len();
    let m = pat.unicode_len();
    if m > n - i {
        return false;
    }
    let mut k: usize = 0;
    while k < m
        invariant
            k <= m,
            m == pat@.len(),
            n == s@.len(),
            i + m <= n,
            forall|j: int| 0 <= j < k ==> s@[i + j] == pat@[j],
        decreases m - k,
    {
        if s.get_char(i + k) != pat.get_char(k) {
            assert(s@.subrange(i as int, i + m)[k as int] != pat@[k as int]);
            return false;
        }
        k = k + 1;
    }
    assert(s@.subrange(i as int, i + m) =~= pat@);
    true
}


pub proof fn lemma_decimal_nonempty(n: nat)
    ensures
        decimal(n).len() >= 1,
    decreases n,
{
    if n >= 10 {
        lemma_decimal_nonempty(n / 10);
    }
}

} // verus!
