//! Weekly schedules: period strings `D[-D]/HH:MM-HH:MM`, the per-weekday lists they
//! build, and whether a moment of the week falls inside them.
use vstd::prelude::*;

use crate::text::{
    digit_value, digits_end, digits_to_u64, digits_value, is_digit, small_number, lemma_skip_digits,
    lemma_skip_spaces, skip_digits, skip_spaces, spaces_end,
};

verus! {

/// A time of day.
#[derive(Debug, Clone, Copy, PartialEq, Eq, Structural)]
pub struct Time {
    pub hour: u8,
    pub minute: u8,
}

/// A closed interval of a day, `start` and `end` both included.
#[derive(Debug, Clone, Copy, PartialEq, Eq, Structural)]
pub struct Period {
    pub start: Time,
    pub end: Time,
}

/// A moment of the week as the local wall clock shows it; weekday 0 is Sunday.
#[derive(Debug, Clone, Copy, PartialEq, Eq, Structural)]
pub struct Clock {
    pub weekday: u8,
    pub hour: u8,
    pub minute: u8,
}

/// Why a list of period strings was refused. The index is that of the offending string.
#[derive(Debug, Clone, Copy, PartialEq, Eq, Structural)]
pub enum PeriodError {
    InvalidSpec(usize),
    InvalidDays(usize),
    InvalidHour(usize, u8),
    InvalidMinute(usize, u8),
    InvalidTimes(usize),
    Overlap,
}

/// `a` comes strictly before `b`: hours first, then minutes.
pub open spec fn before(a: Time, b: Time) -> bool {
    a.hour < b.hour || (a.hour == b.hour && a.minute < b.minute)
}

impl Time {
    /// Whether `self` comes strictly before `other`.
    pub fn is_before(&self, other: &Time) -> (r: bool)
        ensures
            r == before(*self, *other),
    {
        self.hour < other.hour || (self.hour == other.hour && self.minute < other.minute)
    }
}

impl Clock {
    pub open spec fn time(self) -> Time {
        Time { hour: self.hour, minute: self.minute }
    }

    pub open spec fn valid(self) -> bool {
        self.weekday < 7 && self.hour < 24 && self.minute < 60
    }
}

// ----- the grammar of a period string -----
pub open spec fn is_day_char(c: char) -> bool {
    '1' <= c && c <= '7'
}

/// `\s*[1-7](\s*-\s*[1-7])?` from the start of `s`: the two days and the position after them.
pub open spec fn days_fields(s: Seq<char>) -> Option<(nat, nat, int)> {
    let a = skip_spaces(s, 0);
    if !(a < s.len() && is_day_char(s[a])) {
        None
    } else {
        let b = skip_spaces(s, a + 1);
        if b < s.len() && s[b] == '-' {
            let e = skip_spaces(s, b + 1);
            if e < s.len() && is_day_char(s[e]) {
                Some((digit_value(s[a]), digit_value(s[e]), e + 1))
            } else {
                None
            }
        } else {
            Some((digit_value(s[a]), digit_value(s[a]), a + 1))
        }
    }
}

/// `\s*\d{1,2}\s*:\s*\d{2}` from position `i`: hour, minute and the position after them.
pub open spec fn time_fields(s: Seq<char>, i: int) -> Option<(nat, nat, int)> {
    let h0 = skip_spaces(s, i);
    let h1 = skip_digits(s, h0);
    let c = skip_spaces(s, h1);
    let m0 = skip_spaces(s, c + 1);
    let m1 = skip_digits(s, m0);
    if 1 <= h1 - h0 <= 2 && c < s.len() && s[c] == ':' && m1 - m0 == 2 {
        Some((digits_value(s.subrange(h0, h1)), digits_value(s.subrange(m0, m1)), m1))
    } else {
        None
    }
}

/// The fields of a period string that matches
/// `^\s*[1-7](\s*-\s*[1-7])?\s*/\s*\d{1,2}\s*:\s*\d{2}\s*-\s*\d{1,2}\s*:\s*\d{2}\s*$`:
/// first day, last day, start hour, start minute, end hour, end minute.
pub open spec fn period_fields(s: Seq<char>) -> Option<(nat, nat, nat, nat, nat, nat)> {
    match days_fields(s) {
        None => None,
        Some((d1, d2, p)) => {
            let q = skip_spaces(s, p);
            if !(q < s.len() && s[q] == '/') {
                None
            } else {
                match time_fields(s, q + 1) {
                    None => None,
                    Some((h1, m1, r)) => {
                        let t = skip_spaces(s, r);
                        if !(t < s.len() && s[t] == '-') {
                            None
                        } else {
                            match time_fields(s, t + 1) {
                                None => None,
                                Some((h2, m2, u)) => {
                                    if skip_spaces(s, u) == s.len() {
                                        Some((d1, d2, h1, m1, h2, m2))
                                    } else {
                                        None
                                    }
                                },
                            }
                        }
                    },
                }
            }
        },
    }
}

/// One period string checked: its first and last day (1 is Monday, 7 is Sunday) and
/// its interval, or the first rule it breaks.
pub open spec fn check_period(s: Seq<char>, index: usize) -> Result<(u8, u8, Period), PeriodError> {
    match period_fields(s) {
        None => Err(PeriodError::InvalidSpec(index)),
        Some((d1, d2, h1, m1, h2, m2)) => {
            if d2 < d1 {
                Err(PeriodError::InvalidDays(index))
            } else if h1 > 24 {
                Err(PeriodError::InvalidHour(index, h1 as u8))
            } else if h2 > 24 {
                Err(PeriodError::InvalidHour(index, h2 as u8))
            } else if m1 > 59 {
                Err(PeriodError::InvalidMinute(index, m1 as u8))
            } else if m2 > 59 {
                Err(PeriodError::InvalidMinute(index, m2 as u8))
            } else {
                let p = Period {
                    start: Time { hour: h1 as u8, minute: m1 as u8 },
                    end: Time { hour: h2 as u8, minute: m2 as u8 },
                };
                if before(p.end, p.start) {
                    Err(PeriodError::InvalidTimes(index))
                } else {
                    Ok((d1 as u8, d2 as u8, p))
                }
            }
        },
    }
}

/// The first `n` strings checked in order: their entries, or the error of the first bad one.
pub open spec fn check_prefix(strs: Seq<Seq<char>>, n: int) -> Result<Seq<(u8, u8, Period)>, PeriodError>
    decreases n,
{
    if n <= 0 {
        Ok(Seq::empty())
    } else {
        match check_prefix(strs, n - 1) {
            Err(e) => Err(e),
            Ok(es) => match check_period(strs[n - 1], (n - 1) as usize) {
                Err(e) => Err(e),
                Ok(x) => Ok(es.push(x)),
            },
        }
    }
}

/// Whether the days `d1..=d2` (Monday 1 .. Sunday 7) include weekday `w` (Sunday 0 ..
/// Saturday 6): day `d` is weekday `d % 7`.
pub open spec fn covers(d1: u8, d2: u8, w: int) -> bool {
    if w == 0 {
        d1 <= 7 <= d2
    } else {
        1 <= w <= 6 && d1 <= w <= d2
    }
}

/// `s` with `p` inserted after every element whose start is not after `p`'s: a stable
/// insertion by start.
pub open spec fn sorted_insert(s: Seq<Period>, p: Period) -> Seq<Period>
    decreases s.len(),
{
    if s.len() == 0 {
        seq![p]
    } else if !before(p.start, s.last().start) {
        s.push(p)
    } else {
        sorted_insert(s.drop_last(), p).push(s.last())
    }
}

/// The periods of the first `n` entries that cover weekday `w`, sorted stably by start.
pub open spec fn day_list(es: Seq<(u8, u8, Period)>, n: int, w: int) -> Seq<Period>
    decreases n,
{
    if n <= 0 {
        Seq::empty()
    } else {
        let l = day_list(es, n - 1, w);
        if covers(es[n - 1].0, es[n - 1].1, w) {
            sorted_insert(l, es[n - 1].2)
        } else {
            l
        }
    }
}

/// Each period ends strictly before the next one starts.
pub open spec fn chained(s: Seq<Period>) -> bool {
    forall|i: int| 0 < i < s.len() ==> before(#[trigger] s[i - 1].end, s[i].start)
}

pub open spec fn strs_view(v: Seq<String>) -> Seq<Seq<char>> {
    v.map_values(|s: String| s@)
}

pub open spec fn week_view(v: Seq<Vec<Period>>) -> Seq<Seq<Period>> {
    v.map_values(|d: Vec<Period>| d@)
}

/// What a list of period strings means: for each weekday, Sunday first, its periods
/// sorted by start; or why the list is refused.
pub open spec fn parse_week(strs: Seq<Seq<char>>) -> Result<Seq<Seq<Period>>, PeriodError> {
    match check_prefix(strs, strs.len() as int) {
        Err(e) => Err(e),
        Ok(es) => {
            let days = Seq::new(7, |w: int| day_list(es, es.len() as int, w));
            if forall|w: int| 0 <= w < 7 ==> chained(#[trigger] days[w]) {
                Ok(days)
            } else {
                Err(PeriodError::Overlap)
            }
        },
    }
}

/// A day's list in the form a schedule keeps it.
pub open spec fn day_wf(s: Seq<Period>) -> bool {
    &&& forall|i: int| 0 <= i < s.len() ==> !before(#[trigger] s[i].end, s[i].start)
    &&& forall|i: int, j: int|
        0 <= i < j < s.len() ==> !before(#[trigger] s[j].start, #[trigger] s[i].start)
    &&& forall|i: int, j: int|
        0 <= i < j < s.len() ==> before(#[trigger] s[i].end, #[trigger] s[j].start)
}

/// A weekly schedule: seven days, each well formed.
pub open spec fn week_wf(w: Seq<Seq<Period>>) -> bool {
    w.len() == 7 && forall|d: int| 0 <= d < 7 ==> day_wf(#[trigger] w[d])
}

/// Whether scanning `day` in order, stopping at the first period that starts after `t`,
/// finds a period that holds `t`.
pub open spec fn scan_hits(day: Seq<Period>, t: Time) -> bool {
    exists|i: int| #[trigger] scan_hit_at(day, t, i)
}

/// The scan reaches period `i` of `day`, and it holds `t`.
pub open spec fn scan_hit_at(day: Seq<Period>, t: Time, i: int) -> bool {
    &&& 0 <= i < day.len()
    &&& forall|j: int| 0 <= j < i ==> !before(t, #[trigger] day[j].start)
    &&& !before(t, day[i].start)
    &&& !before(day[i].end, t)
}

/// Whether some period of `day` holds `t`.
pub open spec fn day_contains(day: Seq<Period>, t: Time) -> bool {
    exists|i: int| 0 <= i < day.len() && !before(t, #[trigger] day[i].start) && !before(day[i].end, t)
}

pub open spec fn sorted_by_start(day: Seq<Period>) -> bool {
    forall|i: int, j: int|
        0 <= i < j < day.len() ==> !before(#[trigger] day[j].start, #[trigger] day[i].start)
}

// ----- parsing -----
fn day_char(c: char) -> (r: bool)
    ensures
        r == is_day_char(c),
{
    '1' <= c && c <= '7'
}

/// `\s*\d{1,2}\s*:\s*\d{2}` at position `i` of `s`.
fn parse_time_fields(s: &str, i: usize) -> (r: Option<(u8, u8, usize)>)
    requires
        i <= s@.len(),
    ensures
        match r {
            None => time_fields(s@, i as int) is None,
            Some((h, m, e)) => time_fields(s@, i as int) == Some((h as nat, m as nat, e as int))
                && e <= s@.len(),
        },
{
    let n = s.unicode_len();
    let h0 = spaces_end(s, i);
    proof {
        lemma_skip_spaces(s@, i as int);
    }
    let h1 = digits_end(s, h0);
    proof {
        lemma_skip_digits(s@, h0 as int);
    }
    let c = spaces_end(s, h1);
    proof {
        lemma_skip_spaces(s@, h1 as int);
    }
    if !(h1 > h0 && h1 - h0 <= 2 && c < n && s.get_char(c) == ':') {
        return None;
    }
    let m0 = spaces_end(s, c + 1);
    proof {
        lemma_skip_spaces(s@, c + 1);
    }
    let m1 = digits_end(s, m0);
    proof {
        lemma_skip_digits(s@, m0 as int);
    }
    if m1 - m0 != 2 {
        return None;
    }
    let h = small_number(s, h0, h1);
    let m = small_number(s, m0, m1);
    Some((h, m, m1))
}

/// Checks one period string; `index` is its place in the list, for the error.
pub fn parse_period(s: &str, index: usize) -> (r: Result<(u8, u8, Period), PeriodError>)
    ensures
        r == check_period(s@, index),
{
    let n = s.unicode_len();
    let a = spaces_end(s, 0);
    proof {
        lemma_skip_spaces(s@, 0);
    }
    if !(a < n && day_char(s.get_char(a))) {
        return Err(PeriodError::InvalidSpec(index));
    }
    let d1 = (s.get_char(a) as u32 - '0' as u32) as u8;
    let b = spaces_end(s, a + 1);
    proof {
        lemma_skip_spaces(s@, a + 1);
    }
    let mut d2 = d1;
    let mut p = a + 1;
    if b < n && s.get_char(b) == '-' {
        let e = spaces_end(s, b + 1);
        proof {
            lemma_skip_spaces(s@, b + 1);
        }
        if !(e < n && day_char(s.get_char(e))) {
            return Err(PeriodError::InvalidSpec(index));
        }
        d2 = (s.get_char(e) as u32 - '0' as u32) as u8;
        p = e + 1;
    }
    assert(days_fields(s@) == Some((d1 as nat, d2 as nat, p as int)));
    let q = spaces_end(s, p);
    proof {
        lemma_skip_spaces(s@, p as int);
    }
    if !(q < n && s.get_char(q) == '/') {
        return Err(PeriodError::InvalidSpec(index));
    }
    let (h1, m1, r) = match parse_time_fields(s, q + 1) {
        None => {
            return Err(PeriodError::InvalidSpec(index));
        },
        Some(x) => x,
    };
    let t = spaces_end(s, r);
    proof {
        lemma_skip_spaces(s@, r as int);
    }
    if !(t < n && s.get_char(t) == '-') {
        return Err(PeriodError::InvalidSpec(index));
    }
    let (h2, m2, u) = match parse_time_fields(s, t + 1) {
        None => {
            return Err(PeriodError::InvalidSpec(index));
        },
        Some(x) => x,
    };
    if spaces_end(s, u) != n {
        return Err(PeriodError::InvalidSpec(index));
    }
    assert(period_fields(s@) == Some(
        (d1 as nat, d2 as nat, h1 as nat, m1 as nat, h2 as nat, m2 as nat),
    ));
    if d2 < d1 {
        return Err(PeriodError::InvalidDays(index));
    }
    if h1 > 24 {
        return Err(PeriodError::InvalidHour(index, h1));
    }
    if h2 > 24 {
        return Err(PeriodError::InvalidHour(index, h2));
    }
    if m1 > 59 {
        return Err(PeriodError::InvalidMinute(index, m1));
    }
    if m2 > 59 {
        return Err(PeriodError::InvalidMinute(index, m2));
    }
    let period = Period { start: Time { hour: h1, minute: m1 }, end: Time { hour: h2, minute: m2 } };
    if period.end.is_before(&period.start) {
        return Err(PeriodError::InvalidTimes(index));
    }
    Ok((d1, d2, period))
}

/// Inserts `p` into `day` after every period that does not start after it.
fn insert_by_start(day: &mut Vec<Period>, p: Period)
    ensures
        final(day)@ == sorted_insert(old(day)@, p),
{
    let ghost s = day@;
    let mut k = day.len();
    assert(s.subrange(0, s.len() as int) =~= s);
    assert(s.subrange(s.len() as int, s.len() as int) =~= Seq::<Period>::empty());
    assert(sorted_insert(s, p) =~= sorted_insert(s.subrange(0, k as int), p) + s.subrange(
        k as int,
        s.len() as int,
    ));
    while k > 0 && p.start.is_before(&day[k - 1].start)
        invariant
            k <= s.len(),
            day@ == s,
            sorted_insert(s, p) == sorted_insert(s.subrange(0, k as int), p) + s.subrange(
                k as int,
                s.len() as int,
            ),
        decreases k,
    {
        proof {
            let pre = s.subrange(0, k as int);
            assert(pre.drop_last() =~= s.subrange(0, k - 1));
            assert(pre.last() == s[k - 1]);
            assert(sorted_insert(pre.drop_last(), p).push(s[k - 1]) + s.subrange(
                k as int,
                s.len() as int,
            ) =~= sorted_insert(s.subrange(0, k - 1), p) + s.subrange(k - 1, s.len() as int));
        }
        k = k - 1;
    }
    proof {
        let pre = s.subrange(0, k as int);
        if k == 0 {
            assert(pre =~= Seq::<Period>::empty());
            assert(s.insert(0, p) =~= seq![p] + s.subrange(0, s.len() as int));
        } else {
            assert(pre.last() == s[k - 1]);
            assert(s.insert(k as int, p) =~= pre.push(p) + s.subrange(k as int, s.len() as int));
        }
    }
    day.insert(k, p);
}

/// The list of weekday `w` from the checked entries.
fn build_day(entries: &Vec<(u8, u8, Period)>, w: u8) -> (r: Vec<Period>)
    requires
        w < 7,
    ensures
        r@ == day_list(entries@, entries@.len() as int, w as int),
{
    let mut day: Vec<Period> = Vec::new();
    let mut i: usize = 0;
    while i < entries.len()
        invariant
            i <= entries@.len(),
            w < 7,
            day@ == day_list(entries@, i as int, w as int),
        decreases entries.len() - i,
    {
        let (d1, d2, p) = entries[i];
        let covered = if w == 0 {
            d1 <= 7 && 7 <= d2
        } else {
            d1 <= w && w <= d2
        };
        if covered {
            insert_by_start(&mut day, p);
        }
        i = i + 1;
    }
    day
}

fn is_chained(day: &Vec<Period>) -> (r: bool)
    ensures
        r == chained(day@),
{
    let mut i: usize = 1;
    while i < day.len()
        invariant
            1 <= i,
            forall|j: int| 0 < j < i && j < day@.len() ==> before(#[trigger] day@[j - 1].end, day@[j].start),
        decreases day.len() - i,
    {
        if !day[i - 1].end.is_before(&day[i].start) {
            return false;
        }
        i = i + 1;
    }
    true
}

/// Parses period strings into a weekly schedule: seven lists, Sunday first, each sorted by
/// start. Refuses a malformed string, a day range that runs backwards, an hour above 24, a
/// minute above 59, a period that ends before it starts, and periods that overlap on a day.
pub fn parse_periods(period_strings: &Vec<String>) -> (r: Result<Vec<Vec<Period>>, PeriodError>)
    ensures
        match r {
            Ok(w) => parse_week(strs_view(period_strings@)) == Ok::<Seq<Seq<Period>>, PeriodError>(
                week_view(w@),
            ),
            Err(e) => parse_week(strs_view(period_strings@)) == Err::<Seq<Seq<Period>>, PeriodError>(e),
        },
        r is Ok ==> week_wf(week_view(r->Ok_0@)),
{
    let ghost strs = strs_view(period_strings@);
    let mut entries: Vec<(u8, u8, Period)> = Vec::new();
    let mut i: usize = 0;
    while i < period_strings.len()
        invariant
            i <= period_strings@.len(),
            strs == strs_view(period_strings@),
            check_prefix(strs, i as int) == Ok::<Seq<(u8, u8, Period)>, PeriodError>(entries@),
        decreases period_strings.len() - i,
    {
        assert(strs[i as int] == period_strings@[i as int]@);
        match parse_period(period_strings[i].as_str(), i) {
            Err(e) => {
                proof {
                    lemma_check_prefix_err(strs, i as int + 1, strs.len() as int);
                }
                return Err(e);
            },
            Ok(x) => {
                entries.push(x);
            },
        }
        i = i + 1;
    }
    proof {
        assert(strs.len() == period_strings@.len());
        lemma_check_prefix_ordered(strs, strs.len() as int);
    }
    let ghost days = Seq::new(7, |w: int| day_list(entries@, entries@.len() as int, w));
    let mut week: Vec<Vec<Period>> = Vec::new();
    let mut w: u8 = 0;
    while w < 7
        invariant
            w <= 7,
            week@.len() == w,
            days == Seq::new(7, |w: int| day_list(entries@, entries@.len() as int, w)),
            strs == strs_view(period_strings@),
            check_prefix(strs, strs.len() as int) == Ok::<Seq<(u8, u8, Period)>, PeriodError>(
                entries@,
            ),
            forall|d: int| 0 <= d < w ==> (#[trigger] week@[d])@ == days[d] && chained(days[d]),
        decreases 7 - w,
    {
        let day = build_day(&entries, w);
        if !is_chained(&day) {
            proof {
                assert(strs.len() == period_strings@.len());
                assert(!chained(days[w as int]));
                assert(!(forall|x: int| 0 <= x < 7 ==> chained(#[trigger] days[x])));
            }
            return Err(PeriodError::Overlap);
        }
        week.push(day);
        w = w + 1;
    }
    assert(week_view(week@) =~= days);
    assert(strs.len() == period_strings@.len());
    proof {
        assert forall|d: int| 0 <= d < 7 implies day_wf(#[trigger] days[d]) by {
            lemma_day_list(entries@, entries@.len() as int, d);
            lemma_chained_apart(days[d]);
        }
    }
    Ok(week)
}

// ----- lemmas -----
/// Once a string fails, the outcome of every longer prefix is that failure.
proof fn lemma_check_prefix_err(strs: Seq<Seq<char>>, n: int, m: int)
    requires
        0 <= n <= m,
        check_prefix(strs, n) is Err,
    ensures
        check_prefix(strs, m) == check_prefix(strs, n),
    decreases m - n,
{
    if m > n {
        lemma_check_prefix_err(strs, n, m - 1);
    }
}

pub open spec fn all_ordered(s: Seq<Period>) -> bool {
    forall|i: int| 0 <= i < s.len() ==> !before(#[trigger] s[i].end, s[i].start)
}

proof fn lemma_check_prefix_ordered(strs: Seq<Seq<char>>, n: int)
    requires
        check_prefix(strs, n) is Ok,
    ensures
        forall|i: int|
            0 <= i < check_prefix(strs, n)->Ok_0.len() ==> !before(
                (#[trigger] check_prefix(strs, n)->Ok_0[i]).2.end,
                check_prefix(strs, n)->Ok_0[i].2.start,
            ),
    decreases n,
{
    if n > 0 {
        lemma_check_prefix_ordered(strs, n - 1);
    }
}

/// Inserting keeps a list sorted by start, keeps every period ordered, and keeps every
/// start at or before any common bound.
proof fn lemma_sorted_insert(s: Seq<Period>, p: Period, b: Time)
    ensures
        sorted_insert(s, p).len() == s.len() + 1,
        sorted_by_start(s) ==> sorted_by_start(sorted_insert(s, p)),
        all_ordered(s) && !before(p.end, p.start) ==> all_ordered(sorted_insert(s, p)),
        (forall|i: int| 0 <= i < s.len() ==> !before(b, #[trigger] s[i].start)) && !before(
            b,
            p.start,
        ) ==> (forall|i: int|
            0 <= i < sorted_insert(s, p).len() ==> !before(b, #[trigger] sorted_insert(s, p)[i].start)),
    decreases s.len(),
{
    if s.len() == 0 {
    } else if !before(p.start, s.last().start) {
    } else {
        let t = s.drop_last();
        lemma_sorted_insert(t, p, b);
        lemma_sorted_insert(t, p, s.last().start);
        let r = sorted_insert(t, p);
        assert(sorted_insert(s, p) == r.push(s.last()));
        if sorted_by_start(s) {
            assert(forall|i: int| 0 <= i < t.len() ==> !before(s.last().start, #[trigger] t[i].start)) by {
                assert forall|i: int| 0 <= i < t.len() implies !before(s.last().start, #[trigger] t[i].start) by {
                    assert(t[i] == s[i]);
                    assert(s.last() == s[s.len() - 1]);
                }
            }
            assert(sorted_by_start(t)) by {
                assert forall|i: int, j: int| 0 <= i < j < t.len() implies !before(#[trigger] t[j].start, #[trigger] t[i].start) by {
                    assert(t[i] == s[i] && t[j] == s[j]);
                }
            }
        }
        if all_ordered(s) {
            assert(all_ordered(t)) by {
                assert forall|i: int| 0 <= i < t.len() implies !before(#[trigger] t[i].end, t[i].start) by {
                    assert(t[i] == s[i]);
                }
            }
        }
        if forall|i: int| 0 <= i < s.len() ==> !before(b, #[trigger] s[i].start) {
            assert forall|i: int| 0 <= i < t.len() implies !before(b, #[trigger] t[i].start) by {
                assert(t[i] == s[i]);
            }
            assert(!before(b, s[s.len() - 1].start));
        }
    }
}

proof fn lemma_day_list(es: Seq<(u8, u8, Period)>, n: int, w: int)
    requires
        0 <= n <= es.len(),
        forall|i: int| 0 <= i < es.len() ==> !before((#[trigger] es[i]).2.end, es[i].2.start),
    ensures
        sorted_by_start(day_list(es, n, w)),
        all_ordered(day_list(es, n, w)),
    decreases n,
{
    if n > 0 {
        lemma_day_list(es, n - 1, w);
        let l = day_list(es, n - 1, w);
        lemma_sorted_insert(l, es[n - 1].2, es[n - 1].2.start);
    }
}

/// In a chained list of ordered periods, every period ends before any later one starts.
proof fn lemma_chained_apart(s: Seq<Period>)
    requires
        chained(s),
        all_ordered(s),
        sorted_by_start(s),
    ensures
        day_wf(s),
{
    assert forall|i: int, j: int| 0 <= i < j < s.len() implies before(#[trigger] s[i].end, #[trigger] s[j].start) by {
        lemma_chain_step(s, i, j);
    }
}

proof fn lemma_chain_step(s: Seq<Period>, i: int, j: int)
    requires
        chained(s),
        all_ordered(s),
        0 <= i < j < s.len(),
    ensures
        before(s[i].end, s[j].start),
    decreases j - i,
{
    assert(before(s[j - 1].end, s[j].start));
    if j - 1 > i {
        lemma_chain_step(s, i, j - 1);
        assert(!before(s[j - 1].end, s[j - 1].start));
    }
}

// ----- membership -----
/// Whether `now` falls inside its weekday's periods. The day's list is scanned in order and
/// the scan stops at the first period that starts after `now`; both ends of a period count
/// as inside.
pub fn is_in(periods: &Vec<Vec<Period>>, now: &Clock) -> (r: bool)
    requires
        (now.weekday as int) < periods@.len(),
    ensures
        r == scan_hits(periods@[now.weekday as int]@, now.time()),
        sorted_by_start(periods@[now.weekday as int]@) ==> r == day_contains(
            periods@[now.weekday as int]@,
            now.time(),
        ),
{
    let cur = Time { hour: now.hour, minute: now.minute };
    let day = &periods[now.weekday as usize];
    assert(cur == now.time());
    assert(day@ == periods@[now.weekday as int]@);
    proof {
        lemma_scan_sorted(day@, cur);
    }
    let mut i: usize = 0;
    while i < day.len()
        invariant
            i <= day@.len(),
            cur == now.time(),
            day@ == periods@[now.weekday as int]@,
            forall|j: int| 0 <= j < i ==> #[trigger] scanned_past(day@, cur, j),
        decreases day.len() - i,
    {
        proof {
            lemma_scan_sorted(day@, cur);
        }
        if cur.is_before(&day[i].start) {
            proof {
                assert forall|k: int| !#[trigger] scan_hit_at(day@, cur, k) by {
                    if 0 <= k < i {
                        assert(scanned_past(day@, cur, k));
                    }
                    if k > i {
                        assert(before(cur, day@[i as int].start));
                    }
                }
            }
            return false;
        }
        if !day[i].end.is_before(&cur) {
            assert forall|j: int| 0 <= j < i implies !before(cur, #[trigger] day@[j].start) by {
                assert(scanned_past(day@, cur, j));
            }
            assert(scan_hit_at(day@, cur, i as int));
            return true;
        }
        assert(scanned_past(day@, cur, i as int));
        i = i + 1;
    }
    assert forall|k: int| !#[trigger] scan_hit_at(day@, cur, k) by {
        if 0 <= k < day@.len() {
            assert(scanned_past(day@, cur, k));
        }
    }
    false
}

/// The scan went past period `j`: it starts no later than `t` and ends before it.
pub open spec fn scanned_past(day: Seq<Period>, t: Time, j: int) -> bool {
    !before(t, day[j].start) && before(day[j].end, t)
}

proof fn lemma_scan_sorted(day: Seq<Period>, t: Time)
    ensures
        scan_hits(day, t) ==> day_contains(day, t),
        sorted_by_start(day) && day_contains(day, t) ==> scan_hits(day, t),
{
    if sorted_by_start(day) && day_contains(day, t) {
        let i = choose|i: int| 0 <= i < day.len() && !before(t, #[trigger] day[i].start) && !before(day[i].end, t);
        assert forall|j: int| 0 <= j < i implies !before(t, #[trigger] day[j].start) by {
            assert(!before(day[i].start, day[j].start));
        }
        assert(scan_hit_at(day, t, i));
    }
}

/// In a parsed schedule, the start and the end of every period count as inside it.
pub proof fn lemma_period_ends_inside(week: Seq<Seq<Period>>, d: int, i: int)
    requires
        week_wf(week),
        0 <= d < 7,
        0 <= i < week[d].len(),
    ensures
        scan_hits(week[d], week[d][i].start),
        scan_hits(week[d], week[d][i].end),
{
    let day = week[d];
    assert(day_wf(day));
    assert(!before(day[i].end, day[i].start));
    lemma_scan_sorted(day, day[i].start);
    lemma_scan_sorted(day, day[i].end);
}

/// Relies on time::now: the local wall clock broken down, whose documented ranges are
/// weekday 0..=6 (Sunday first), hour 0..=23 and minute 0..=59. It panics only when the C
/// library cannot convert the present moment.
#[verifier::external_body]
fn local_clock() -> (r: Clock)
    ensures
        r.valid(),
{
    let tm = time::now();
    Clock { weekday: tm.tm_wday as u8, hour: tm.tm_hour as u8, minute: tm.tm_min as u8 }
}

/// Whether the present moment of the local wall clock falls inside the schedule.
pub fn is_now_in(periods: &Vec<Vec<Period>>) -> (r: bool)
    requires
        periods@.len() == 7,
    ensures
        exists|c: Clock| c.valid() && r == scan_hits(periods@[c.weekday as int]@, c.time()),
{
    let now = local_clock();
    is_in(periods, &now)
}

// ----- durations -----
pub open spec fn duration_unit(c: char) -> nat {
    if c == 'm' {
        60
    } else if c == 'h' {
        3600
    } else if c == 'd' {
        86400
    } else {
        0
    }
}

/// The seconds that `s` names when it matches `^([1-9]\d*)([mhd])$`: minutes, hours or days.
pub open spec fn duration_seconds(s: Seq<char>) -> Option<nat> {
    if s.len() >= 2 && '1' <= s[0] && s[0] <= '9' && (forall|k: int|
        0 <= k < s.len() - 1 ==> is_digit(#[trigger] s[k])) && duration_unit(s.last()) > 0 {
        Some(digits_value(s.drop_last()) * duration_unit(s.last()))
    } else {
        None
    }
}

/// Parses a duration such as `30m`, `2h` or `1d` into seconds. A string that does not
/// match, or that names more seconds than an `i64` holds, is refused.
pub fn parse_duration(s: &str) -> (r: Result<i64, String>)
    ensures
        match r {
            Ok(v) => duration_seconds(s@) == Some(v as nat),
            Err(e) => (duration_seconds(s@) is None || duration_seconds(s@)->0 > i64::MAX)
                && e@ == "Invalid time specification: "@ + s@,
        },
{
    let mut error = String::from_str("Invalid time specification: ");
    error.append(s);
    let n = s.unicode_len();
    if n < 2 {
        return Err(error);
    }
    let first = s.get_char(0);
    if !('1' <= first && first <= '9') {
        return Err(error);
    }
    let e = digits_end(s, 0);
    proof {
        lemma_skip_digits(s@, 0);
    }
    if e != n - 1 {
        proof {
            if e < n - 1 {
                assert(!is_digit(s@[e as int]));
            } else {
                assert(is_digit(s@[n - 1]));
            }
        }
        return Err(error);
    }
    let c = s.get_char(n - 1);
    let unit: u64 = if c == 'm' {
        60
    } else if c == 'h' {
        3600
    } else if c == 'd' {
        86400
    } else {
        return Err(error);
    };
    assert(s@.subrange(0, n - 1) =~= s@.drop_last());
    let limit: u64 = 0x7fff_ffff_ffff_ffff / unit;
    match digits_to_u64(s, 0, n - 1, limit) {
        None => {
            proof {
                let v = digits_value(s@.drop_last());
                assert(v * unit > 0x7fff_ffff_ffff_ffffint) by (nonlinear_arith)
                    requires
                        v > limit,
                        limit == 0x7fff_ffff_ffff_ffffu64 / unit,
                        unit > 0,
                ;
            }
            Err(error)
        },
        Some(v) => {
            assert(v * unit <= 0x7fff_ffff_ffff_ffffint) by (nonlinear_arith)
                requires
                    v <= limit,
                    limit == 0x7fff_ffff_ffff_ffffu64 / unit,
                    unit > 0,
            ;
            Ok((v * unit) as i64)
        },
    }
}

} // verus!
