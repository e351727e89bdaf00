use vstd::prelude::*;
use vstd::string::StringSliceAdditionalSpecFns;

use crate::errors::CronosError;

verus! {

/// Years a schedule's year field may name.
pub const YEAR_MIN: u64 = 1970;

pub const YEAR_MAX: u64 = 9999;

/// One field of a schedule: the values `lo, lo + step, lo + 2*step, ...`
/// up to and including `hi`.
#[derive(Clone, Copy, Debug, PartialEq, Eq, Structural)]
pub struct CronTerm {
    pub lo: u64,
    pub hi: u64,
    pub step: u64,
}

/// A parsed cron schedule with seconds resolution: a textual expression has
/// six whitespace-separated fields — second, minute, hour, day of month,
/// month, day of week — or seven, the last then restricting the year.
/// A six-field expression leaves the year unrestricted.
#[derive(Clone, Copy, Debug, PartialEq, Eq, Structural)]
pub struct Schedule {
    pub sec: CronTerm,
    pub min: CronTerm,
    pub hour: CronTerm,
    pub dom: CronTerm,
    pub month: CronTerm,
    pub dow: CronTerm,
    pub year: CronTerm,
}

/// Whether value `v` lies on the term's arithmetic progression.
pub open spec fn term_matches(t: CronTerm, v: int) -> bool {
    &&& t.step > 0
    &&& t.lo <= v <= t.hi
    &&& (v - t.lo) % (t.step as int) == 0
}

/// Gregorian leap-year rule.
pub open spec fn is_leap_year(y: int) -> bool {
    y % 4 == 0 && (y % 100 != 0 || y % 400 == 0)
}

pub open spec fn days_in_year(y: int) -> int {
    if is_leap_year(y) {
        366
    } else {
        365
    }
}

/// Days in month `m` (1 = January .. 12 = December) of year `y`; zero for a
/// month number outside that range.
pub open spec fn days_in_month(y: int, m: int) -> int {
    if m == 1 || m == 3 || m == 5 || m == 7 || m == 8 || m == 10 || m == 12 {
        31
    } else if m == 4 || m == 6 || m == 9 || m == 11 {
        30
    } else if m == 2 {
        if is_leap_year(y) {
            29
        } else {
            28
        }
    } else {
        0
    }
}

/// Walk whole years forward from year `y`: the year that day `d` (counted
/// from the start of `y`) falls in, together with the remaining day of year
/// (0-based).
pub open spec fn year_split(y: int, d: nat) -> (int, nat)
    decreases d,
{
    if d < days_in_year(y) {
        (y, d)
    } else {
        year_split(y + 1, (d - days_in_year(y)) as nat)
    }
}

/// Walk months forward from month `m` of year `y`: the month that day `d`
/// (counted from the start of `m`, 0-based) falls in, together with the
/// remaining 0-based day of month.
pub open spec fn month_split(y: int, m: int, d: nat) -> (int, nat)
    decreases 12 - m,
{
    if m >= 12 || d < days_in_month(y, m) {
        (m, d)
    } else {
        month_split(y, m + 1, (d - days_in_month(y, m)) as nat)
    }
}

/// Calendar decomposition of a timestamp `t` in seconds since
/// 1970-01-01T00:00:00.
pub open spec fn spec_second(t: u64) -> int {
    t as int % 60
}

pub open spec fn spec_minute(t: u64) -> int {
    (t as int / 60) % 60
}

pub open spec fn spec_hour(t: u64) -> int {
    (t as int / 3600) % 24
}

pub open spec fn spec_days(t: u64) -> nat {
    (t as int / 86400) as nat
}

/// Day of week, 0 = Sunday; day 0 of the epoch was a Thursday.
pub open spec fn spec_weekday(t: u64) -> int {
    (spec_days(t) as int + 4) % 7
}

pub open spec fn spec_year(t: u64) -> int {
    year_split(1970, spec_days(t)).0
}

pub open spec fn spec_doy(t: u64) -> nat {
    year_split(1970, spec_days(t)).1
}

pub open spec fn spec_month(t: u64) -> int {
    month_split(spec_year(t), 1, spec_doy(t)).0
}

/// Day of month, 1-based.
pub open spec fn spec_dom(t: u64) -> int {
    month_split(spec_year(t), 1, spec_doy(t)).1 as int + 1
}

/// Whether the schedule fires at timestamp `t`: every field's term matches
/// the corresponding calendar component of `t`.
pub open spec fn sched_matches(s: Schedule, t: u64) -> bool {
    &&& term_matches(s.sec, spec_second(t))
    &&& term_matches(s.min, spec_minute(t))
    &&& term_matches(s.hour, spec_hour(t))
    &&& term_matches(s.dom, spec_dom(t))
    &&& term_matches(s.month, spec_month(t))
    &&& term_matches(s.dow, spec_weekday(t))
    &&& term_matches(s.year, spec_year(t))
}

/// Days from the start of month `m` to the end of year `y`.
pub open spec fn days_rest(y: int, m: int) -> int
    decreases 13 - m,
{
    if m > 12 {
        0
    } else {
        days_in_month(y, m) + days_rest(y, m + 1)
    }
}

proof fn lemma_year_split_bounds(y: int, d: nat)
    ensures
        year_split(y, d).0 >= y,
        year_split(y, d).1 < days_in_year(year_split(y, d).0),
    decreases d,
{
    if d >= days_in_year(y) {
        lemma_year_split_bounds(y + 1, (d - days_in_year(y)) as nat);
    }
}

proof fn lemma_month_split_bounds(y: int, m: int, d: nat)
    requires
        1 <= m <= 12,
        d < days_rest(y, m),
    ensures
        1 <= month_split(y, m, d).0 <= 12,
        month_split(y, m, d).1 < days_in_month(y, month_split(y, m, d).0),
    decreases 12 - m,
{
    if m == 12 {
        assert(days_rest(y, 12) == days_in_month(y, 12)) by {
            reveal_with_fuel(days_rest, 3);
        }
    } else if d >= days_in_month(y, m) {
        lemma_month_split_bounds(y, m + 1, (d - days_in_month(y, m)) as nat);
    }
}

/// The schedule every field of which is a full wildcard: it fires at every
/// second of every representable year.
pub open spec fn wildcard_schedule() -> Schedule {
    Schedule {
        sec: CronTerm { lo: 0, hi: 59, step: 1 },
        min: CronTerm { lo: 0, hi: 59, step: 1 },
        hour: CronTerm { lo: 0, hi: 23, step: 1 },
        dom: CronTerm { lo: 1, hi: 31, step: 1 },
        month: CronTerm { lo: 1, hi: 12, step: 1 },
        dow: CronTerm { lo: 0, hi: 6, step: 1 },
        year: wild_year(),
    }
}

/// Law: the every-second schedule fires at every timestamp up to the last
/// representable year, because every calendar component of a timestamp
/// lies within its field's full range.
pub proof fn lemma_wildcard_matches(t: u64)
    requires
        spec_year(t) <= YEAR_MAX,
    ensures
        sched_matches(wildcard_schedule(), t),
{
    lemma_year_split_bounds(1970, spec_days(t));
    let y = spec_year(t);
    let doy = spec_doy(t);
    assert(days_rest(y, 1) == days_in_year(y)) by {
        reveal_with_fuel(days_rest, 14);
        if is_leap_year(y) {
            assert(days_rest(y, 1) == 366);
        } else {
            assert(days_rest(y, 1) == 365);
        }
    }
    lemma_month_split_bounds(y, 1, doy);
}

fn days_in_year_exec(y: u64) -> (r: u64)
    ensures
        r == days_in_year(y as int),
{
    if y % 4 == 0 && (y % 100 != 0 || y % 400 == 0) {
        366
    } else {
        365
    }
}

fn days_in_month_exec(y: u64, m: u64) -> (r: u64)
    ensures
        r == days_in_month(y as int, m as int),
{
    if m == 1 || m == 3 || m == 5 || m == 7 || m == 8 || m == 10 || m == 12 {
        31
    } else if m == 4 || m == 6 || m == 9 || m == 11 {
        30
    } else if m == 2 {
        if y % 4 == 0 && (y % 100 != 0 || y % 400 == 0) {
            29
        } else {
            28
        }
    } else {
        0
    }
}

/// The calendar components of `t`: second, minute, hour, 1-based day of
/// month, month, day of week (0 = Sunday) and year.
pub fn civil_parts(t: u64) -> (r: (u64, u64, u64, u64, u64, u64, u64))
    ensures
        r.0 == spec_second(t),
        r.1 == spec_minute(t),
        r.2 == spec_hour(t),
        r.3 == spec_dom(t),
        r.4 == spec_month(t),
        r.5 == spec_weekday(t),
        r.6 == spec_year(t),
{
    let sec = t % 60;
    let min = (t / 60) % 60;
    let hour = (t / 3600) % 24;
    let days = t / 86400;
    let dow = (days + 4) % 7;
    let mut y: u64 = 1970;
    let mut d: u64 = days;
    while d >= days_in_year_exec(y)
        invariant
            year_split(1970, days as nat) == year_split(y as int, d as nat),
            d <= days,
            y + d <= 1970 + days,
            days <= u64::MAX / 86400,
        decreases d,
    {
        let n = days_in_year_exec(y);
        d = d - n;
        y = y + 1;
    }
    assert(year_split(y as int, d as nat) == (y as int, d as nat));
    let mut m: u64 = 1;
    while m < 12 && d >= days_in_month_exec(y, m)
        invariant
            1 <= m <= 12,
            d < 366,
            month_split(y as int, 1, spec_doy(t)) == month_split(y as int, m as int, d as nat),
            y == spec_year(t),
        decreases 12 - m,
    {
        let n = days_in_month_exec(y, m);
        d = d - n;
        m = m + 1;
    }
    assert(month_split(y as int, m as int, d as nat) == (m as int, d as nat));
    (sec, min, hour, d + 1, m, dow, y)
}

fn term_matches_exec(t: &CronTerm, v: u64) -> (b: bool)
    ensures
        b == term_matches(*t, v as int),
{
    t.step > 0 && t.lo <= v && v <= t.hi && (v - t.lo) % t.step == 0
}

/// Whether the schedule fires at timestamp `t`.
pub fn schedule_matches(s: &Schedule, t: u64) -> (b: bool)
    ensures
        b == sched_matches(*s, t),
{
    let (sec, min, hour, dom, month, dow, year) = civil_parts(t);
    term_matches_exec(&s.sec, sec) && term_matches_exec(&s.min, min) && term_matches_exec(
        &s.hour,
        hour,
    ) && term_matches_exec(&s.dom, dom) && term_matches_exec(&s.month, month) && term_matches_exec(
        &s.dow,
        dow,
    ) && term_matches_exec(&s.year, year)
}

/// The last timestamp the bounded search covers: `from + horizon`,
/// saturating at the largest representable timestamp.
pub open spec fn search_end(from: u64, horizon: u64) -> u64 {
    if from + horizon > u64::MAX {
        u64::MAX
    } else {
        (from + horizon) as u64
    }
}

/// The earliest timestamp `t` with `from <= t <= from + horizon` at which
/// the schedule fires, or `None` when it fires nowhere in that window.
///
/// Next-occurrence computation is deterministic and reproducible from the
/// same `from` timestamp.
pub fn next_occurrence(s: &Schedule, from: u64, horizon: u64) -> (r: Option<u64>)
    ensures
        r matches Some(t) ==> from <= t <= search_end(from, horizon) && sched_matches(*s, t) && (
        forall|u: u64| from <= u < t ==> !sched_matches(*s, u)),
        r is None ==> forall|u: u64| from <= u <= search_end(from, horizon) ==> !sched_matches(
            *s,
            u,
        ),
{
    let end: u64 = if horizon > u64::MAX - from {
        u64::MAX
    } else {
        from + horizon
    };
    let mut t = from;
    loop
        invariant
            from <= t <= end,
            end == search_end(from, horizon),
            forall|u: u64| from <= u < t ==> !sched_matches(*s, u),
        decreases end - t,
    {
        if schedule_matches(s, t) {
            return Some(t);
        }
        if t == end {
            return None;
        }
        t = t + 1;
    }
}

// --- Textual expression grammar -------------------------------------------
//
// A field is `*`, `N`, `N-M`, or any of those followed by `/S`; numbers have
// at most four digits. Fields are separated by single spaces.

pub open spec fn is_digit(c: u8) -> bool {
    48 <= c <= 57
}

pub open spec fn all_digits(s: Seq<u8>) -> bool {
    forall|i: int| 0 <= i < s.len() ==> is_digit(#[trigger] s[i])
}

/// The value a digit string denotes in decimal notation.
pub open spec fn num_val(s: Seq<u8>) -> int
    decreases s.len(),
{
    if s.len() == 0 {
        0
    } else {
        num_val(s.drop_last()) * 10 + (s.last() - 48)
    }
}

/// A number token: one to four digits.
pub open spec fn is_number(s: Seq<u8>) -> bool {
    1 <= s.len() <= 4 && all_digits(s)
}

pub open spec fn pow10(n: nat) -> int
    decreases n,
{
    if n == 0 {
        1
    } else {
        10 * pow10((n - 1) as nat)
    }
}

/// Index of the first occurrence of `c` in `s`, or -1.
pub open spec fn find_byte(s: Seq<u8>, c: u8) -> int
    decreases s.len(),
{
    if s.len() == 0 {
        -1
    } else if s[0] == c {
        0
    } else {
        let r = find_byte(s.subrange(1, s.len() as int), c);
        if r < 0 {
            -1
        } else {
            r + 1
        }
    }
}

proof fn lemma_find_byte_absent(s: Seq<u8>, c: u8)
    requires
        forall|j: int| 0 <= j < s.len() ==> s[j] != c,
    ensures
        find_byte(s, c) == -1,
    decreases s.len(),
{
    if s.len() > 0 {
        lemma_find_byte_absent(s.subrange(1, s.len() as int), c);
    }
}

proof fn lemma_find_byte_first(s: Seq<u8>, c: u8, i: int)
    requires
        0 <= i < s.len(),
        s[i] == c,
        forall|j: int| 0 <= j < i ==> s[j] != c,
    ensures
        find_byte(s, c) == i,
    decreases s.len(),
{
    if i > 0 {
        let tail = s.subrange(1, s.len() as int);
        assert(forall|j: int| 0 <= j < i - 1 ==> tail[j] != c);
        lemma_find_byte_first(tail, c, i - 1);
    }
}

proof fn lemma_find_byte_lt(s: Seq<u8>, c: u8)
    ensures
        find_byte(s, c) < s.len(),
    decreases s.len(),
{
    if s.len() > 0 && s[0] != c {
        lemma_find_byte_lt(s.subrange(1, s.len() as int), c);
    }
}

#[via_fn]
proof fn split_spaces_decreases(s: Seq<u8>) {
    lemma_find_byte_lt(s, 32);
}

/// The fields of `s`, split on single spaces; consecutive spaces yield
/// empty fields, which no term accepts.
pub open spec fn split_spaces(s: Seq<u8>) -> Seq<Seq<u8>>
    decreases s.len(),
    via split_spaces_decreases
{
    let p = find_byte(s, 32);
    if p < 0 {
        seq![s]
    } else {
        seq![s.subrange(0, p)] + split_spaces(s.subrange(p + 1, s.len() as int))
    }
}

/// Whether field text `s` denotes the inclusive value range `lo ..= hi`.
pub open spec fn range_from(s: Seq<u8>, fmin: int, fmax: int, lo: int, hi: int) -> bool {
    ||| (s.len() == 1 && s[0] == 42 && lo == fmin && hi == fmax)
    ||| (is_number(s) && lo == num_val(s) && hi == lo)
    ||| (exists|q: int|
        0 <= q < s.len() && #[trigger] s[q] == 45 && is_number(s.subrange(0, q)) && is_number(
            s.subrange(q + 1, s.len() as int),
        ) && lo == num_val(s.subrange(0, q)) && hi == num_val(s.subrange(q + 1, s.len() as int)))
}

/// Whether field text `s` denotes term `t` for a field whose values span
/// `fmin ..= fmax`.
pub open spec fn term_from(s: Seq<u8>, fmin: int, fmax: int, t: CronTerm) -> bool {
    &&& fmin <= t.lo <= t.hi <= fmax
    &&& t.step >= 1
    &&& {
        ||| (range_from(s, fmin, fmax, t.lo as int, t.hi as int) && t.step == 1)
        ||| (exists|p: int|
            0 <= p < s.len() && #[trigger] s[p] == 47 && range_from(
                s.subrange(0, p),
                fmin,
                fmax,
                t.lo as int,
                t.hi as int,
            ) && is_number(s.subrange(p + 1, s.len() as int)) && t.step == num_val(
                s.subrange(p + 1, s.len() as int),
            ) && t.step >= 1)
    }
}

/// The wildcard year term a six-field expression implies.
pub open spec fn wild_year() -> CronTerm {
    CronTerm { lo: YEAR_MIN, hi: YEAR_MAX, step: 1 }
}

pub open spec fn fields_from(toks: Seq<Seq<u8>>, c: Schedule) -> bool {
    &&& term_from(toks[0], 0, 59, c.sec)
    &&& term_from(toks[1], 0, 59, c.min)
    &&& term_from(toks[2], 0, 23, c.hour)
    &&& term_from(toks[3], 1, 31, c.dom)
    &&& term_from(toks[4], 1, 12, c.month)
    &&& term_from(toks[5], 0, 6, c.dow)
}

/// Whether expression text `s` denotes schedule `c`.
pub open spec fn schedule_from(s: Seq<u8>, c: Schedule) -> bool {
    let toks = split_spaces(s);
    ||| (toks.len() == 6 && fields_from(toks, c) && c.year == wild_year())
    ||| (toks.len() == 7 && fields_from(toks, c) && term_from(
        toks[6],
        YEAR_MIN as int,
        YEAR_MAX as int,
        c.year,
    ))
}

/// First occurrence of `c` in `v[lo..hi]`, as an absolute index.
fn find_in(v: &Vec<u8>, lo: usize, hi: usize, c: u8) -> (r: Option<usize>)
    requires
        lo <= hi <= v@.len(),
    ensures
        r matches Some(i) ==> lo <= i < hi && v@[i as int] == c && forall|j: int|
            lo <= j < i ==> v@[j] != c,
        r is None ==> forall|j: int| lo <= j < hi ==> v@[j] != c,
{
    let mut i = lo;
    while i < hi
        invariant
            lo <= i <= hi <= v@.len(),
            forall|j: int| lo <= j < i ==> v@[j] != c,
        decreases hi - i,
    {
        if v[i] == c {
            return Some(i);
        }
        i = i + 1;
    }
    None
}

/// Parse `v[lo..hi]` as a number token.
fn parse_num(v: &Vec<u8>, lo: usize, hi: usize) -> (r: Option<u64>)
    requires
        lo <= hi <= v@.len(),
    ensures
        r matches Some(n) ==> is_number(v@.subrange(lo as int, hi as int)) && n == num_val(
            v@.subrange(lo as int, hi as int),
        ),
        r is None ==> !is_number(v@.subrange(lo as int, hi as int)),
{
    if lo == hi || hi - lo > 4 {
        return None;
    }
    let ghost tok = v@.subrange(lo as int, hi as int);
    let mut i = lo;
    let mut acc: u64 = 0;
    proof {
        assert(tok.subrange(0, 0) =~= Seq::<u8>::empty());
    }
    while i < hi
        invariant
            lo <= i <= hi <= v@.len(),
            hi - lo <= 4,
            tok =~= v@.subrange(lo as int, hi as int),
            all_digits(tok.subrange(0, i - lo)),
            acc == num_val(tok.subrange(0, i - lo)),
            acc < pow10((i - lo) as nat),
        decreases hi - i,
    {
        let c = v[i];
        if c < 48 || c > 57 {
            assert(tok[i - lo] == v@[i as int]);
            return None;
        }
        proof {
            reveal_with_fuel(pow10, 6);
            assert(pow10((i - lo) as nat) <= pow10(3)) by {
                if i - lo <= 0 {
                } else if i - lo == 1 {
                } else if i - lo == 2 {
                } else {
                }
            }
            assert(tok.subrange(0, i - lo + 1) =~= tok.subrange(0, i - lo).push(v@[i as int]));
            assert(tok.subrange(0, i - lo + 1).drop_last() =~= tok.subrange(0, i - lo));
        }
        acc = acc * 10 + (c - 48) as u64;
        i = i + 1;
    }
    proof {
        assert(tok.subrange(0, (hi - lo) as int) =~= tok);
    }
    Some(acc)
}

/// Parse `v[lo..hi]` as a value range (`*`, `N` or `N-M`) for a field
/// spanning `fmin ..= fmax`.
fn parse_range(v: &Vec<u8>, lo: usize, hi: usize, fmin: u64, fmax: u64) -> (r: Option<(u64, u64)>)
    requires
        lo <= hi <= v@.len(),
        fmax <= 9999,
    ensures
        r matches Some(b) ==> fmin <= b.0 <= b.1 <= fmax && range_from(
            v@.subrange(lo as int, hi as int),
            fmin as int,
            fmax as int,
            b.0 as int,
            b.1 as int,
        ),
        r is None ==> forall|l: int, h: int|
            !(fmin <= l <= h <= fmax && range_from(
                v@.subrange(lo as int, hi as int),
                fmin as int,
                fmax as int,
                l,
                h,
            )),
{
    let ghost tok = v@.subrange(lo as int, hi as int);
    if hi - lo == 1 && v[lo] == 42 {
        if fmin <= fmax {
            return Some((fmin, fmax));
        } else {
            return None;
        }
    }
    match find_in(v, lo, hi, 45) {
        Some(q) => {
            proof {
                assert(forall|j: int| 0 <= j < q - lo ==> tok[j] != 45);
            }
            let n1 = parse_num(v, lo, q);
            let n2 = parse_num(v, q + 1, hi);
            proof {
                assert(tok.subrange(0, q - lo) =~= v@.subrange(lo as int, q as int));
                assert(tok.subrange(q - lo + 1, tok.len() as int) =~= v@.subrange(
                    q as int + 1,
                    hi as int,
                ));
            }
            let bounds_ok = match (n1, n2) {
                (Some(a), Some(b)) => fmin <= a && a <= b && b <= fmax,
                _ => false,
            };
            match (n1, n2) {
                (Some(a), Some(b)) => {
                    if bounds_ok {
                        assert(tok[q - lo] == 45);
                        return Some((a, b));
                    }
                },
                _ => {},
            }
            proof {
                lemma_range_unique(tok, q - lo);
                assert(tok[q - lo] == 45);
                assert(!is_digit(45));
                assert forall|l: int, h: int|
                    !(fmin <= l <= h <= fmax && range_from(tok, fmin as int, fmax as int, l, h)) by {
                    if fmin <= l <= h <= fmax && range_from(tok, fmin as int, fmax as int, l, h) {
                        if tok.len() == 1 && tok[0] == 42 {
                            assert(q - lo == 0);
                            assert(tok[0] == 45);
                        } else if is_number(tok) && l == num_val(tok) && h == l {
                            assert(!is_digit(tok[q - lo]));
                        } else {
                            let qq = choose|qq: int|
                                0 <= qq < tok.len() && #[trigger] tok[qq] == 45 && is_number(
                                    tok.subrange(0, qq),
                                ) && is_number(tok.subrange(qq + 1, tok.len() as int)) && l
                                    == num_val(tok.subrange(0, qq)) && h == num_val(
                                    tok.subrange(qq + 1, tok.len() as int),
                                );
                            assert(qq == q - lo);
                        }
                    }
                }
            }
            None
        },
        None => {
            // no '-': only the single-number form remains
            match parse_num(v, lo, hi) {
                Some(n) => {
                    if fmin <= n && n <= fmax {
                        return Some((n, n));
                    } else {
                        return None;
                    }
                },
                None => {
                    return None;
                },
            }
        },
    }
}

/// In a field text whose first '-' sits at `q`, no other position can split
/// it into two number tokens, because '-' is not a digit.
proof fn lemma_range_unique(s: Seq<u8>, q: int)
    requires
        0 <= q < s.len(),
        s[q] == 45,
        forall|j: int| 0 <= j < q ==> s[j] != 45,
    ensures
        forall|p: int|
            0 <= p < s.len() && #[trigger] s[p] == 45 && is_number(s.subrange(0, p)) && is_number(
                s.subrange(p + 1, s.len() as int),
            ) ==> p == q,
{
    assert forall|p: int|
        0 <= p < s.len() && #[trigger] s[p] == 45 && is_number(s.subrange(0, p)) && is_number(
            s.subrange(p + 1, s.len() as int),
        ) implies p == q by {
        if p > q {
            assert(s.subrange(0, p)[q] == 45);
            assert(!is_digit(45));
        }
    }
}

/// Same for '/': only the first '/' can split a field into a value range
/// and a step, because a range cannot contain a '/'.
proof fn lemma_step_unique(s: Seq<u8>, p0: int)
    requires
        0 <= p0 < s.len(),
        s[p0] == 47,
        forall|j: int| 0 <= j < p0 ==> s[j] != 47,
    ensures
        forall|p: int, fmin: int, fmax: int, lo: int, hi: int|
            0 <= p < s.len() && #[trigger] s[p] == 47 && #[trigger] range_from(
                s.subrange(0, p),
                fmin,
                fmax,
                lo,
                hi,
            ) ==> p == p0,
{
    assert forall|p: int, fmin: int, fmax: int, lo: int, hi: int|
        0 <= p < s.len() && #[trigger] s[p] == 47 && #[trigger] range_from(
            s.subrange(0, p),
            fmin,
            fmax,
            lo,
            hi,
        ) implies p == p0 by {
        if p > p0 {
            lemma_no_stepless_slash(s.subrange(0, p), p0);
        }
    }
}

/// Parse `v[lo..hi]` as one schedule field term.
fn parse_term(v: &Vec<u8>, lo: usize, hi: usize, fmin: u64, fmax: u64) -> (r: Option<CronTerm>)
    requires
        lo <= hi <= v@.len(),
        fmax <= 9999,
    ensures
        r matches Some(t) ==> term_from(
            v@.subrange(lo as int, hi as int),
            fmin as int,
            fmax as int,
            t,
        ),
        r is None ==> forall|t: CronTerm|
            !term_from(v@.subrange(lo as int, hi as int), fmin as int, fmax as int, t),
{
    let ghost tok = v@.subrange(lo as int, hi as int);
    match find_in(v, lo, hi, 47) {
        Some(p) => {
            proof {
                assert(tok[p - lo] == 47);
                assert(forall|j: int| 0 <= j < p - lo ==> tok[j] != 47);
                lemma_step_unique(tok, p - lo);
            }
            let base = parse_range(v, lo, p, fmin, fmax);
            let step = parse_num(v, p + 1, hi);
            proof {
                assert(tok.subrange(0, p - lo) =~= v@.subrange(lo as int, p as int));
                assert(tok.subrange(p - lo + 1, tok.len() as int) =~= v@.subrange(
                    p as int + 1,
                    hi as int,
                ));
            }
            let parsed: Option<CronTerm> = match (base, step) {
                (Some(b), Some(st)) => if st >= 1 {
                    Some(CronTerm { lo: b.0, hi: b.1, step: st })
                } else {
                    None
                },
                _ => None,
            };
            match parsed {
                Some(t) => {
                    assert(term_from(tok, fmin as int, fmax as int, t)) by {
                        assert(0 <= p - lo < tok.len() && tok[p - lo] == 47 && range_from(
                            tok.subrange(0, p - lo),
                            fmin as int,
                            fmax as int,
                            t.lo as int,
                            t.hi as int,
                        ) && is_number(tok.subrange(p - lo + 1, tok.len() as int)) && t.step
                            == num_val(tok.subrange(p - lo + 1, tok.len() as int)));
                    }
                    Some(t)
                },
                None => {
                    assert forall|t: CronTerm| !term_from(tok, fmin as int, fmax as int, t) by {
                        lemma_no_stepless_slash(tok, p - lo);
                        if term_from(tok, fmin as int, fmax as int, t) {
                            // only the stepped form can hold, and only split at p
                            let q = choose|q: int|
                                0 <= q < tok.len() && #[trigger] tok[q] == 47 && range_from(
                                    tok.subrange(0, q),
                                    fmin as int,
                                    fmax as int,
                                    t.lo as int,
                                    t.hi as int,
                                ) && is_number(tok.subrange(q + 1, tok.len() as int)) && t.step
                                    == num_val(tok.subrange(q + 1, tok.len() as int)) && t.step
                                    >= 1;
                            assert(q == p - lo);
                        }
                    }
                    None
                },
            }
        },
        None => {
            match parse_range(v, lo, hi, fmin, fmax) {
                Some(b) => Some(CronTerm { lo: b.0, hi: b.1, step: 1 }),
                None => {
                    assert forall|t: CronTerm| !term_from(tok, fmin as int, fmax as int, t) by {
                        if range_from(tok, fmin as int, fmax as int, t.lo as int, t.hi as int) {
                        }
                    }
                    None
                },
            }
        },
    }
}

/// A field containing '/' only denotes a term through the stepped form.
proof fn lemma_no_stepless_slash(s: Seq<u8>, p: int)
    requires
        0 <= p < s.len(),
        s[p] == 47,
    ensures
        forall|fmin: int, fmax: int, lo: int, hi: int| !range_from(s, fmin, fmax, lo, hi),
{
    assert forall|fmin: int, fmax: int, lo: int, hi: int| !range_from(s, fmin, fmax, lo, hi) by {
        assert(!is_digit(47));
        if s.len() == 1 && s[0] == 42 {
            assert(s[p] == 42);
        }
        if exists|q: int|
            0 <= q < s.len() && #[trigger] s[q] == 45 && is_number(s.subrange(0, q)) && is_number(
                s.subrange(q + 1, s.len() as int),
            ) {
            let q = choose|q: int|
                0 <= q < s.len() && #[trigger] s[q] == 45 && is_number(s.subrange(0, q))
                    && is_number(s.subrange(q + 1, s.len() as int));
            if p < q {
                assert(s.subrange(0, q)[p] == 47);
            } else if p > q {
                assert(s.subrange(q + 1, s.len() as int)[p - q - 1] == 47);
            }
        }
    }
}

/// A field text denotes at most one value range.
proof fn lemma_range_from_unique(s: Seq<u8>, fmin: int, fmax: int, l1: int, h1: int, l2: int, h2: int)
    requires
        range_from(s, fmin, fmax, l1, h1),
        range_from(s, fmin, fmax, l2, h2),
    ensures
        l1 == l2 && h1 == h2,
{
    assert(!is_digit(42));
    assert(!is_digit(45));
    if exists|q: int|
        0 <= q < s.len() && #[trigger] s[q] == 45 && is_number(s.subrange(0, q)) && is_number(
            s.subrange(q + 1, s.len() as int),
        ) {
        let q = choose|q: int|
            0 <= q < s.len() && #[trigger] s[q] == 45 && is_number(s.subrange(0, q)) && is_number(
                s.subrange(q + 1, s.len() as int),
            );
        // a token with such a split is neither "*" nor a plain number
        if s.len() == 1 && s[0] == 42 {
            assert(s[q] == 42);
        }
        if is_number(s) {
            assert(!is_digit(s[q]));
        }
        let d = first_dash(s, q);
        lemma_range_unique(s, d);
    }
}

/// The first index of a '-' at or before a known occurrence.
proof fn first_dash(s: Seq<u8>, q: int) -> (r: int)
    requires
        0 <= q < s.len(),
        s[q] == 45,
    ensures
        0 <= r < s.len(),
        s[r] == 45,
        forall|j: int| 0 <= j < r ==> s[j] != 45,
    decreases q,
{
    if exists|j: int| 0 <= j < q && #[trigger] s[j] == 45 {
        let j = choose|j: int| 0 <= j < q && #[trigger] s[j] == 45;
        first_dash(s, j)
    } else {
        q
    }
}

/// The first index of a '/' at or before a known occurrence.
proof fn first_slash(s: Seq<u8>, p: int) -> (r: int)
    requires
        0 <= p < s.len(),
        s[p] == 47,
    ensures
        0 <= r < s.len(),
        s[r] == 47,
        forall|j: int| 0 <= j < r ==> s[j] != 47,
    decreases p,
{
    if exists|j: int| 0 <= j < p && #[trigger] s[j] == 47 {
        let j = choose|j: int| 0 <= j < p && #[trigger] s[j] == 47;
        first_slash(s, j)
    } else {
        p
    }
}

/// Law (deterministic parsing): a field text denotes at most one term, so
/// parsing is deterministic and reproducible.
pub proof fn lemma_term_from_unique(s: Seq<u8>, fmin: int, fmax: int, t1: CronTerm, t2: CronTerm)
    requires
        term_from(s, fmin, fmax, t1),
        term_from(s, fmin, fmax, t2),
    ensures
        t1 == t2,
{
    if exists|p: int|
        0 <= p < s.len() && #[trigger] s[p] == 47 && is_number(s.subrange(p + 1, s.len() as int)) {
        let p = choose|p: int|
            0 <= p < s.len() && #[trigger] s[p] == 47 && is_number(
                s.subrange(p + 1, s.len() as int),
            );
        let p0 = first_slash(s, p);
        lemma_no_stepless_slash(s, p0);
        lemma_step_unique(s, p0);
        // both terms use the stepped form, split at p0
        assert forall|tl: int, th: int| !range_from(s, fmin, fmax, tl, th) by {
            lemma_no_stepless_slash(s, p0);
        }
        lemma_range_from_unique(
            s.subrange(0, p0),
            fmin,
            fmax,
            t1.lo as int,
            t1.hi as int,
            t2.lo as int,
            t2.hi as int,
        );
    } else {
        // no step separator: both terms use the plain form with step 1
        lemma_range_from_unique(
            s,
            fmin,
            fmax,
            t1.lo as int,
            t1.hi as int,
            t2.lo as int,
            t2.hi as int,
        );
    }
}

/// Law (deterministic parsing): an expression text denotes at most one
/// schedule.
pub proof fn lemma_schedule_from_unique(s: Seq<u8>, c1: Schedule, c2: Schedule)
    requires
        schedule_from(s, c1),
        schedule_from(s, c2),
    ensures
        c1 == c2,
{
    let toks = split_spaces(s);
    lemma_term_from_unique(toks[0], 0, 59, c1.sec, c2.sec);
    lemma_term_from_unique(toks[1], 0, 59, c1.min, c2.min);
    lemma_term_from_unique(toks[2], 0, 23, c1.hour, c2.hour);
    lemma_term_from_unique(toks[3], 1, 31, c1.dom, c2.dom);
    lemma_term_from_unique(toks[4], 1, 12, c1.month, c2.month);
    lemma_term_from_unique(toks[5], 0, 6, c1.dow, c2.dow);
    if toks.len() == 7 {
        lemma_term_from_unique(toks[6], YEAR_MIN as int, YEAR_MAX as int, c1.year, c2.year);
    }
}

/// The token windows of `v`, split on single spaces.
fn tokenize(v: &Vec<u8>) -> (r: Vec<(usize, usize)>)
    ensures
        r@.map_values(|w: (usize, usize)| v@.subrange(w.0 as int, w.1 as int)) =~= split_spaces(
            v@,
        ),
        forall|i: int| #![trigger r@[i]] 0 <= i < r@.len() ==> r@[i].0 <= r@[i].1 <= v@.len(),
{
    let mut toks: Vec<(usize, usize)> = Vec::new();
    let mut start: usize = 0;
    proof {
        assert(v@.subrange(0, v@.len() as int) =~= v@);
        assert(toks@.map_values(|w: (usize, usize)| v@.subrange(w.0 as int, w.1 as int)) =~= Seq::<
            Seq<u8>,
        >::empty());
    }
    loop
        invariant
            start <= v@.len(),
            forall|i: int| #![trigger toks@[i]] 0 <= i < toks@.len() ==> toks@[i].0 <= toks@[i].1
                <= v@.len(),
            split_spaces(v@) =~= toks@.map_values(
                |w: (usize, usize)| v@.subrange(w.0 as int, w.1 as int),
            ) + split_spaces(v@.subrange(start as int, v@.len() as int)),
        decreases v@.len() - start,
    {
        let ghost rest = v@.subrange(start as int, v@.len() as int);
        let ghost toks0 = toks@;
        match find_in(v, start, v.len(), 32) {
            Some(p) => {
                proof {
                    assert(forall|j: int| 0 <= j < p - start ==> rest[j] != 32);
                    assert(rest[p - start] == 32);
                    lemma_find_byte_first(rest, 32, p - start);
                    assert(rest.subrange(0, p - start) =~= v@.subrange(start as int, p as int));
                    assert(rest.subrange(p - start + 1, rest.len() as int) =~= v@.subrange(
                        p as int + 1,
                        v@.len() as int,
                    ));
                    assert(split_spaces(rest) == seq![v@.subrange(start as int, p as int)]
                        + split_spaces(v@.subrange(p as int + 1, v@.len() as int)));
                }
                toks.push((start, p));
                proof {
                    assert forall|i: int| #![trigger toks@[i]] 0 <= i < toks@.len() implies toks@[i].0
                        <= toks@[i].1 <= v@.len() by {
                        if i < toks0.len() {
                            assert(toks@[i] == toks0[i]);
                        } else {
                            assert(toks@[i] == (start, p));
                        }
                    }
                    assert(toks@.map_values(
                        |w: (usize, usize)| v@.subrange(w.0 as int, w.1 as int),
                    ) =~= toks0.map_values(
                        |w: (usize, usize)| v@.subrange(w.0 as int, w.1 as int),
                    ).push(v@.subrange(start as int, p as int)));
                    assert(toks0.map_values(
                        |w: (usize, usize)| v@.subrange(w.0 as int, w.1 as int),
                    ).push(v@.subrange(start as int, p as int)) + split_spaces(
                        v@.subrange(p as int + 1, v@.len() as int),
                    ) =~= toks0.map_values(|w: (usize, usize)| v@.subrange(w.0 as int, w.1 as int))
                        + split_spaces(rest));
                }
                start = p + 1;
            },
            None => {
                proof {
                    lemma_find_byte_absent(rest, 32);
                    assert(split_spaces(rest) == seq![rest]);
                }
                toks.push((start, v.len()));
                proof {
                    assert forall|i: int| #![trigger toks@[i]] 0 <= i < toks@.len() implies toks@[i].0
                        <= toks@[i].1 <= v@.len() by {
                        if i < toks0.len() {
                            assert(toks@[i] == toks0[i]);
                        } else {
                            assert(toks@[i].0 == start && toks@[i].1 == v@.len());
                        }
                    }
                    assert(toks@.map_values(
                        |w: (usize, usize)| v@.subrange(w.0 as int, w.1 as int),
                    ) =~= toks0.map_values(
                        |w: (usize, usize)| v@.subrange(w.0 as int, w.1 as int),
                    ).push(rest));
                    assert(toks@.map_values(
                        |w: (usize, usize)| v@.subrange(w.0 as int, w.1 as int),
                    ) =~= toks0.map_values(|w: (usize, usize)| v@.subrange(w.0 as int, w.1 as int))
                        + split_spaces(rest));
                }
                return toks;
            },
        }
    }
}

/// Parse a textual cron expression held as UTF-8 bytes.
///
/// Succeeds if and only if the bytes denote a schedule: six or seven
/// space-separated fields, each a term the field's value range accepts.
pub fn parse_schedule(v: &Vec<u8>) -> (r: Result<Schedule, CronosError>)
    ensures
        r matches Ok(c) ==> schedule_from(v@, c),
        r matches Err(e) ==> e == CronosError::ScheduleInvalid && forall|c: Schedule|
            !schedule_from(v@, c),
{
    let toks = tokenize(v);
    let ghost stoks = split_spaces(v@);
    if toks.len() != 6 && toks.len() != 7 {
        return Err(CronosError::ScheduleInvalid);
    }
    let t0 = toks[0];
    let t1 = toks[1];
    let t2 = toks[2];
    let t3 = toks[3];
    let t4 = toks[4];
    let t5 = toks[5];
    let sec = parse_term(v, t0.0, t0.1, 0, 59);
    let min = parse_term(v, t1.0, t1.1, 0, 59);
    let hour = parse_term(v, t2.0, t2.1, 0, 23);
    let dom = parse_term(v, t3.0, t3.1, 1, 31);
    let month = parse_term(v, t4.0, t4.1, 1, 12);
    let dow = parse_term(v, t5.0, t5.1, 0, 6);
    let year = if toks.len() == 7 {
        let t6 = toks[6];
        parse_term(v, t6.0, t6.1, YEAR_MIN, YEAR_MAX)
    } else {
        Some(CronTerm { lo: YEAR_MIN, hi: YEAR_MAX, step: 1 })
    };
    proof {
        assert(stoks[0] == v@.subrange(t0.0 as int, t0.1 as int));
        assert(stoks[1] == v@.subrange(t1.0 as int, t1.1 as int));
        assert(stoks[2] == v@.subrange(t2.0 as int, t2.1 as int));
        assert(stoks[3] == v@.subrange(t3.0 as int, t3.1 as int));
        assert(stoks[4] == v@.subrange(t4.0 as int, t4.1 as int));
        assert(stoks[5] == v@.subrange(t5.0 as int, t5.1 as int));
    }
    match (sec, min, hour, dom, month, dow, year) {
        (Some(sec), Some(min), Some(hour), Some(dom), Some(month), Some(dow), Some(year)) => {
            let c = Schedule { sec, min, hour, dom, month, dow, year };
            Ok(c)
        },
        _ => Err(CronosError::ScheduleInvalid),
    }
}

/// Parse a textual cron expression.
pub fn parse_schedule_str(s: &str) -> (r: Result<Schedule, CronosError>)
    ensures
        r matches Ok(c) ==> schedule_from(s.spec_bytes(), c),
        r matches Err(e) ==> e == CronosError::ScheduleInvalid && forall|c: Schedule|
            !schedule_from(s.spec_bytes(), c),
{
    let bytes = vstd::slice::slice_to_vec(s.as_bytes());
    parse_schedule(&bytes)
}

} // verus!
