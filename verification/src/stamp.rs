//! Timestamps of log records.
//!
//! The wire format dates its records like `Fri Apr 29 17:25:01 2022`: an
//! abbreviated weekday name, an abbreviated month name, a day, a clock time
//! and a four-digit year, separated by single spaces. Day, hour, minute and
//! second may be written with one or two digits. The grammar is strict on
//! purpose: fields are separated by exactly one space, the year has four
//! digits, and the weekday name must be the day of the week the date
//! actually falls on. A timestamp that does not have this shape, names an
//! impossible calendar day, or puts a clock field out of range, is
//! rejected; the tailer then falls back to the current wall-clock time.

use vstd::prelude::*;

use chrono::Datelike;
use chrono::Timelike;

use crate::parser::{first_pos, lemma_first_pos};

verus! {

/// A parsed wall-clock timestamp. The fields are plain numbers; nothing in
/// the engine computes on them, they ride along with each log record.
#[derive(Clone, Copy, PartialEq, Eq, Structural, Debug)]
pub struct Timestamp {
    pub year: u16,
    pub month: u8,
    pub day: u8,
    pub hour: u8,
    pub minute: u8,
    pub second: u8,
}

pub open spec fn is_leap_year(y: int) -> bool {
    y % 4 == 0 && (y % 100 != 0 || y % 400 == 0)
}

pub open spec fn days_in_month(y: int, m: int) -> int {
    if m == 2 {
        if is_leap_year(y) {
            29
        } else {
            28
        }
    } else if m == 4 || m == 6 || m == 9 || m == 11 {
        30
    } else {
        31
    }
}

impl Timestamp {
    /// A timestamp that names a real calendar day and clock time.
    pub open spec fn valid(self) -> bool {
        &&& 1 <= self.month <= 12
        &&& 1 <= self.day <= days_in_month(self.year as int, self.month as int)
        &&& self.hour < 24
        &&& self.minute < 60
        &&& self.second < 60
    }
}

/// Splits `s` at every occurrence of `c`. Consecutive separators produce
/// empty pieces; the result is never empty.
pub open spec fn split_on(s: Seq<char>, c: char) -> Seq<Seq<char>>
    decreases s.len(),
{
    let j = first_pos(s, c);
    if j >= s.len() {
        seq![s]
    } else {
        seq![s.subrange(0, j as int)] + split_on(s.subrange(j as int + 1, s.len() as int), c)
    }
}

pub open spec fn all_digits(s: Seq<char>) -> bool {
    forall|i: int| 0 <= i < s.len() ==> '0' <= #[trigger] s[i] <= '9'
}

/// Value of a string of decimal digits.
pub open spec fn dec_val(s: Seq<char>) -> int
    decreases s.len(),
{
    if s.len() == 0 {
        0
    } else {
        10 * dec_val(s.drop_last()) + (s.last() as int - '0' as int)
    }
}

pub open spec fn pow10(n: nat) -> int
    decreases n,
{
    if n == 0 {
        1
    } else {
        10 * pow10((n - 1) as nat)
    }
}

pub proof fn lemma_dec_val_bound(s: Seq<char>)
    requires
        all_digits(s),
    ensures
        0 <= dec_val(s) < pow10(s.len()),
    decreases s.len(),
{
    if s.len() > 0 {
        assert(all_digits(s.drop_last()));
        lemma_dec_val_bound(s.drop_last());
    }
}

/// Day of the week named by an abbreviated weekday name, 0 for Sunday
/// through 6 for Saturday; 7 for anything else.
pub open spec fn weekday_num(t: Seq<char>) -> int {
    if t == seq!['S', 'u', 'n'] {
        0
    } else if t == seq!['M', 'o', 'n'] {
        1
    } else if t == seq!['T', 'u', 'e'] {
        2
    } else if t == seq!['W', 'e', 'd'] {
        3
    } else if t == seq!['T', 'h', 'u'] {
        4
    } else if t == seq!['F', 'r', 'i'] {
        5
    } else if t == seq!['S', 'a', 't'] {
        6
    } else {
        7
    }
}

/// The month's term in the day-of-week sum.
pub open spec fn month_code(m: int) -> int {
    if m == 1 {
        0
    } else if m == 2 {
        3
    } else if m == 3 {
        2
    } else if m == 4 {
        5
    } else if m == 5 {
        0
    } else if m == 6 {
        3
    } else if m == 7 {
        5
    } else if m == 8 {
        1
    } else if m == 9 {
        4
    } else if m == 10 {
        6
    } else if m == 11 {
        2
    } else {
        4
    }
}

/// Day of the week of a calendar date, 0 for Sunday through 6 for
/// Saturday, for years from 1 on.
pub open spec fn day_of_week(y: int, m: int, d: int) -> int {
    let yy = if m < 3 {
        y - 1
    } else {
        y
    };
    (yy + yy / 4 - yy / 100 + yy / 400 + month_code(m) + d) % 7
}

/// Month number named by an abbreviated month name; 0 for anything else.
pub open spec fn month_num(t: Seq<char>) -> int {
    if t == seq!['J', 'a', 'n'] {
        1
    } else if t == seq!['F', 'e', 'b'] {
        2
    } else if t == seq!['M', 'a', 'r'] {
        3
    } else if t == seq!['A', 'p', 'r'] {
        4
    } else if t == seq!['M', 'a', 'y'] {
        5
    } else if t == seq!['J', 'u', 'n'] {
        6
    } else if t == seq!['J', 'u', 'l'] {
        7
    } else if t == seq!['A', 'u', 'g'] {
        8
    } else if t == seq!['S', 'e', 'p'] {
        9
    } else if t == seq!['O', 'c', 't'] {
        10
    } else if t == seq!['N', 'o', 'v'] {
        11
    } else if t == seq!['D', 'e', 'c'] {
        12
    } else {
        0
    }
}

pub open spec fn num_tok_ok(t: Seq<char>, most: int) -> bool {
    1 <= t.len() <= most && all_digits(t)
}

/// Whether `s` is a well-formed timestamp.
pub open spec fn stamp_parses(s: Seq<char>) -> bool {
    let t = split_on(s, ' ');
    &&& t.len() == 5
    &&& 1 <= dec_val(t[4])
    &&& weekday_num(t[0]) == day_of_week(dec_val(t[4]), month_num(t[1]), dec_val(t[2]))
    &&& month_num(t[1]) != 0
    &&& num_tok_ok(t[2], 2)
    &&& {
        let h = split_on(t[3], ':');
        &&& h.len() == 3
        &&& num_tok_ok(h[0], 2)
        &&& num_tok_ok(h[1], 2)
        &&& num_tok_ok(h[2], 2)
        &&& dec_val(h[0]) < 24
        &&& dec_val(h[1]) < 60
        &&& dec_val(h[2]) < 60
    }
    &&& t[4].len() == 4
    &&& all_digits(t[4])
    &&& 1 <= dec_val(t[2]) <= days_in_month(dec_val(t[4]), month_num(t[1]))
}

/// The timestamp a well-formed string names.
pub open spec fn stamp_value(s: Seq<char>) -> Timestamp {
    let t = split_on(s, ' ');
    let h = split_on(t[3], ':');
    Timestamp {
        year: dec_val(t[4]) as u16,
        month: month_num(t[1]) as u8,
        day: dec_val(t[2]) as u8,
        hour: dec_val(h[0]) as u8,
        minute: dec_val(h[1]) as u8,
        second: dec_val(h[2]) as u8,
    }
}

/// The pieces of `s@` split at `c`, as index ranges into `s@`.
pub fn split_idx(s: &str, c: char) -> (r: Vec<(usize, usize)>)
    ensures
        r@.len() == split_on(s@, c).len(),
        forall|i: int|
            0 <= i < r@.len() ==> {
                &&& #[trigger] r@[i].0 <= r@[i].1 <= s@.len()
                &&& s@.subrange(r@[i].0 as int, r@[i].1 as int) == split_on(s@, c)[i]
            },
{
    let n = s.unicode_len();
    let mut r: Vec<(usize, usize)> = Vec::new();
    let mut start: usize = 0;
    proof {
        assert(s@.subrange(0, n as int) =~= s@);
    }
    loop
        invariant_except_break
            start <= n,
            n == s@.len(),
            split_on(s@, c).len() == r@.len() + split_on(s@.subrange(start as int, n as int), c).len(),
            forall|i: int|
                0 <= i < r@.len() ==> {
                    &&& #[trigger] r@[i].0 <= r@[i].1 <= s@.len()
                    &&& s@.subrange(r@[i].0 as int, r@[i].1 as int) == split_on(s@, c)[i]
                },
            forall|k: int|
                0 <= k < split_on(s@.subrange(start as int, n as int), c).len()
                    ==> split_on(s@.subrange(start as int, n as int), c)[k] == #[trigger] split_on(
                    s@,
                    c,
                )[r@.len() + k],
        ensures
            r@.len() == split_on(s@, c).len(),
            forall|i: int|
                0 <= i < r@.len() ==> {
                    &&& #[trigger] r@[i].0 <= r@[i].1 <= s@.len()
                    &&& s@.subrange(r@[i].0 as int, r@[i].1 as int) == split_on(s@, c)[i]
                },
        decreases n - start + 1,
    {
        let ghost suffix = s@.subrange(start as int, n as int);
        let mut j: usize = start;
        while j < n && s.get_char(j) != c
            invariant
                start <= j <= n,
                n == s@.len(),
                forall|i: int| start <= i < j ==> s@[i] != c,
            decreases n - j,
        {
            j += 1;
        }
        proof {
            lemma_first_pos(suffix, c);
            let fp = first_pos(suffix, c) as int;
            assert forall|i: int| start <= i < j implies #[trigger] suffix[i - start] != c by {}
            if j < n {
                assert(suffix[j - start] == c);
                assert(fp == j - start) by {
                    if fp < j - start {
                        assert(suffix[fp] != c);
                    } else if fp > j - start {
                        assert(suffix[j - start] != c);
                    }
                }
            } else {
                assert(fp == j - start) by {
                    if fp < j - start {
                        assert(suffix[fp] == c);
                        assert(suffix[fp] != c);
                    }
                }
            }
            assert(suffix.subrange(0, j - start) =~= s@.subrange(start as int, j as int));
        }
        let ghost old_len = r@.len() as int;
        r.push((start, j));
        if j == n {
            proof {
                assert(split_on(suffix, c) =~= seq![suffix]);
                assert(split_on(suffix, c)[0] == split_on(s@, c)[old_len + 0]);
                assert(s@.subrange(start as int, j as int) =~= suffix);
            }
            break;
        }
        proof {
            let tail = suffix.subrange(j - start + 1, suffix.len() as int);
            assert(split_on(suffix, c) =~= seq![suffix.subrange(0, j - start)] + split_on(tail, c));
            assert(tail =~= s@.subrange(j as int + 1, n as int));
            assert(split_on(suffix, c)[0] == split_on(s@, c)[old_len + 0]);
            assert(s@.subrange(start as int, j as int) =~= suffix.subrange(0, j - start));
            assert forall|k: int| 0 <= k < split_on(tail, c).len() implies split_on(tail, c)[k]
                == #[trigger] split_on(s@, c)[old_len + 1 + k] by {
                assert(split_on(suffix, c)[k + 1] == split_on(tail, c)[k]);
                assert(split_on(suffix, c)[k + 1] == split_on(s@, c)[old_len + (k + 1)]);
            }
        }
        start = j + 1;
    }
    r
}

/// Value of a token of at most `most` decimal digits; `None` when the token
/// is empty, too long, or holds a non-digit.
fn parse_dec(tok: &str, most: usize) -> (r: Option<u16>)
    requires
        1 <= most <= 4,
    ensures
        r is Some <==> num_tok_ok(tok@, most as int),
        r is Some ==> r.unwrap() as int == dec_val(tok@),
{
    let n = tok.unicode_len();
    if n < 1 || n > most {
        return None;
    }
    let mut val: u16 = 0;
    let mut i: usize = 0;
    while i < n
        invariant
            i <= n,
            n == tok@.len(),
            n <= 4,
            all_digits(tok@.take(i as int)),
            val as int == dec_val(tok@.take(i as int)),
        decreases n - i,
    {
        let ch = tok.get_char(i);
        if ch < '0' || ch > '9' {
            return None;
        }
        let d: u32 = (ch as u32) - ('0' as u32);
        proof {
            lemma_dec_val_bound(tok@.take(i as int));
            assert(pow10(3) == 1000) by {
                reveal_with_fuel(pow10, 5);
            }
            assert(i <= 3);
            assert(pow10(i as nat) <= 1000) by {
                reveal_with_fuel(pow10, 5);
            }
            assert(tok@.take(i as int + 1).drop_last() =~= tok@.take(i as int));
            assert(all_digits(tok@.take(i as int + 1)));
        }
        val = val * 10 + (d as u16);
        i += 1;
    }
    proof {
        assert(tok@.take(n as int) =~= tok@);
    }
    Some(val)
}

/// Day number named by a weekday token; 7 for anything that is not a
/// weekday name.
fn weekday_token(t: &str) -> (r: u8)
    ensures
        r as int == weekday_num(t@),
{
    if t.unicode_len() != 3 {
        return 7;
    }
    let c0 = t.get_char(0);
    let c1 = t.get_char(1);
    let c2 = t.get_char(2);
    proof {
        assert(t@ =~= seq![c0, c1, c2]);
    }
    if c0 == 'S' && c1 == 'u' && c2 == 'n' {
        0
    } else if c0 == 'M' && c1 == 'o' && c2 == 'n' {
        1
    } else if c0 == 'T' && c1 == 'u' && c2 == 'e' {
        2
    } else if c0 == 'W' && c1 == 'e' && c2 == 'd' {
        3
    } else if c0 == 'T' && c1 == 'h' && c2 == 'u' {
        4
    } else if c0 == 'F' && c1 == 'r' && c2 == 'i' {
        5
    } else if c0 == 'S' && c1 == 'a' && c2 == 't' {
        6
    } else {
        7
    }
}

/// The month's term in the day-of-week sum.
fn month_code_x(m: u8) -> (r: u8)
    requires
        1 <= m <= 12,
    ensures
        r as int == month_code(m as int),
{
    if m == 1 {
        0
    } else if m == 2 {
        3
    } else if m == 3 {
        2
    } else if m == 4 {
        5
    } else if m == 5 {
        0
    } else if m == 6 {
        3
    } else if m == 7 {
        5
    } else if m == 8 {
        1
    } else if m == 9 {
        4
    } else if m == 10 {
        6
    } else if m == 11 {
        2
    } else {
        4
    }
}

/// Day of the week of a calendar date.
fn day_of_week_x(y: u16, m: u8, d: u8) -> (r: u8)
    requires
        1 <= y,
        1 <= m <= 12,
        1 <= d <= 31,
    ensures
        r as int == day_of_week(y as int, m as int, d as int),
{
    let yy: u32 = if m < 3 {
        (y - 1) as u32
    } else {
        y as u32
    };
    let code = month_code_x(m);
    let total: u32 = yy + yy / 4 + yy / 400 + code as u32 + d as u32;
    ((total - yy / 100) % 7) as u8
}

/// Month number named by a token; 0 for anything that is not a month name.
fn month_token(t: &str) -> (m: u8)
    ensures
        m as int == month_num(t@),
{
    if t.unicode_len() != 3 {
        return 0;
    }
    let c0 = t.get_char(0);
    let c1 = t.get_char(1);
    let c2 = t.get_char(2);
    proof {
        assert(t@ =~= seq![c0, c1, c2]);
    }
    if c0 == 'J' && c1 == 'a' && c2 == 'n' {
        1
    } else if c0 == 'F' && c1 == 'e' && c2 == 'b' {
        2
    } else if c0 == 'M' && c1 == 'a' && c2 == 'r' {
        3
    } else if c0 == 'A' && c1 == 'p' && c2 == 'r' {
        4
    } else if c0 == 'M' && c1 == 'a' && c2 == 'y' {
        5
    } else if c0 == 'J' && c1 == 'u' && c2 == 'n' {
        6
    } else if c0 == 'J' && c1 == 'u' && c2 == 'l' {
        7
    } else if c0 == 'A' && c1 == 'u' && c2 == 'g' {
        8
    } else if c0 == 'S' && c1 == 'e' && c2 == 'p' {
        9
    } else if c0 == 'O' && c1 == 'c' && c2 == 't' {
        10
    } else if c0 == 'N' && c1 == 'o' && c2 == 'v' {
        11
    } else if c0 == 'D' && c1 == 'e' && c2 == 'c' {
        12
    } else {
        0
    }
}

/// Number of days in a month of a year.
fn days_in(y: u16, m: u8) -> (d: u8)
    ensures
        d as int == days_in_month(y as int, m as int),
{
    if m == 2 {
        if y % 4 == 0 && (y % 100 != 0 || y % 400 == 0) {
            29
        } else {
            28
        }
    } else if m == 4 || m == 6 || m == 9 || m == 11 {
        30
    } else {
        31
    }
}

/// Parses a wire-format timestamp, or reports that the string is not one.
pub fn parse_timestamp(s: &str) -> (r: Option<Timestamp>)
    ensures
        r is Some <==> stamp_parses(s@),
        r is Some ==> r.unwrap() == stamp_value(s@),
        r is Some ==> r.unwrap().valid(),
{
    let toks = split_idx(s, ' ');
    if toks.len() != 5 {
        return None;
    }
    let p0 = toks[0];
    let p1 = toks[1];
    let p2 = toks[2];
    let p3 = toks[3];
    let p4 = toks[4];
    let t0 = s.substring_char(p0.0, p0.1);
    let wd = weekday_token(t0);
    if wd == 7 {
        return None;
    }
    let t1 = s.substring_char(p1.0, p1.1);
    let month = month_token(t1);
    if month == 0 {
        return None;
    }
    let t2 = s.substring_char(p2.0, p2.1);
    let day = match parse_dec(t2, 2) {
        Some(d) => d,
        None => {
            return None;
        },
    };
    let t3 = s.substring_char(p3.0, p3.1);
    let hms = split_idx(t3, ':');
    if hms.len() != 3 {
        return None;
    }
    let q0 = hms[0];
    let q1 = hms[1];
    let q2 = hms[2];
    let hour = match parse_dec(t3.substring_char(q0.0, q0.1), 2) {
        Some(v) => v,
        None => {
            return None;
        },
    };
    let minute = match parse_dec(t3.substring_char(q1.0, q1.1), 2) {
        Some(v) => v,
        None => {
            return None;
        },
    };
    let second = match parse_dec(t3.substring_char(q2.0, q2.1), 2) {
        Some(v) => v,
        None => {
            return None;
        },
    };
    if hour >= 24 || minute >= 60 || second >= 60 {
        return None;
    }
    let t4 = s.substring_char(p4.0, p4.1);
    if p4.1 - p4.0 != 4 {
        return None;
    }
    let year = match parse_dec(t4, 4) {
        Some(v) => v,
        None => {
            return None;
        },
    };
    if day < 1 || day > days_in(year, month) as u16 {
        return None;
    }
    if year < 1 {
        return None;
    }
    if wd != day_of_week_x(year, month, day as u8) {
        return None;
    }
    Some(
        Timestamp {
            year,
            month: month as u8,
            day: day as u8,
            hour: hour as u8,
            minute: minute as u8,
            second: second as u8,
        },
    )
}

/// Relies on chrono's `Local::now` for the current local wall-clock time,
/// and on chrono's documented field ranges (month 1 to 12, day 1 to 31,
/// hour below 24, minute and second below 60). The clock value itself is
/// outside anyone's control, so nothing more is claimed.
#[verifier::external_body]
pub fn local_now() -> (r: Timestamp)
    ensures
        1 <= r.month <= 12,
        1 <= r.day <= 31,
        r.hour < 24,
        r.minute < 60,
        r.second < 60,
{
    let now = chrono::Local::now().naive_local();
    Timestamp {
        year: now.year() as u16,
        month: now.month() as u8,
        day: now.day() as u8,
        hour: now.hour() as u8,
        minute: now.minute() as u8,
        second: now.second() as u8,
    }
}

} // verus!

