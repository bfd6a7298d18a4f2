//! Time as text: `YYYY-MM-DDTHH:MM:SSZ` to seconds since 1970 and back. Only UTC, only seconds,
//! only this one form.

use crate::num;
use crate::text;
use vstd::prelude::*;
use vstd::utf8::{encode_utf8, is_char_boundary};

verus! {

/// `SystemTime::now` of std, as whole seconds since the start of 1970; 0 for a clock set before
/// it. What it returns depends on the machine's clock alone, so nothing is said of it but that
/// it is not negative.
#[verifier::external_body]
fn system_seconds() -> (r: i64)
    ensures
        r >= 0,
{
    match std::time::SystemTime::now().duration_since(std::time::UNIX_EPOCH) {
        Ok(d) => i64::try_from(d.as_secs()).unwrap_or(i64::MAX),
        Err(_) => 0,
    }
}

/// Seconds since the start of 1970, by this machine's clock.
pub fn now_secs() -> (r: i64)
    ensures
        r >= 0,
{
    system_seconds()
}

/// The days from the start of 1970 to the day `d` of the month `m` of the year `y`. The year is
/// taken to begin in March, so that a leap day is its last.
#[verifier::opaque]
pub open spec fn days_from_civil(y: int, m: int, d: int) -> int {
    let y2 = if m <= 2 {
        y - 1
    } else {
        y
    };
    let m2 = if m <= 2 {
        m + 9
    } else {
        m - 3
    };
    let era = y2 / 400;
    let yoe = y2 - era * 400;
    era * 146_097 + yoe * 365 + yoe / 4 - yoe / 100 + (153 * m2 + 2) / 5 + d - 1 - 719_468
}

/// Whether `y` is a leap year.
pub open spec fn leap(y: int) -> bool {
    y % 4 == 0 && (y % 100 != 0 || y % 400 == 0)
}

/// The days of the year before the month `m` of a common year.
pub open spec fn days_before_month(m: int) -> int {
    if m == 1 {
        0
    } else if m == 2 {
        31
    } else if m == 3 {
        59
    } else if m == 4 {
        90
    } else if m == 5 {
        120
    } else if m == 6 {
        151
    } else if m == 7 {
        181
    } else if m == 8 {
        212
    } else if m == 9 {
        243
    } else if m == 10 {
        273
    } else if m == 11 {
        304
    } else {
        334
    }
}

/// How many days the month `m` of the year `y` has.
pub open spec fn days_in_month(y: int, m: int) -> int {
    if m == 2 {
        if leap(y) {
            29
        } else {
            28
        }
    } else if m == 4 || m == 6 || m == 9 || m == 11 {
        30
    } else {
        31
    }
}

/// The days from the start of the year 1 to the start of the year `y`.
pub open spec fn days_before_year(y: int) -> int {
    365 * (y - 1) + (y - 1) / 4 - (y - 1) / 100 + (y - 1) / 400
}

/// Whether there is a day `d` in the month `m` of the year `y`.
pub open spec fn is_date(y: int, m: int, d: int) -> bool {
    1 <= m <= 12 && 1 <= d <= days_in_month(y, m)
}

/// The days counted from 1970 are those that the calendar has: whole years, each 365 days and
/// one more if it is a leap year, whole months, and the days of the month before `d`.
pub proof fn lemma_days_are_calendar_days(y: int, m: int, d: int)
    requires
        1 <= m <= 12,
    ensures
        days_from_civil(y, m, d) == days_before_year(y) - days_before_year(1970)
            + days_before_month(m) + (if m > 2 && leap(y) {
            1int
        } else {
            0
        }) + d - 1,
        days_before_year(y + 1) == days_before_year(y) + (if leap(y) {
            366int
        } else {
            365
        }),
{
    reveal(days_from_civil);
    let y2 = if m <= 2 {
        y - 1
    } else {
        y
    };
    let era = y2 / 400;
    let yoe = y2 % 400;
    assert(y2 == era * 400 + yoe);
    assert(y2 / 4 == era * 100 + yoe / 4);
    assert(y2 / 100 == era * 4 + yoe / 100);
    assert(y / 4 == (y - 1) / 4 + (if y % 4 == 0 {
        1int
    } else {
        0
    }));
    assert(y / 100 == (y - 1) / 100 + (if y % 100 == 0 {
        1int
    } else {
        0
    }));
    assert(y / 400 == (y - 1) / 400 + (if y % 400 == 0 {
        1int
    } else {
        0
    }));
}

/// The civil date that `days` days after the start of 1970 fall on, as year, month and day.
#[verifier::opaque]
pub open spec fn civil_from_days(days: int) -> (int, int, int) {
    let z = days + 719_468;
    let era = z / 146_097;
    let doe = z - era * 146_097;
    let yoe = (doe - doe / 1460 + doe / 36_524 - doe / 146_096) / 365;
    let doy = doe - (365 * yoe + yoe / 4 - yoe / 100);
    let mp = (5 * doy + 2) / 153;
    let d = doy - (153 * mp + 2) / 5 + 1;
    let m = if mp < 10 {
        mp + 3
    } else {
        mp - 9
    };
    let y = yoe + era * 400 + if m <= 2 {
        1int
    } else {
        0
    };
    (y, m, d)
}

/// The year of an era that a day falls in: the last one that begins on it or before.
proof fn lemma_year_of_era(doe: int)
    requires
        0 <= doe < 146_097,
    ensures
        ({
            let yoe = (doe - doe / 1460 + doe / 36_524 - doe / 146_096) / 365;
            let doy = doe - (365 * yoe + yoe / 4 - yoe / 100);
            0 <= yoe < 400 && 0 <= doy && doy <= 365 && (doy == 365 ==> ((yoe + 1) % 4 == 0 && ((yoe
                + 1) % 100 != 0 || yoe + 1 == 400)))
        }),
{
    let c = doe as u32;
    assert(c < 146_097 ==> ({
        let yoe = ((c - c / 1460 + c / 36_524 - c / 146_096) as u32) / 365;
        let start = (365 * yoe + yoe / 4 - yoe / 100) as u32;
        yoe < 400 && start <= c && c - start <= 365 && (c - start == 365 ==> ((yoe + 1) as u32 % 4
            == 0 && ((yoe + 1) as u32 % 100 != 0 || yoe + 1 == 400)))
    })) by (bit_vector);
}

/// The month of a year that begins in March that the day `doy` falls in, and its day.
proof fn lemma_month_of_year(doy: int)
    requires
        0 <= doy <= 365,
    ensures
        ({
            let mp = (5 * doy + 2) / 153;
            let d = doy - (153 * mp + 2) / 5 + 1;
            let m = if mp < 10 {
                mp + 3
            } else {
                mp - 9
            };
            &&& 0 <= mp <= 11
            &&& 1 <= m <= 12
            &&& 1 <= d
            &&& m != 2 ==> d <= days_in_month(1, m)
            &&& m == 2 ==> d <= 29 && (d == 29 ==> doy == 365)
        }),
{
    let mp = (5 * doy + 2) / 153;
    assert(0 <= mp <= 11);
}

/// A date is on a day, and back: [`civil_from_days`] undoes [`days_from_civil`].
pub proof fn lemma_civil_round_trip(days: int)
    ensures
        ({
            let c = civil_from_days(days);
            is_date(c.0, c.1, c.2) && days_from_civil(c.0, c.1, c.2) == days
        }),
{
    reveal(days_from_civil);
    reveal(civil_from_days);
    let z = days + 719_468;
    let era = z / 146_097;
    let doe = z - era * 146_097;
    lemma_year_of_era(doe);
    let yoe = (doe - doe / 1460 + doe / 36_524 - doe / 146_096) / 365;
    let doy = doe - (365 * yoe + yoe / 4 - yoe / 100);
    lemma_month_of_year(doy);
    let mp = (5 * doy + 2) / 153;
    let c = civil_from_days(days);
    let y2 = yoe + era * 400;
    lemma_era(era, yoe);
    assert(c.1 == if mp < 10 {
        mp + 3
    } else {
        mp - 9
    });
    assert(c.0 == y2 + if c.1 <= 2 {
        1int
    } else {
        0
    });
    assert(days_from_civil(c.0, c.1, c.2) == days);
    if c.1 == 2 && c.2 == 29 {
        assert(doy == 365);
        assert(leap(c.0));
    }
}

proof fn lemma_era(era: int, yoe: int)
    requires
        0 <= yoe < 400,
    ensures
        (yoe + era * 400) / 400 == era,
        (yoe + 1) % 4 == 0 && ((yoe + 1) % 100 != 0 || yoe + 1 == 400) ==> leap(
            yoe + era * 400 + 1,
        ),
{
}

proof fn lemma_year_bounds(y: int, m: int, d: int)
    requires
        is_date(y, m, d),
    ensures
        days_before_year(y) <= days_from_civil(y, m, d) + days_before_year(1970)
            < days_before_year(y + 1),
{
    lemma_days_are_calendar_days(y, m, d);
}

proof fn lemma_years_in_order(a: int, b: int)
    requires
        a <= b,
    ensures
        days_before_year(a) <= days_before_year(b),
    decreases b - a,
{
    if a < b {
        lemma_days_are_calendar_days(b - 1, 1, 1);
        lemma_years_in_order(a, b - 1);
    }
}

/// No two dates are on the same day, so [`days_from_civil`] undoes [`civil_from_days`].
pub proof fn lemma_date_round_trip(y: int, m: int, d: int)
    requires
        is_date(y, m, d),
    ensures
        civil_from_days(days_from_civil(y, m, d)) == (y, m, d),
{
    let days = days_from_civil(y, m, d);
    let c = civil_from_days(days);
    lemma_civil_round_trip(days);
    lemma_year_bounds(y, m, d);
    lemma_year_bounds(c.0, c.1, c.2);
    if y < c.0 {
        lemma_years_in_order(y + 1, c.0);
    } else if c.0 < y {
        lemma_years_in_order(c.0 + 1, y);
    }
    lemma_days_are_calendar_days(y, m, d);
    lemma_days_are_calendar_days(c.0, c.1, c.2);
}

/// The number that the bytes `b[i..j]` write.
pub open spec fn field(b: Seq<u8>, i: int, j: int) -> Option<int> {
    num::signed(b.subrange(i, j).map_values(|x: u8| x as char))
}

/// The seconds that the bytes of a time stand for: the six numbers at their places, whatever
/// stands between them.
pub open spec fn seconds_of(b: Seq<u8>) -> Option<int> {
    if b.len() < 19 {
        None
    } else {
        match (
            field(b, 0, 4),
            field(b, 5, 7),
            field(b, 8, 10),
            field(b, 11, 13),
            field(b, 14, 16),
            field(b, 17, 19),
        ) {
            (Some(y), Some(mo), Some(d), Some(h), Some(mi), Some(s)) => Some(
                days_from_civil(y, mo, d) * 86_400 + h * 3600 + mi * 60 + s,
            ),
            _ => None,
        }
    }
}

proof fn lemma_field_bounds(s: Seq<char>)
    requires
        num::signed(s) is Some,
        s.len() <= 4,
    ensures
        s.len() == 2 ==> -9 <= num::signed(s)->0 <= 99,
        s.len() == 4 ==> -999 <= num::signed(s)->0 <= 9999,
{
    reveal_with_fuel(num::value, 5);
    if s.len() == 2 || s.len() == 4 {
        if s[0] == '-' || s[0] == '+' {
            let d = s.skip(1);
            num::lemma_value_written_back(d);
            reveal_with_fuel(num::ten_to, 5);
        } else {
            num::lemma_value_written_back(s);
            reveal_with_fuel(num::ten_to, 5);
        }
    }
}

proof fn lemma_foreign_byte(b: Seq<u8>, i: int, j: int, k: int)
    requires
        0 <= i <= k < j <= b.len(),
        b[k] >= 0x80,
    ensures
        field(b, i, j) is None,
{
    let t = b.subrange(i, j).map_values(|x: u8| x as char);
    let c = t[k - i];
    let x = b[k];
    assert(c == x as char);
    assert(x as u32 >= 0x80);
    assert(c as u32 == x as u32);
    assert(!num::digit(c));
    assert(c != '+' && c != '-');
    if k > i {
        assert(t.skip(1)[k - i - 1] == c);
    }
}

proof fn lemma_byte_before_cut(b: Seq<u8>, i: int)
    requires
        vstd::utf8::valid_utf8(b),
        0 < i < b.len(),
        !is_char_boundary(b, i),
    ensures
        b[i] >= 0x80,
        b[i - 1] >= 0x80,
{
    vstd::utf8::is_char_boundary_iff_not_is_continuation_byte(b, i);
    if b[i - 1] < 0x80 {
        vstd::utf8::is_char_boundary_iff_not_is_continuation_byte(b, i - 1);
        vstd::utf8::valid_utf8_split(b, i - 1);
        let t = b.subrange(i - 1, b.len() as int);
        assert(t[0] == b[i - 1]);
        assert(vstd::utf8::length_of_first_scalar(t) == 1);
        let u = vstd::utf8::pop_first_scalar(t);
        assert(u.len() == b.len() - i);
        assert(u[0] == b[i]);
        assert(vstd::utf8::valid_utf8(u));
    }
}

/// Whether a number of a time begins or ends at the byte `i`.
pub open spec fn is_edge(i: int) -> bool {
    ||| i == 0 || i == 5 || i == 8 || i == 11 || i == 14 || i == 17
    ||| i == 4 || i == 7 || i == 10 || i == 13 || i == 16 || i == 19
}

/// A text in which a character stands across the edge of a number is no time.
pub proof fn lemma_cut_character_is_no_time(s: Seq<char>, i: int)
    requires
        is_edge(i),
        encode_utf8(s).len() >= 19,
        !is_char_boundary(encode_utf8(s), i),
    ensures
        seconds_of(encode_utf8(s)) is None,
{
    let b = encode_utf8(s);
    vstd::utf8::encode_utf8_valid_utf8(s);
    vstd::utf8::is_char_boundary_start_end_of_seq(b);
    lemma_byte_before_cut(b, i);
    if i == 4 {
        lemma_foreign_byte(b, 0, 4, 3);
    } else if i == 7 || i == 10 || i == 13 || i == 16 || i == 19 {
        lemma_foreign_byte(b, i - 2, i, i - 1);
    } else {
        lemma_foreign_byte(b, i, i + 2, i);
    }
}

fn number_at(b: &[u8], from: usize, to: usize) -> (r: Option<i64>)
    requires
        from <= to <= b@.len(),
        to - from == 2 || to - from == 4,
    ensures
        match r {
            Some(n) => field(b@, from as int, to as int) == Some(n as int) && -999 <= n <= 9999 && (
            to - from == 2 ==> -9 <= n <= 99),
            None => field(b@, from as int, to as int) is None,
        },
{
    let mut v: Vec<char> = Vec::new();
    let mut i: usize = from;
    let ghost all = b@.subrange(from as int, to as int).map_values(|x: u8| x as char);
    while i < to
        invariant
            from <= i <= to <= b@.len(),
            all == b@.subrange(from as int, to as int).map_values(|x: u8| x as char),
            v@ == all.take(i - from),
        decreases to - i,
    {
        v.push(b[i] as char);
        proof {
            assert(all.take(i + 1 - from) =~= all.take(i - from).push(all[i - from]));
        }
        i += 1;
    }
    proof {
        assert(v@ =~= all);
    }
    let r = num::parse_signed_chars(&v);
    proof {
        if r is Some {
            lemma_field_bounds(all);
        }
    }
    r
}

fn civil_days(y: i64, mo: i64, d: i64) -> (days: i64)
    requires
        -999 <= y <= 9999,
        -9 <= mo <= 99,
        -9 <= d <= 99,
    ensures
        days == days_from_civil(y as int, mo as int, d as int),
        -2_000_000 <= days <= 4_000_000,
{
    proof {
        reveal(days_from_civil);
    }
    let y2: i64 = if mo <= 2 {
        y - 1
    } else {
        y
    };
    let m2: i64 = if mo <= 2 {
        mo + 9
    } else {
        mo - 3
    };
    let era: i64 = (y2 + 4000) / 400 - 10;
    proof {
        assert(era == y2 as int / 400);
        assert(-4 <= era <= 25);
    }
    let yoe: i64 = y2 - era * 400;
    proof {
        assert(0 <= yoe < 400);
        assert(0 <= m2 <= 96);
    }
    let doy: i64 = (153 * m2 + 2) / 5 + d - 1;
    let doe: i64 = yoe * 365 + yoe / 4 - yoe / 100 + doy;
    era * 146_097 + doe - 719_468
}

/// The seconds since the start of 1970 that `ts` stands for; `None` where it is no time, as where a
/// character stands across the edge of a number.
pub fn parse_utc_secs(ts: &str) -> (r: Option<i64>)
    ensures
        match r {
            Some(n) => seconds_of(encode_utf8(ts@)) == Some(n as int),
            None => seconds_of(encode_utf8(ts@)) is None,
        },
{
    let b = ts.as_bytes();
    if b.len() < 19 {
        return None;
    }
    let (y, mo, d, h, mi, s) = match (
        number_at(b, 0, 4),
        number_at(b, 5, 7),
        number_at(b, 8, 10),
        number_at(b, 11, 13),
        number_at(b, 14, 16),
        number_at(b, 17, 19),
    ) {
        (Some(y), Some(mo), Some(d), Some(h), Some(mi), Some(s)) => (y, mo, d, h, mi, s),
        _ => {
            return None;
        },
    };
    let days: i64 = civil_days(y, mo, d);
    Some(days * 86_400 + h * 3600 + mi * 60 + s)
}

/// How long before `now` the time `secs` was, never less than 0.
pub open spec fn age_between(secs: int, now: int) -> int {
    if now > secs {
        now - secs
    } else {
        0
    }
}

/// How long before `now` the time `ts` was, never less than 0.
pub fn age_at(ts: &str, now: i64) -> (r: Option<u64>)
    ensures
        match r {
            Some(n) => seconds_of(encode_utf8(ts@)) is Some && n == age_between(
                seconds_of(encode_utf8(ts@))->0,
                now as int,
            ),
            None => seconds_of(encode_utf8(ts@)) is None,
        },
{
    match parse_utc_secs(ts) {
        Some(secs) => {
            let age: i128 = now as i128 - secs as i128;
            if age > 0 {
                Some(age as u64)
            } else {
                Some(0)
            }
        },
        None => None,
    }
}

/// How long ago the time `ts` was, by this machine's clock; `None` where `ts` is no time.
pub fn age_secs(ts: &str) -> (r: Option<u64>)
    ensures
        match r {
            Some(n) => seconds_of(encode_utf8(ts@)) is Some && exists|now: i64|
                0 <= now && n == #[trigger] age_between(seconds_of(encode_utf8(ts@))->0, now as int),
            None => seconds_of(encode_utf8(ts@)) is None,
        },
{
    age_at(ts, now_secs())
}

/// The text of the time `secs` seconds after the start of 1970; a time before it is taken to be
/// the start itself.
pub open spec fn time_text(secs: int) -> Seq<char> {
    let t = if secs < 0 {
        0
    } else {
        secs
    };
    let c = civil_from_days(t / 86_400);
    let rem = t % 86_400;
    num::padded(c.0 as nat, 4) + seq!['-'] + num::padded(c.1 as nat, 2) + seq!['-'] + num::padded(
        c.2 as nat,
        2,
    ) + seq!['T'] + num::padded((rem / 3600) as nat, 2) + seq![':'] + num::padded(
        (rem % 3600 / 60) as nat,
        2,
    ) + seq![':'] + num::padded((rem % 60) as nat, 2) + seq!['Z']
}

fn push_number(out: &mut String, n: u64, w: usize, mark: char)
    ensures
        final(out)@ == old(out)@ + num::padded(n as nat, w as nat) + seq![mark],
{
    let t = num::to_padded(n, w);
    text::push_str(out, t.as_str());
    out.push(mark);
    proof {
        assert(out@ =~= old(out)@ + num::padded(n as nat, w as nat) + seq![mark]);
    }
}

/// The text of the time `secs` seconds after the start of 1970; a time before it is taken to be
/// the start itself.
pub fn format_utc_secs(secs: i64) -> (out: String)
    ensures
        out@ == time_text(secs as int),
{
    let t: i64 = if secs < 0 {
        0
    } else {
        secs
    };
    let days: i64 = t / 86_400;
    let rem: i64 = t % 86_400;
    let z: i64 = days + 719_468;
    let era: i64 = z / 146_097;
    let doe: i64 = z - era * 146_097;
    proof {
        reveal(civil_from_days);
        assert(doe == z % 146_097);
        lemma_year_of_era(doe as int);
        lemma_civil_round_trip(days as int);
    }
    let yoe: i64 = (doe - doe / 1460 + doe / 36_524 - doe / 146_096) / 365;
    let doy: i64 = doe - (365 * yoe + yoe / 4 - yoe / 100);
    let mp: i64 = (5 * doy + 2) / 153;
    let d: i64 = doy - (153 * mp + 2) / 5 + 1;
    let m: i64 = if mp < 10 {
        mp + 3
    } else {
        mp - 9
    };
    let y: i64 = yoe + era * 400 + if m <= 2 {
        1
    } else {
        0
    };
    proof {
        assert((y as int, m as int, d as int) == civil_from_days(days as int));
    }
    let mut out = String::new();
    push_number(&mut out, y as u64, 4, '-');
    push_number(&mut out, m as u64, 2, '-');
    push_number(&mut out, d as u64, 2, 'T');
    push_number(&mut out, (rem / 3600) as u64, 2, ':');
    push_number(&mut out, (rem % 3600 / 60) as u64, 2, ':');
    push_number(&mut out, (rem % 60) as u64, 2, 'Z');
    proof {
        assert(out@ =~= time_text(secs as int));
    }
    out
}

/// The bytes of a time in its one form: digits at the six places, and the marks between them.
pub open spec fn is_time_text(s: Seq<char>) -> bool {
    &&& s.len() == 20
    &&& s[4] == '-' && s[7] == '-' && s[10] == 'T' && s[13] == ':' && s[16] == ':' && s[19] == 'Z'
    &&& num::all_digits(s.subrange(0, 4))
    &&& num::all_digits(s.subrange(5, 7))
    &&& num::all_digits(s.subrange(8, 10))
    &&& num::all_digits(s.subrange(11, 13))
    &&& num::all_digits(s.subrange(14, 16))
    &&& num::all_digits(s.subrange(17, 19))
}

proof fn lemma_ascii(s: Seq<char>)
    requires
        forall|i: int| 0 <= i < s.len() ==> (#[trigger] s[i] as u32) < 0x80,
    ensures
        encode_utf8(s).len() == s.len(),
        forall|i: int| 0 <= i < s.len() ==> #[trigger] encode_utf8(s)[i] as char == s[i],
    decreases s.len(),
{
    if s.len() > 0 {
        let t = s.drop_first();
        assert forall|i: int| 0 <= i < t.len() implies (#[trigger] t[i] as u32) < 0x80 by {
            assert(t[i] == s[i + 1]);
        }
        lemma_ascii(t);
        let c = s[0] as u32;
        assert((s[0] as u32) < 0x80);
        assert(c < 0x80 ==> (c & 0x7F) as u8 == c) by (bit_vector);
        let e = vstd::utf8::encode_scalar(s[0] as u32);
        assert(e.len() == 1 && e[0] == c);
        vstd::utf8::char_is_scalar(s[0]);
        vstd::utf8::char_u32_cast(s[0], c);
        assert(e[0] as u32 == c);
        assert(e[0] as char == s[0]);
        assert forall|i: int| 0 <= i < s.len() implies #[trigger] encode_utf8(s)[i] as char
            == s[i] by {
            if i > 0 {
                assert(encode_utf8(s)[i] == encode_utf8(t)[i - 1]);
                assert(t[i - 1] == s[i]);
            }
        }
    }
}

proof fn lemma_time_text_is_ascii(s: Seq<char>)
    requires
        is_time_text(s),
    ensures
        forall|i: int| 0 <= i < s.len() ==> (#[trigger] s[i] as u32) < 0x80,
{
    assert forall|i: int| 0 <= i < s.len() implies (#[trigger] s[i] as u32) < 0x80 by {
        if i < 4 {
            assert(num::digit(s.subrange(0, 4)[i]));
        } else if 5 <= i < 7 {
            assert(num::digit(s.subrange(5, 7)[i - 5]));
        } else if 8 <= i < 10 {
            assert(num::digit(s.subrange(8, 10)[i - 8]));
        } else if 11 <= i < 13 {
            assert(num::digit(s.subrange(11, 13)[i - 11]));
        } else if 14 <= i < 16 {
            assert(num::digit(s.subrange(14, 16)[i - 14]));
        } else if 17 <= i < 19 {
            assert(num::digit(s.subrange(17, 19)[i - 17]));
        }
    }
}

proof fn lemma_digits_read(s: Seq<char>, i: int, j: int)
    requires
        is_time_text(s),
        0 <= i < j <= 20,
        num::all_digits(s.subrange(i, j)),
        j - i <= 4,
    ensures
        field(encode_utf8(s), i, j) == Some(num::value(s.subrange(i, j)) as int),
{
    lemma_time_text_is_ascii(s);
    lemma_ascii(s);
    let t = encode_utf8(s).subrange(i, j).map_values(|x: u8| x as char);
    assert(t =~= s.subrange(i, j));
    assert(num::digit(t[0]));
    num::lemma_value_written_back(t);
    reveal_with_fuel(num::ten_to, 5);
    assert(num::without_plus(t) == t);
}

/// A time in its one form is read as the date and the time of day that its digits write.
pub proof fn lemma_time_text_read(s: Seq<char>)
    requires
        is_time_text(s),
    ensures
        seconds_of(encode_utf8(s)) == Some(
            days_from_civil(
                num::value(s.subrange(0, 4)) as int,
                num::value(s.subrange(5, 7)) as int,
                num::value(s.subrange(8, 10)) as int,
            ) * 86_400 + num::value(s.subrange(11, 13)) * 3600 + num::value(s.subrange(14, 16)) * 60
                + num::value(s.subrange(17, 19)),
        ),
{
    lemma_time_text_is_ascii(s);
    lemma_ascii(s);
    lemma_digits_read(s, 0, 4);
    lemma_digits_read(s, 5, 7);
    lemma_digits_read(s, 8, 10);
    lemma_digits_read(s, 11, 13);
    lemma_digits_read(s, 14, 16);
    lemma_digits_read(s, 17, 19);
}

proof fn lemma_padded_digits(n: nat, w: nat)
    requires
        n < num::ten_to(w),
        w >= 1,
    ensures
        num::padded(n, w).len() == w,
        num::all_digits(num::padded(n, w)),
        num::value(num::padded(n, w)) == n,
{
    num::lemma_padded(n, w);
    num::lemma_last_digits_value(n, w);
}

/// The last second of the year 9999, after which a year has more than four digits.
pub const LAST_SECOND: i64 = 253_402_300_799;

proof fn lemma_four_digit_years(days: int)
    requires
        0 <= days <= 2_932_896,
    ensures
        1970 <= civil_from_days(days).0 <= 9999,
{
    let c = civil_from_days(days);
    lemma_civil_round_trip(days);
    lemma_year_bounds(c.0, c.1, c.2);
    if c.0 >= 10_000 {
        lemma_years_in_order(10_000, c.0);
    }
    if c.0 < 1970 {
        lemma_years_in_order(c.0 + 1, 1970);
    }
}

/// Reading a time that was written gives the time back, for as long as years have four digits.
pub proof fn lemma_written_time_reads_back(secs: int)
    requires
        0 <= secs <= LAST_SECOND,
    ensures
        is_time_text(time_text(secs)),
        seconds_of(encode_utf8(time_text(secs))) == Some(secs),
{
    let days = secs / 86_400;
    let rem = secs % 86_400;
    let c = civil_from_days(days);
    lemma_civil_round_trip(days);
    lemma_four_digit_years(days);
    reveal_with_fuel(num::ten_to, 5);
    assert(days_in_month(c.0, c.1) <= 31);
    let (h, mi, s) = (rem / 3600, rem % 3600 / 60, rem % 60);
    lemma_padded_digits(c.0 as nat, 4);
    lemma_padded_digits(c.1 as nat, 2);
    lemma_padded_digits(c.2 as nat, 2);
    lemma_padded_digits(h as nat, 2);
    lemma_padded_digits(mi as nat, 2);
    lemma_padded_digits(s as nat, 2);
    let t = time_text(secs);
    assert(t.subrange(0, 4) =~= num::padded(c.0 as nat, 4));
    assert(t.subrange(5, 7) =~= num::padded(c.1 as nat, 2));
    assert(t.subrange(8, 10) =~= num::padded(c.2 as nat, 2));
    assert(t.subrange(11, 13) =~= num::padded(h as nat, 2));
    assert(t.subrange(14, 16) =~= num::padded(mi as nat, 2));
    assert(t.subrange(17, 19) =~= num::padded(s as nat, 2));
    lemma_time_text_read(t);
    assert(rem == h * 3600 + mi * 60 + s);
}

/// Writing a time that was read gives its text back: a date that there is, not before 1970, and a
/// time of day that there is.
pub proof fn lemma_read_time_writes_back(s: Seq<char>)
    requires
        is_time_text(s),
        is_date(
            num::value(s.subrange(0, 4)) as int,
            num::value(s.subrange(5, 7)) as int,
            num::value(s.subrange(8, 10)) as int,
        ),
        num::value(s.subrange(0, 4)) >= 1970,
        num::value(s.subrange(11, 13)) < 24,
        num::value(s.subrange(14, 16)) < 60,
        num::value(s.subrange(17, 19)) < 60,
    ensures
        seconds_of(encode_utf8(s)) is Some,
        time_text(seconds_of(encode_utf8(s))->0) == s,
{
    lemma_time_text_read(s);
    let y = num::value(s.subrange(0, 4)) as int;
    let m = num::value(s.subrange(5, 7)) as int;
    let d = num::value(s.subrange(8, 10)) as int;
    let h = num::value(s.subrange(11, 13)) as int;
    let mi = num::value(s.subrange(14, 16)) as int;
    let sec = num::value(s.subrange(17, 19)) as int;
    let days = days_from_civil(y, m, d);
    let t = days * 86_400 + h * 3600 + mi * 60 + sec;
    lemma_date_round_trip(y, m, d);
    lemma_year_bounds(y, m, d);
    lemma_years_in_order(1970, y);
    lemma_time_of_day(days, h, mi, sec);
    lemma_written_back(s.subrange(0, 4));
    lemma_written_back(s.subrange(5, 7));
    lemma_written_back(s.subrange(8, 10));
    lemma_written_back(s.subrange(11, 13));
    lemma_written_back(s.subrange(14, 16));
    lemma_written_back(s.subrange(17, 19));
    assert(time_text(t) =~= s);
}

proof fn lemma_time_of_day(days: int, h: int, mi: int, s: int)
    requires
        days >= 0,
        0 <= h < 24,
        0 <= mi < 60,
        0 <= s < 60,
    ensures
        ({
            let t = days * 86_400 + h * 3600 + mi * 60 + s;
            let rem = t % 86_400;
            t >= 0 && t / 86_400 == days && rem / 3600 == h && rem % 3600 / 60 == mi && rem % 60
                == s
        }),
{
}

proof fn lemma_written_back(s: Seq<char>)
    requires
        num::all_digits(s),
        s.len() >= 1,
    ensures
        num::padded(num::value(s), s.len()) == s,
{
    num::lemma_value_written_back(s);
    num::lemma_padded(num::value(s), s.len());
}

/// An age is the time that has passed, and none where that is still to come: it grows as the clock goes.
pub proof fn lemma_age(secs: int, now: int, later: int)
    requires
        now <= later,
    ensures
        secs <= now ==> secs + age_between(secs, now) == now,
        now <= secs ==> age_between(secs, now) == 0,
        age_between(secs, now) <= age_between(secs, later),
{
}

} // verus!
