//! Timestamp formatting for the logger.
//!
//! A seconds-since-epoch count is split into a civil calendar date and a
//! time of day, then displayed as `YYYY-MM-DD hh:mm:ss`. The split is
//! specified by its inverse: the displayed fields are in range and map
//! back to the input count through [`datetime_secs`].

use vstd::arithmetic::div_mod::lemma_multiply_divide_lt;
use vstd::prelude::*;
use vstd::string::StringExecFns;

verus! {

/// A leap year: divisible by 4, except centuries off the 400 grid.
pub open spec fn spec_is_leap(year: int) -> bool {
    year % 4 == 0 && (year % 100 != 0 || year % 400 == 0)
}

/// Decides whether `year` is a leap year.
pub fn is_leap(year: u64) -> (r: bool)
    ensures
        r == spec_is_leap(year as int),
{
    year % 4 == 0 && ((year % 100) != 0 || year % 400 == 0)
}

pub open spec fn days_in_year(year: int) -> int {
    if spec_is_leap(year) {
        366
    } else {
        365
    }
}

pub open spec fn year_secs(year: int) -> int {
    86400 * days_in_year(year)
}

/// The seconds of the whole years `[start, y)`.
pub open spec fn years_secs(start: int, y: int) -> int
    decreases y - start,
{
    if y <= start {
        0
    } else {
        years_secs(start, y - 1) + year_secs(y - 1)
    }
}

pub open spec fn days_in_month(year: int, m: int) -> int {
    if m == 2 {
        if spec_is_leap(year) {
            29
        } else {
            28
        }
    } else if m == 4 || m == 6 || m == 9 || m == 11 {
        30
    } else {
        31
    }
}

/// The seconds of the whole months `[1, m)` of `year`.
pub open spec fn months_secs(year: int, m: int) -> int
    decreases m,
{
    if m <= 1 {
        0
    } else {
        months_secs(year, m - 1) + 86400 * days_in_month(year, m - 1)
    }
}

/// The moment `y-mo-d h:mi:s`, counted in seconds from the start of the
/// year `start`.
pub open spec fn datetime_secs(start: int, y: int, mo: int, d: int, h: int, mi: int, s: int) -> int {
    years_secs(start, y) + months_secs(y, mo) + 86400 * (d - 1) + 3600 * h + 60 * mi + s
}

/// The displayed fields are a calendar date from `start` on and a time of
/// day.
pub open spec fn valid_datetime(start: int, y: int, mo: int, d: int, h: int, mi: int, s: int) -> bool {
    &&& start <= y
    &&& 1 <= mo <= 12
    &&& 1 <= d <= days_in_month(y, mo)
    &&& 0 <= h < 24
    &&& 0 <= mi < 60
    &&& 0 <= s < 60
}

proof fn lemma_months_total(year: int)
    ensures
        months_secs(year, 13) == year_secs(year),
{
    reveal_with_fuel(months_secs, 14);
}

proof fn lemma_years_secs_lower(start: int, y: int)
    requires
        start <= y,
    ensures
        31536000 * (y - start) <= years_secs(start, y),
    decreases y - start,
{
    if y > start {
        lemma_years_secs_lower(start, y - 1);
    }
}

proof fn lemma_months_secs_monotone(year: int, a: int, b: int)
    requires
        1 <= a <= b <= 13,
    ensures
        months_secs(year, a) <= months_secs(year, b),
    decreases b,
{
    if a < b {
        lemma_months_secs_monotone(year, a, b - 1);
    }
}

proof fn lemma_years_secs_monotone(start: int, y1: int, y2: int)
    requires
        start <= y1 <= y2,
    ensures
        years_secs(start, y1) <= years_secs(start, y2),
        y1 < y2 ==> years_secs(start, y1) + year_secs(y1) <= years_secs(start, y2),
    decreases y2 - y1,
{
    if y1 < y2 {
        lemma_years_secs_monotone(start, y1, y2 - 1);
    }
}

/// The seconds a date and time of day lie into their own year: at least
/// the months before, and short of the year's length.
proof fn lemma_in_year_range(y: int, mo: int, d: int, h: int, mi: int, s: int)
    requires
        1 <= mo <= 12,
        1 <= d <= days_in_month(y, mo),
        0 <= h < 24,
        0 <= mi < 60,
        0 <= s < 60,
    ensures
        0 <= months_secs(y, mo) + 86400 * (d - 1) + 3600 * h + 60 * mi + s < year_secs(y),
{
    lemma_months_secs_monotone(y, 1, mo);
    lemma_months_secs_monotone(y, mo + 1, 13);
    lemma_months_total(y);
    assert(months_secs(y, mo + 1) == months_secs(y, mo) + 86400 * days_in_month(y, mo));
}

/// Law: the calendar fields behind a seconds count are unique — two valid
/// dates and times of day that lie the same number of seconds after the
/// start of `start` are the same fields, so the display of a count is
/// pinned.
pub proof fn lemma_civil_unique(
    start: int,
    y1: int,
    mo1: int,
    d1: int,
    h1: int,
    mi1: int,
    s1: int,
    y2: int,
    mo2: int,
    d2: int,
    h2: int,
    mi2: int,
    s2: int,
)
    requires
        valid_datetime(start, y1, mo1, d1, h1, mi1, s1),
        valid_datetime(start, y2, mo2, d2, h2, mi2, s2),
        datetime_secs(start, y1, mo1, d1, h1, mi1, s1) == datetime_secs(
            start,
            y2,
            mo2,
            d2,
            h2,
            mi2,
            s2,
        ),
    ensures
        y1 == y2,
        mo1 == mo2,
        d1 == d2,
        h1 == h2,
        mi1 == mi2,
        s1 == s2,
{
    lemma_in_year_range(y1, mo1, d1, h1, mi1, s1);
    lemma_in_year_range(y2, mo2, d2, h2, mi2, s2);
    if y1 < y2 {
        lemma_years_secs_monotone(start, y1, y2);
        assert(false);
    }
    if y2 < y1 {
        lemma_years_secs_monotone(start, y2, y1);
        assert(false);
    }
    if mo1 < mo2 {
        lemma_months_secs_monotone(y1, mo1 + 1, mo2);
        assert(months_secs(y1, mo1 + 1) == months_secs(y1, mo1) + 86400 * days_in_month(
            y1,
            mo1,
        ));
        assert(false);
    }
    if mo2 < mo1 {
        lemma_months_secs_monotone(y1, mo2 + 1, mo1);
        assert(months_secs(y1, mo2 + 1) == months_secs(y1, mo2) + 86400 * days_in_month(
            y1,
            mo2,
        ));
        assert(false);
    }
}

fn month_days(year: u64, m: u64) -> (d: u64)
    requires
        1 <= m <= 12,
    ensures
        d == days_in_month(year as int, m as int),
        28 <= d <= 31,
{
    if m == 2 {
        if is_leap(year) {
            29
        } else {
            28
        }
    } else if m == 4 || m == 6 || m == 9 || m == 11 {
        30
    } else {
        31
    }
}

/// Splits `total` seconds since the start of the year `start_year` into
/// calendar fields `(year, month, day, hour, minute, second)`. The fields
/// are in range and map back to `total` exactly.
#[verifier::loop_isolation(false)]
pub fn civil_from_secs(total: u64, start_year: u64) -> (r: (u64, u64, u64, u64, u64, u64))
    requires
        start_year + total <= u64::MAX,
    ensures
        valid_datetime(
            start_year as int,
            r.0 as int,
            r.1 as int,
            r.2 as int,
            r.3 as int,
            r.4 as int,
            r.5 as int,
        ),
        datetime_secs(
            start_year as int,
            r.0 as int,
            r.1 as int,
            r.2 as int,
            r.3 as int,
            r.4 as int,
            r.5 as int,
        ) == total as int,
{
    let mut y: u64 = start_year;
    let mut rem: u64 = total;
    let mut ys: u64 = if is_leap(y) {
        31622400
    } else {
        31536000
    };
    while rem >= ys
        invariant
            start_year <= y,
            ys == year_secs(y as int),
            years_secs(start_year as int, y as int) + rem == total,
            31536000 * (y as int - start_year as int) <= total as int,
        decreases rem,
    {
        proof {
            lemma_years_secs_lower(start_year as int, y as int);
            assert(31536000 * (y as int + 1 - start_year as int) <= total as int);
            assert(y as int + 1 - start_year as int <= total as int) by (nonlinear_arith)
                requires
                    31536000 * (y as int + 1 - start_year as int) <= total as int,
                    0 <= y as int + 1 - start_year as int,
            ;
        }
        rem = rem - ys;
        y = y + 1;
        ys = if is_leap(y) {
            31622400
        } else {
            31536000
        };
    }
    let ghost day_rem = rem as int;
    let mut mo: u64 = 1;
    let mut dim: u64 = month_days(y, 1);
    let mut dm: u64 = dim * 86400;
    while rem >= dm
        invariant
            1 <= mo <= 12,
            dim == days_in_month(y as int, mo as int),
            dm == 86400 * days_in_month(y as int, mo as int),
            months_secs(y as int, mo as int) + rem == day_rem,
            day_rem < year_secs(y as int),
        decreases 12 - mo,
    {
        proof {
            lemma_months_total(y as int);
            if mo == 12 {
                assert(months_secs(y as int, 13) == months_secs(y as int, 12) + 86400
                    * days_in_month(y as int, 12));
                assert(false);
            }
        }
        rem = rem - dm;
        mo = mo + 1;
        dim = month_days(y, mo);
        dm = dim * 86400;
    }
    let d: u64 = rem / 86400 + 1;
    let t: u64 = rem % 86400;
    let r1: u64 = t % 3600;
    let h: u64 = t / 3600;
    let mi: u64 = r1 / 60;
    let s: u64 = r1 % 60;
    proof {
        lemma_multiply_divide_lt(rem as int, 86400, dim as int);
    }
    (y, mo, d, h, mi, s)
}

pub open spec fn digit_char(d: int) -> char {
    if d == 0 {
        '0'
    } else if d == 1 {
        '1'
    } else if d == 2 {
        '2'
    } else if d == 3 {
        '3'
    } else if d == 4 {
        '4'
    } else if d == 5 {
        '5'
    } else if d == 6 {
        '6'
    } else if d == 7 {
        '7'
    } else if d == 8 {
        '8'
    } else {
        '9'
    }
}

/// The decimal digits of `n`, most significant first.
pub open spec fn dec_digits(n: int) -> Seq<char>
    decreases n,
{
    if n < 10 {
        seq![digit_char(n)]
    } else {
        dec_digits(n / 10).push(digit_char(n % 10))
    }
}

pub open spec fn zeros(k: int) -> Seq<char> {
    if k <= 0 {
        Seq::<char>::empty()
    } else {
        Seq::new(k as nat, |i: int| '0')
    }
}

/// `n` in decimal, zero-padded on the left to at least `w` characters.
pub open spec fn padded_dec(n: int, w: int) -> Seq<char> {
    zeros(w - dec_digits(n).len()) + dec_digits(n)
}

/// The fixed display format: year to four places, the rest to two.
pub open spec fn datetime_string(y: int, mo: int, d: int, h: int, mi: int, s: int) -> Seq<char> {
    padded_dec(y, 4) + seq!['-'] + padded_dec(mo, 2) + seq!['-'] + padded_dec(d, 2) + seq![' ']
        + padded_dec(h, 2) + seq![':'] + padded_dec(mi, 2) + seq![':'] + padded_dec(s, 2)
}

/// Whether `r` displays, in the fixed format, the date and time that lie
/// `total` seconds after the start of the year `start`.
pub open spec fn is_datetime_display(r: Seq<char>, start: int, total: int) -> bool {
    exists|y: int, mo: int, d: int, h: int, mi: int, s: int|
        valid_datetime(start, y, mo, d, h, mi, s) && datetime_secs(start, y, mo, d, h, mi, s)
            == total && r == #[trigger] datetime_string(y, mo, d, h, mi, s)
}

fn digit_str(d: u64) -> (r: &'static str)
    requires
        d < 10,
    ensures
        r@ == seq![digit_char(d as int)],
{
    let r = match d {
        0 => "0",
        1 => "1",
        2 => "2",
        3 => "3",
        4 => "4",
        5 => "5",
        6 => "6",
        7 => "7",
        8 => "8",
        _ => "9",
    };
    proof {
        reveal_strlit("0");
        reveal_strlit("1");
        reveal_strlit("2");
        reveal_strlit("3");
        reveal_strlit("4");
        reveal_strlit("5");
        reveal_strlit("6");
        reveal_strlit("7");
        reveal_strlit("8");
        reveal_strlit("9");
        assert(r@ =~= seq![digit_char(d as int)]);
    }
    r
}

fn append_dec(out: &mut String, n: u64)
    ensures
        final(out)@ == old(out)@ + dec_digits(n as int),
    decreases n,
{
    if n < 10 {
        out.append(digit_str(n));
        proof {
            assert(final(out)@ =~= old(out)@ + dec_digits(n as int));
        }
    } else {
        append_dec(out, n / 10);
        out.append(digit_str(n % 10));
        proof {
            assert(final(out)@ =~= old(out)@ + dec_digits(n as int));
        }
    }
}

proof fn lemma_dec_len_ge4(n: int)
    requires
        1000 <= n,
    ensures
        dec_digits(n).len() >= 4,
{
    assert(n / 10 >= 100);
    assert(n / 10 / 10 >= 10);
    assert(dec_digits(n).len() == dec_digits(n / 10).len() + 1);
    assert(dec_digits(n / 10).len() == dec_digits(n / 10 / 10).len() + 1);
    assert(dec_digits(n / 10 / 10).len() == dec_digits(n / 10 / 10 / 10).len() + 1);
}

fn append_padded(out: &mut String, n: u64, width: u64)
    requires
        width == 2 || width == 4,
    ensures
        final(out)@ == old(out)@ + padded_dec(n as int, width as int),
{
    if width == 2 {
        if n < 10 {
            out.append("0");
        }
    } else {
        if n < 10 {
            out.append("000");
        } else if n < 100 {
            out.append("00");
        } else if n < 1000 {
            out.append("0");
        }
    }
    append_dec(out, n);
    proof {
        reveal_strlit("0");
        reveal_strlit("00");
        reveal_strlit("000");
        if n < 10 {
            assert(dec_digits(n as int).len() == 1);
        } else if n < 100 {
            assert(dec_digits((n as int) / 10).len() == 1);
            assert(dec_digits(n as int).len() == 2);
        } else if n < 1000 {
            assert(dec_digits((n as int) / 10 / 10).len() == 1);
            assert(dec_digits((n as int) / 10).len() == 2);
            assert(dec_digits(n as int).len() == 3);
        } else {
            lemma_dec_len_ge4(n as int);
        }
        assert(final(out)@ =~= old(out)@ + padded_dec(n as int, width as int));
    }
}

/// Formats `value` seconds, read from a clock that starts at the year
/// `start_year`, shifted by a fixed time zone offset, as
/// `YYYY-MM-DD hh:mm:ss`.
pub fn do_time_display(value: u64, start_year: u64, timezone_secs: u64) -> (r: String)
    requires
        value + timezone_secs <= u64::MAX,
        start_year + value + timezone_secs <= u64::MAX,
    ensures
        is_datetime_display(r@, start_year as int, value as int + timezone_secs as int),
{
    let total = value + timezone_secs;
    let parts = civil_from_secs(total, start_year);
    let (y, mo, d, h, mi, s) = parts;
    let mut out = String::new();
    append_padded(&mut out, y, 4);
    out.append("-");
    append_padded(&mut out, mo, 2);
    out.append("-");
    append_padded(&mut out, d, 2);
    out.append(" ");
    append_padded(&mut out, h, 2);
    out.append(":");
    append_padded(&mut out, mi, 2);
    out.append(":");
    append_padded(&mut out, s, 2);
    proof {
        reveal_strlit("-");
        reveal_strlit(" ");
        reveal_strlit(":");
        assert("-"@ =~= seq!['-']);
        assert(" "@ =~= seq![' ']);
        assert(":"@ =~= seq![':']);
        assert(out@ =~= datetime_string(
            y as int,
            mo as int,
            d as int,
            h as int,
            mi as int,
            s as int,
        ));
    }
    out
}

/// Formats a seconds-since-Unix-epoch timestamp at the logger's fixed
/// UTC+8 offset.
pub fn time_display(value: u64) -> (r: String)
    requires
        value + 30770 <= u64::MAX,
    ensures
        is_datetime_display(r@, 1970, value as int + 28800),
{
    do_time_display(value, 1970, 28800)
}

/// Relies on std::time::SystemTime::now, read against the Unix epoch: the
/// clock's seconds since the epoch, or 0 when the clock reads earlier
/// than the epoch. Nothing is promised of the value.
#[verifier::external_body]
fn unix_now_secs() -> (r: u64) {
    match std::time::SystemTime::now().duration_since(std::time::UNIX_EPOCH) {
        Ok(d) => d.as_secs(),
        Err(_) => 0,
    }
}

/// Formats the current time of the system clock, at the logger's fixed
/// UTC+8 offset.
pub fn time_format() -> (r: String)
    ensures
        exists|t: int| 28800 <= t && #[trigger] is_datetime_display(r@, 1970, t),
{
    let now = unix_now_secs();
    let now = if now <= u64::MAX - 30770 {
        now
    } else {
        u64::MAX - 30770
    };
    let r = time_display(now);
    proof {
        assert(0 <= now as int && is_datetime_display(r@, 1970, now as int + 28800));
    }
    r
}

} // verus!
