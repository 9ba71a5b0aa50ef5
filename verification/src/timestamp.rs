//! Reading `YYYY-MM-DDTHH:MM:SS(.fff)?Z` timestamps into Unix epoch
//! milliseconds, and the calendar facts behind the day count.
use vstd::prelude::*;

verus! {

/// ASCII `0`..=`9`.
pub open spec fn is_digit(b: u8) -> bool {
    48 <= b <= 57
}

pub open spec fn all_digits(s: Seq<u8>) -> bool {
    forall|i: int| 0 <= i < s.len() ==> is_digit(#[trigger] s[i])
}

/// The number that a run of ASCII digits spells in base ten.
pub open spec fn digits_value(s: Seq<u8>) -> int
    decreases s.len(),
{
    if s.len() == 0 {
        0
    } else {
        digits_value(s.drop_last()) * 10 + (s.last() - 48)
    }
}

pub open spec fn pow10(n: nat) -> int
    decreases n,
{
    if n == 0 {
        1
    } else {
        10 * pow10((n - 1) as nat)
    }
}

/// What `str::parse::<i64>` gives for a short field: an optional `+` or `-`
/// followed by at least one ASCII digit, and nothing else.
pub open spec fn signed_value(s: Seq<u8>) -> Option<int> {
    if s.len() >= 1 && (s[0] == 43 || s[0] == 45) {
        let rest = s.drop_first();
        if rest.len() >= 1 && all_digits(rest) {
            Some(if s[0] == 45 { -digits_value(rest) } else { digits_value(rest) })
        } else {
            None
        }
    } else if s.len() >= 1 && all_digits(s) {
        Some(digits_value(s))
    } else {
        None
    }
}

/// The field at bytes `lo..hi` of `b`.
pub open spec fn field(b: Seq<u8>, lo: int, hi: int) -> Option<int> {
    signed_value(b.subrange(lo, hi))
}

/// Days from 1970-01-01 to the given civil date, in the closed form that
/// counts years from 1 March of year 0 (so that a leap day ends a year):
/// `mp` is the month index from March, `y2` the year that March starts.
pub open spec fn civil_days(y: int, m: int, d: int) -> int {
    let y2 = if m <= 2 { y - 1 } else { y };
    let mp = (m + 9) % 12;
    365 * y2 + y2 / 4 - y2 / 100 + y2 / 400 + (153 * mp + 2) / 5 + d - 1 - 719468
}

/// Milliseconds since the Unix epoch of the given civil date and time.
pub open spec fn epoch_millis(y: int, mo: int, d: int, hh: int, mm: int, ss: int, ms: int) -> int {
    ((civil_days(y, mo, d) * 86400) + hh * 3600 + mm * 60 + ss) * 1000 + ms
}

/// The milliseconds field: `.fff` at byte 19 when a `.` stands there, else zero.
pub open spec fn fraction_field(b: Seq<u8>) -> Option<int> {
    if b.len() > 19 && b[19] == 46 {
        if b.len() >= 23 {
            field(b, 20, 23)
        } else {
            None
        }
    } else {
        Some(0)
    }
}

/// What a timestamp's UTF-8 bytes are read as: the year at bytes 0..4, the
/// month at 5..7, the day at 8..10, hours at 11..13, minutes at 14..16,
/// seconds at 17..19 and the optional fraction, each field parsed as a signed
/// decimal; the separators between them are not looked at.
pub open spec fn timestamp_millis(b: Seq<u8>) -> Option<int> {
    if b.len() < 19 {
        None
    } else {
        match (
            field(b, 0, 4),
            field(b, 5, 7),
            field(b, 8, 10),
            field(b, 11, 13),
            field(b, 14, 16),
            field(b, 17, 19),
            fraction_field(b),
        ) {
            (Some(y), Some(mo), Some(d), Some(hh), Some(mm), Some(ss), Some(ms)) => Some(
                epoch_millis(y, mo, d, hh, mm, ss, ms),
            ),
            _ => None,
        }
    }
}

proof fn lemma_digits_value_bound(s: Seq<u8>)
    requires
        all_digits(s),
    ensures
        0 <= digits_value(s) < pow10(s.len()),
    decreases s.len(),
{
    if s.len() > 0 {
        assert(all_digits(s.drop_last())) by {
            assert forall|i: int| 0 <= i < s.drop_last().len() implies is_digit(
                #[trigger] s.drop_last()[i],
            ) by {
                assert(s.drop_last()[i] == s[i]);
            }
        }
        lemma_digits_value_bound(s.drop_last());
        assert(is_digit(s[s.len() - 1]));
    }
}

/// The digits at `lo..hi`, if they all are digits.
fn digit_run(b: &[u8], lo: usize, hi: usize) -> (r: Option<i64>)
    requires
        lo <= hi <= b.len(),
        hi - lo <= 4,
    ensures
        r is Some <==> all_digits(b@.subrange(lo as int, hi as int)),
        r matches Some(v) ==> v == digits_value(b@.subrange(lo as int, hi as int)),
{
    let mut acc: i64 = 0;
    let mut i: usize = lo;
    while i < hi
        invariant
            lo <= i <= hi <= b.len(),
            hi - lo <= 4,
            all_digits(b@.subrange(lo as int, i as int)),
            acc == digits_value(b@.subrange(lo as int, i as int)),
        decreases hi - i,
    {
        let c = b[i];
        if c < 48 || c > 57 {
            assert(!is_digit(b@.subrange(lo as int, hi as int)[i - lo]));
            return None;
        }
        proof {
            lemma_digits_value_bound(b@.subrange(lo as int, i as int));
            reveal_with_fuel(pow10, 5);
            assert(b@.subrange(lo as int, i + 1).drop_last() =~= b@.subrange(lo as int, i as int));
            assert(pow10((i - lo) as nat) <= 1000);
        }
        acc = acc * 10 + (c - 48) as i64;
        i += 1;
        assert(all_digits(b@.subrange(lo as int, i as int))) by {
            assert forall|k: int| 0 <= k < i - lo implies is_digit(
                #[trigger] b@.subrange(lo as int, i as int)[k],
            ) by {
                if k < i - 1 - lo {
                    assert(b@.subrange(lo as int, i as int)[k] == b@.subrange(
                        lo as int,
                        i - 1,
                    )[k]);
                }
            }
        }
    }
    Some(acc)
}

/// The signed field at `lo..hi`, parsed as `str::parse::<i64>` parses it.
fn signed_field(b: &[u8], lo: usize, hi: usize) -> (r: Option<i64>)
    requires
        lo < hi <= b.len(),
        hi - lo <= 4,
    ensures
        match r {
            Some(v) => field(b@, lo as int, hi as int) == Some(v as int) && -pow10(
                (hi - lo - 1) as nat,
            ) < v < pow10((hi - lo) as nat),
            None => field(b@, lo as int, hi as int) is None,
        },
{
    let ghost s = b@.subrange(lo as int, hi as int);
    let first = b[lo];
    if first == 43 || first == 45 {
        if hi - lo < 2 {
            return None;
        }
        assert(s.drop_first() =~= b@.subrange(lo + 1, hi as int));
        match digit_run(b, lo + 1, hi) {
            Some(v) => {
                proof {
                    lemma_digits_value_bound(s.drop_first());
                    reveal_with_fuel(pow10, 5);
                    assert(pow10((hi - lo - 1) as nat) <= pow10((hi - lo) as nat));
                }
                if first == 45 {
                    Some(-v)
                } else {
                    Some(v)
                }
            },
            None => None,
        }
    } else {
        match digit_run(b, lo, hi) {
            Some(v) => {
                proof {
                    lemma_digits_value_bound(s);
                    reveal_with_fuel(pow10, 5);
                    assert(pow10((hi - lo - 1) as nat) > 0);
                }
                Some(v)
            },
            None => None,
        }
    }
}


/// `floor(x / 400)` for the signed `x` that the civil-day count starts from.
proof fn lemma_era(y2: int)
    requires
        -20000 < y2 < 20000,
    ensures
        y2 < 0 ==> -((399 - y2) / 400) == y2 / 400,
{
    if y2 < 0 {
        let q = y2 / 400;
        let r = y2 % 400;
        vstd::arithmetic::div_mod::lemma_fundamental_div_mod(y2, 400);
        assert(399 - y2 == 400 * (-q) + (399 - r));
        vstd::arithmetic::div_mod::lemma_fundamental_div_mod_converse(399 - y2, 400, -q, 399 - r);
    }
}

/// The closed form of `civil_days` agrees with the era / year-of-era split.
proof fn lemma_era_split(y2: int, era: int, yoe: int)
    requires
        y2 == era * 400 + yoe,
        0 <= yoe < 400,
    ensures
        era * 146097 + yoe * 365 + yoe / 4 - yoe / 100 == 365 * y2 + y2 / 4 - y2 / 100 + y2 / 400,
{
    vstd::arithmetic::div_mod::lemma_fundamental_div_mod_converse(y2, 4, era * 100 + yoe / 4, yoe % 4);
    vstd::arithmetic::div_mod::lemma_fundamental_div_mod_converse(y2, 100, era * 4 + yoe / 100, yoe % 100);
    vstd::arithmetic::div_mod::lemma_fundamental_div_mod_converse(y2, 400, era, yoe);
}

/// Days from 1970-01-01 to the civil date `y-mo-d`.
fn days_from_civil(y: i64, mo: i64, d: i64) -> (r: i64)
    requires
        -1000 < y < 10000,
        -10 < mo < 100,
        -10 < d < 100,
    ensures
        r == civil_days(y as int, mo as int, d as int),
{
    let y2 = if mo <= 2 {
        y - 1
    } else {
        y
    };
    let era = (if y2 >= 0 {
        y2
    } else {
        y2 - 399
    }) / 400;
    proof {
        lemma_era(y2 as int);
        vstd::arithmetic::div_mod::lemma_fundamental_div_mod(y2 as int, 400);
    }
    let yoe = y2 - era * 400;
    let mp = (mo + 9) % 12;
    let doy = (153 * mp + 2) / 5 + d - 1;
    let doe = yoe * 365 + yoe / 4 - yoe / 100 + doy;
    proof {
        lemma_era_split(y2 as int, era as int, yoe as int);
    }
    era * 146097 + doe - 719468
}

/// A timestamp read as Unix epoch milliseconds.
pub struct DateTime {
    pub millis: i64,
}

impl DateTime {
    /// Reads `s` as described by `timestamp_millis`; `Err(())` exactly when
    /// that gives nothing.
    pub fn parse(s: &str) -> (r: Result<DateTime, ()>)
        ensures
            match r {
                Ok(t) => timestamp_millis(vstd::utf8::encode_utf8(s@)) == Some(t.millis as int),
                Err(()) => timestamp_millis(vstd::utf8::encode_utf8(s@)) is None,
            },
    {
        let b = s.as_bytes();
        if b.len() < 19 {
            return Err(());
        }
        proof {
            reveal_with_fuel(pow10, 5);
        }
        let y = match signed_field(b, 0, 4) { Some(v) => v, None => return Err(()) };
        let mo = match signed_field(b, 5, 7) { Some(v) => v, None => return Err(()) };
        let d = match signed_field(b, 8, 10) { Some(v) => v, None => return Err(()) };
        let hh = match signed_field(b, 11, 13) { Some(v) => v, None => return Err(()) };
        let mm = match signed_field(b, 14, 16) { Some(v) => v, None => return Err(()) };
        let ss = match signed_field(b, 17, 19) { Some(v) => v, None => return Err(()) };
        let mut ms: i64 = 0;
        if b.len() > 19 && b[19] == 46 {
            if b.len() < 23 {
                return Err(());
            }
            ms = match signed_field(b, 20, 23) { Some(v) => v, None => return Err(()) };
        }
        let days = days_from_civil(y, mo, d);
        proof {
            assert(-5000000 < days < 5000000) by (nonlinear_arith)
                requires
                    days == civil_days(y as int, mo as int, d as int),
                    -1000 < y < 10000,
                    -10 < mo < 100,
                    -10 < d < 100,
            {
                let y2: int = if mo <= 2 { y - 1 } else { y as int };
                let mp: int = (mo + 9) % 12;
                assert(0 <= mp < 12);
                assert(0 <= (153 * mp + 2) / 5 <= 400);
                assert(-1001 <= y2 / 4 <= 2500);
                assert(-101 <= y2 / 100 <= 100);
                assert(-101 <= y2 / 400 <= 100);
            }
        }
        Ok(DateTime { millis: ((days * 86400) + hh * 3600 + mm * 60 + ss) * 1000 + ms })
    }
}

impl core::str::FromStr for DateTime {
    type Err = ();

    fn from_str(s: &str) -> (r: Result<DateTime, ()>)
        ensures
            match r {
                Ok(t) => timestamp_millis(vstd::utf8::encode_utf8(s@)) == Some(t.millis as int),
                Err(()) => timestamp_millis(vstd::utf8::encode_utf8(s@)) is None,
            },
    {
        DateTime::parse(s)
    }
}


/// Gregorian leap years: every fourth year, except centuries not divisible by 400.
pub open spec fn is_leap_year(y: int) -> bool {
    (y % 4 == 0 && y % 100 != 0) || y % 400 == 0
}

pub open spec fn year_length(y: int) -> int {
    if is_leap_year(y) {
        366
    } else {
        365
    }
}

/// Days in month `m` (1 = January) of year `y`.
pub open spec fn month_length(y: int, m: int) -> int {
    if m == 2 {
        if is_leap_year(y) {
            29
        } else {
            28
        }
    } else if m == 4 || m == 6 || m == 9 || m == 11 {
        30
    } else {
        31
    }
}

/// Days from 1970-01-01 to 1 January of year `y`, counted year by year.
pub open spec fn days_before_year(y: int) -> int
    decreases (if y >= 1970 { y - 1970 } else { 1970 - y }),
{
    if y == 1970 {
        0
    } else if y > 1970 {
        days_before_year(y - 1) + year_length(y - 1)
    } else {
        days_before_year(y + 1) - year_length(y)
    }
}

/// Days in the months of year `y` before month `m`.
pub open spec fn days_before_month(y: int, m: int) -> int
    decreases m,
{
    if m <= 1 {
        0
    } else {
        days_before_month(y, m - 1) + month_length(y, m - 1)
    }
}

/// Days from 1970-01-01 to `y-m-d`, counted through the calendar.
pub open spec fn calendar_days(y: int, m: int, d: int) -> int {
    days_before_year(y) + days_before_month(y, m) + d - 1
}

/// Stepping `x` by one moves `x / k` exactly when `k` divides `x`.
proof fn lemma_floor_step(x: int, k: int)
    requires
        k > 0,
    ensures
        x / k - (x - 1) / k == (if x % k == 0 { 1int } else { 0int }),
{
    let q = x / k;
    let r = x % k;
    vstd::arithmetic::div_mod::lemma_fundamental_div_mod(x, k);
    assert(x - 1 == (q - 1) * k + (r + k - 1) && x - 1 == q * k + (r - 1)) by (nonlinear_arith)
        requires
            x == k * q + r,
    ;
    if r == 0 {
        vstd::arithmetic::div_mod::lemma_fundamental_div_mod_converse(x - 1, k, q - 1, k - 1);
    } else {
        vstd::arithmetic::div_mod::lemma_fundamental_div_mod_converse(x - 1, k, q, r - 1);
    }
}

/// A multiple of `a * b` is a multiple of `b`.
proof fn lemma_multiple_of_factor(y: int, a: int, b: int)
    requires
        a > 0,
        b > 0,
        y % (a * b) == 0,
    ensures
        y % b == 0,
{
    assert(a * b > 0) by (nonlinear_arith)
        requires
            a > 0,
            b > 0,
    ;
    vstd::arithmetic::div_mod::lemma_fundamental_div_mod(y, a * b);
    let q = y / (a * b);
    assert(y == b * (a * q)) by (nonlinear_arith)
        requires
            y == (a * b) * q + 0,
    ;
    vstd::arithmetic::div_mod::lemma_fundamental_div_mod_converse(y, b, a * q, 0);
}

/// From one New Year's day to the next, the closed form advances by the
/// length of the year.
proof fn lemma_civil_year_step(y: int)
    ensures
        civil_days(y + 1, 1, 1) - civil_days(y, 1, 1) == year_length(y),
        civil_days(y, 3, 1) - civil_days(y, 1, 1) == year_length(y) - 306,
{
    lemma_floor_step(y, 4);
    lemma_floor_step(y, 100);
    lemma_floor_step(y, 400);
    if y % 400 == 0 {
        lemma_multiple_of_factor(y, 4, 100);
        lemma_multiple_of_factor(y, 100, 4);
    }
    if y % 100 == 0 {
        lemma_multiple_of_factor(y, 25, 4);
    }
    assert(((1int + 9) % 12) == 10);
    assert(((3int + 9) % 12) == 0);
}

proof fn lemma_days_before_year_step(y: int)
    ensures
        days_before_year(y + 1) - days_before_year(y) == year_length(y),
{
    if y + 1 == 1970 {
        assert(days_before_year(y) == days_before_year(y + 1) - year_length(y));
    }
}

proof fn lemma_new_year(y: int)
    ensures
        civil_days(y, 1, 1) == days_before_year(y),
    decreases (if y >= 1970 { y - 1970 } else { 1970 - y }),
{
    if y == 1970 {
        assert(civil_days(1970, 1, 1) == 0);
    } else if y > 1970 {
        lemma_new_year(y - 1);
        lemma_civil_year_step(y - 1);
        lemma_days_before_year_step(y - 1);
    } else {
        lemma_new_year(y + 1);
        lemma_civil_year_step(y);
        lemma_days_before_year_step(y);
    }
}

/// The day count that `DateTime` uses is the calendar's: for every month of
/// every year, `civil_days` counts the days from 1970-01-01 month by month
/// and year by year in the proleptic Gregorian calendar.
pub proof fn law_civil_days_count_the_calendar(y: int, m: int, d: int)
    requires
        1 <= m <= 12,
    ensures
        civil_days(y, m, d) == calendar_days(y, m, d),
{
    lemma_new_year(y);
    lemma_civil_year_step(y);
    reveal_with_fuel(days_before_month, 13);
    assert(civil_days(y, m, d) == civil_days(y, m, 1) + d - 1);
    if m <= 2 {
        assert(((m + 9) % 12) == m + 9);
    } else {
        assert(((m + 9) % 12) == m - 3);
    }
}


/// The last `width` decimal digits of `n`, as ASCII bytes.
pub open spec fn padded_digits(n: int, width: nat) -> Seq<u8>
    decreases width,
{
    if width == 0 {
        Seq::empty()
    } else {
        padded_digits(n / 10, (width - 1) as nat).push((48 + n % 10) as u8)
    }
}

/// The UTF-8 bytes of `YYYY-MM-DDTHH:MM:SSZ`, or of `YYYY-MM-DDTHH:MM:SS.fffZ`
/// when a fraction is given.
pub open spec fn timestamp_text(
    y: int,
    mo: int,
    d: int,
    hh: int,
    mm: int,
    ss: int,
    fraction: Option<int>,
) -> Seq<u8> {
    let head = padded_digits(y, 4) + seq![45u8] + padded_digits(mo, 2) + seq![45u8]
        + padded_digits(d, 2) + seq![84u8] + padded_digits(hh, 2) + seq![58u8]
        + padded_digits(mm, 2) + seq![58u8] + padded_digits(ss, 2);
    match fraction {
        Some(ms) => head + seq![46u8] + padded_digits(ms, 3) + seq![90u8],
        None => head + seq![90u8],
    }
}

/// Milliseconds since 1970-01-01T00:00:00Z, counted through the calendar.
pub open spec fn unix_millis(y: int, mo: int, d: int, hh: int, mm: int, ss: int, ms: int) -> int {
    ((calendar_days(y, mo, d) * 86400) + hh * 3600 + mm * 60 + ss) * 1000 + ms
}

proof fn lemma_padded_digits(n: int, width: nat)
    requires
        0 <= n < pow10(width),
    ensures
        padded_digits(n, width).len() == width,
        all_digits(padded_digits(n, width)),
        digits_value(padded_digits(n, width)) == n,
    decreases width,
{
    if width > 0 {
        vstd::arithmetic::div_mod::lemma_fundamental_div_mod(n, 10);
        let q = n / 10;
        assert(0 <= q < pow10((width - 1) as nat));
        lemma_padded_digits(q, (width - 1) as nat);
        let p = padded_digits(n, width);
        assert(p.drop_last() =~= padded_digits(q, (width - 1) as nat));
        assert forall|i: int| 0 <= i < p.len() implies is_digit(#[trigger] p[i]) by {
            if i < p.len() - 1 {
                assert(p[i] == padded_digits(q, (width - 1) as nat)[i]);
            }
        }
    }
}

proof fn lemma_padded_field(b: Seq<u8>, lo: int, n: int, width: nat)
    requires
        0 <= n < pow10(width),
        width >= 1,
        0 <= lo,
        lo + width <= b.len(),
        b.subrange(lo, lo + width) == padded_digits(n, width),
    ensures
        field(b, lo, lo + width) == Some(n),
{
    lemma_padded_digits(n, width);
    let s = b.subrange(lo, lo + width);
    assert(is_digit(s[0]));
}

/// A timestamp written in the form the agent emits reads back as its
/// instant: for every date of the calendar and every time of day, the text
/// `YYYY-MM-DDTHH:MM:SS(.fff)?Z` gives the milliseconds since the epoch.
pub proof fn law_timestamp_text_reads_back(
    y: int,
    mo: int,
    d: int,
    hh: int,
    mm: int,
    ss: int,
    fraction: Option<int>,
)
    requires
        0 <= y <= 9999,
        1 <= mo <= 12,
        0 <= d <= 99,
        0 <= hh <= 99,
        0 <= mm <= 99,
        0 <= ss <= 99,
        fraction matches Some(ms) ==> 0 <= ms <= 999,
    ensures
        timestamp_millis(timestamp_text(y, mo, d, hh, mm, ss, fraction)) == Some(
            unix_millis(
                y,
                mo,
                d,
                hh,
                mm,
                ss,
                match fraction {
                    Some(ms) => ms,
                    None => 0,
                },
            ),
        ),
{
    reveal_with_fuel(pow10, 5);
    let b = timestamp_text(y, mo, d, hh, mm, ss, fraction);
    lemma_padded_digits(y, 4);
    lemma_padded_digits(mo, 2);
    lemma_padded_digits(d, 2);
    lemma_padded_digits(hh, 2);
    lemma_padded_digits(mm, 2);
    lemma_padded_digits(ss, 2);
    assert(b.subrange(0, 4) =~= padded_digits(y, 4));
    assert(b.subrange(5, 7) =~= padded_digits(mo, 2));
    assert(b.subrange(8, 10) =~= padded_digits(d, 2));
    assert(b.subrange(11, 13) =~= padded_digits(hh, 2));
    assert(b.subrange(14, 16) =~= padded_digits(mm, 2));
    assert(b.subrange(17, 19) =~= padded_digits(ss, 2));
    lemma_padded_field(b, 0, y, 4);
    lemma_padded_field(b, 5, mo, 2);
    lemma_padded_field(b, 8, d, 2);
    lemma_padded_field(b, 11, hh, 2);
    lemma_padded_field(b, 14, mm, 2);
    lemma_padded_field(b, 17, ss, 2);
    match fraction {
        Some(ms) => {
            lemma_padded_digits(ms, 3);
            assert(b.subrange(20, 23) =~= padded_digits(ms, 3));
            lemma_padded_field(b, 20, ms, 3);
            assert(b[19] == 46u8);
        },
        None => {
            assert(b[19] == 90u8);
        },
    }
    law_civil_days_count_the_calendar(y, mo, d);
}


/// A date of the calendar and a time of day: month 1..12, a day of that
/// month, hours 0..23, minutes and seconds 0..59, milliseconds 0..999.
pub open spec fn is_valid_instant(t: (int, int, int, int, int, int, int)) -> bool {
    &&& 1 <= t.1 <= 12
    &&& 1 <= t.2 <= month_length(t.0, t.1)
    &&& 0 <= t.3 < 24
    &&& 0 <= t.4 < 60
    &&& 0 <= t.5 < 60
    &&& 0 <= t.6 < 1000
}

/// `a` comes before `b`: year, month, day, hour, minute, second and
/// millisecond compared in that order.
pub open spec fn instant_before(
    a: (int, int, int, int, int, int, int),
    b: (int, int, int, int, int, int, int),
) -> bool {
    ||| a.0 < b.0
    ||| a.0 == b.0 && a.1 < b.1
    ||| a.0 == b.0 && a.1 == b.1 && a.2 < b.2
    ||| a.0 == b.0 && a.1 == b.1 && a.2 == b.2 && a.3 < b.3
    ||| a.0 == b.0 && a.1 == b.1 && a.2 == b.2 && a.3 == b.3 && a.4 < b.4
    ||| a.0 == b.0 && a.1 == b.1 && a.2 == b.2 && a.3 == b.3 && a.4 == b.4 && a.5 < b.5
    ||| a.0 == b.0 && a.1 == b.1 && a.2 == b.2 && a.3 == b.3 && a.4 == b.4 && a.5 == b.5 && a.6
        < b.6
}

pub open spec fn instant_millis(t: (int, int, int, int, int, int, int)) -> int {
    unix_millis(t.0, t.1, t.2, t.3, t.4, t.5, t.6)
}

proof fn lemma_days_before_month_grows(y: int, m1: int, m2: int)
    requires
        1 <= m1 < m2,
    ensures
        days_before_month(y, m1) + month_length(y, m1) <= days_before_month(y, m2),
    decreases m2,
{
    if m2 > m1 + 1 {
        lemma_days_before_month_grows(y, m1, m2 - 1);
    }
}

proof fn lemma_days_before_month_nonneg(y: int, m: int)
    ensures
        days_before_month(y, m) >= 0,
    decreases m,
{
    if m > 1 {
        lemma_days_before_month_nonneg(y, m - 1);
    }
}

proof fn lemma_days_before_year_grows(y1: int, y2: int)
    requires
        y1 < y2,
    ensures
        days_before_year(y1) + year_length(y1) <= days_before_year(y2),
    decreases y2 - y1,
{
    lemma_days_before_year_step(y2 - 1);
    if y2 > y1 + 1 {
        lemma_days_before_year_grows(y1, y2 - 1);
    }
}

proof fn lemma_date_before(a: (int, int, int, int, int, int, int), b: (int, int, int, int, int, int, int))
    requires
        is_valid_instant(a),
        is_valid_instant(b),
        a.0 < b.0 || (a.0 == b.0 && a.1 < b.1) || (a.0 == b.0 && a.1 == b.1 && a.2 < b.2),
    ensures
        calendar_days(a.0, a.1, a.2) < calendar_days(b.0, b.1, b.2),
{
    lemma_days_before_month_nonneg(b.0, b.1);
    if a.0 < b.0 {
        reveal_with_fuel(days_before_month, 13);
        lemma_days_before_year_grows(a.0, b.0);
        if a.1 < 13 {
            lemma_days_before_month_grows(a.0, a.1, 13);
        }
        assert(days_before_month(a.0, 13) == year_length(a.0));
    } else if a.1 < b.1 {
        lemma_days_before_month_grows(a.0, a.1, b.1);
    }
}

/// A later instant has more epoch milliseconds: the epoch-millisecond count
/// is strictly increasing along the calendar.
pub proof fn law_later_instant_larger_millis(
    a: (int, int, int, int, int, int, int),
    b: (int, int, int, int, int, int, int),
)
    requires
        is_valid_instant(a),
        is_valid_instant(b),
        instant_before(a, b),
    ensures
        instant_millis(a) < instant_millis(b),
{
    let da = calendar_days(a.0, a.1, a.2);
    let db = calendar_days(b.0, b.1, b.2);
    let ta = (a.3 * 3600 + a.4 * 60 + a.5) * 1000 + a.6;
    let tb = (b.3 * 3600 + b.4 * 60 + b.5) * 1000 + b.6;
    assert(instant_millis(a) == da * 86400000 + ta);
    assert(instant_millis(b) == db * 86400000 + tb);
    assert(0 <= ta < 86400000 && 0 <= tb < 86400000);
    if a.0 < b.0 || (a.0 == b.0 && a.1 < b.1) || (a.0 == b.0 && a.1 == b.1 && a.2 < b.2) {
        lemma_date_before(a, b);
        assert(da * 86400000 + ta < db * 86400000 + tb) by (nonlinear_arith)
            requires
                da + 1 <= db,
                0 <= ta < 86400000,
                0 <= tb,
        ;
    }
}

/// Of two timestamp texts of the same shape, the one naming the later instant
/// reads as the larger epoch-millisecond count.
pub proof fn law_later_timestamp_reads_larger(
    a: (int, int, int, int, int, int, int),
    b: (int, int, int, int, int, int, int),
    with_fraction: bool,
)
    requires
        is_valid_instant(a),
        is_valid_instant(b),
        0 <= a.0 <= 9999,
        0 <= b.0 <= 9999,
        !with_fraction ==> a.6 == 0 && b.6 == 0,
        instant_before(a, b),
    ensures
        ({
            let fa = if with_fraction { Some(a.6) } else { None };
            let fb = if with_fraction { Some(b.6) } else { None };
            let ma = timestamp_millis(timestamp_text(a.0, a.1, a.2, a.3, a.4, a.5, fa));
            let mb = timestamp_millis(timestamp_text(b.0, b.1, b.2, b.3, b.4, b.5, fb));
            ma is Some && mb is Some && ma.unwrap() < mb.unwrap()
        }),
{
    let fa = if with_fraction { Some(a.6) } else { None };
    let fb = if with_fraction { Some(b.6) } else { None };
    law_timestamp_text_reads_back(a.0, a.1, a.2, a.3, a.4, a.5, fa);
    law_timestamp_text_reads_back(b.0, b.1, b.2, b.3, b.4, b.5, fb);
    law_later_instant_larger_millis(a, b);
}


/// `a` sorts before `b` byte by byte (texts of the same length).
pub open spec fn bytes_before(a: Seq<u8>, b: Seq<u8>) -> bool {
    &&& a.len() == b.len()
    &&& exists|i: int| 0 <= i < a.len() && a.take(i) == b.take(i) && a[i] < b[i]
}

proof fn lemma_digits_order(s1: Seq<u8>, s2: Seq<u8>, j: int)
    requires
        s1.len() == s2.len(),
        all_digits(s1),
        all_digits(s2),
        0 <= j < s1.len(),
        s1.take(j) == s2.take(j),
        s1[j] < s2[j],
    ensures
        digits_value(s1) < digits_value(s2),
    decreases s1.len(),
{
    let n = s1.len() - 1;
    let d1 = s1.drop_last();
    let d2 = s2.drop_last();
    assert(all_digits(d1)) by {
        assert forall|k: int| 0 <= k < d1.len() implies is_digit(#[trigger] d1[k]) by {
            assert(d1[k] == s1[k]);
        }
    }
    assert(all_digits(d2)) by {
        assert forall|k: int| 0 <= k < d2.len() implies is_digit(#[trigger] d2[k]) by {
            assert(d2[k] == s2[k]);
        }
    }
    assert(is_digit(s1[n]) && is_digit(s2[n]));
    if j < n {
        assert(d1.take(j) =~= s1.take(j));
        assert(d2.take(j) =~= s2.take(j));
        lemma_digits_order(d1, d2, j);
    } else {
        assert(d1 =~= s1.take(j));
        assert(d2 =~= s2.take(j));
    }
}

proof fn lemma_field_compare(
    ta: Seq<u8>,
    tb: Seq<u8>,
    i: int,
    lo: int,
    w: nat,
    na: int,
    nb: int,
)
    requires
        0 <= lo,
        lo + w <= ta.len(),
        ta.len() == tb.len(),
        0 <= na < pow10(w),
        0 <= nb < pow10(w),
        ta.subrange(lo, lo + w) == padded_digits(na, w),
        tb.subrange(lo, lo + w) == padded_digits(nb, w),
        0 <= i < ta.len(),
        ta.take(i) == tb.take(i),
    ensures
        i >= lo + w ==> na == nb,
        lo <= i < lo + w && ta[i] < tb[i] ==> na < nb,
{
    lemma_padded_digits(na, w);
    lemma_padded_digits(nb, w);
    let pa = padded_digits(na, w);
    let pb = padded_digits(nb, w);
    if i >= lo + w {
        assert forall|t: int| 0 <= t < w implies pa[t] == pb[t] by {
            assert(ta[lo + t] == ta.take(i)[lo + t]);
            assert(tb[lo + t] == tb.take(i)[lo + t]);
            assert(pa[t] == ta.subrange(lo, lo + w)[t]);
            assert(pb[t] == tb.subrange(lo, lo + w)[t]);
        }
        assert(pa =~= pb);
    }
    if lo <= i < lo + w && ta[i] < tb[i] {
        let j = i - lo;
        assert forall|t: int| 0 <= t < j implies pa.take(j)[t] == pb.take(j)[t] by {
            assert(ta[lo + t] == ta.take(i)[lo + t]);
            assert(tb[lo + t] == tb.take(i)[lo + t]);
            assert(pa[t] == ta.subrange(lo, lo + w)[t]);
            assert(pb[t] == tb.subrange(lo, lo + w)[t]);
        }
        assert(pa.take(j) =~= pb.take(j));
        assert(pa[j] == ta.subrange(lo, lo + w)[j]);
        assert(pb[j] == tb.subrange(lo, lo + w)[j]);
        lemma_digits_order(pa, pb, j);
    }
}

proof fn lemma_text_layout(t: (int, int, int, int, int, int, int), fraction: Option<int>)
    requires
        0 <= t.0 <= 9999,
        0 <= t.1 <= 99,
        0 <= t.2 <= 99,
        0 <= t.3 <= 99,
        0 <= t.4 <= 99,
        0 <= t.5 <= 99,
        fraction matches Some(ms) ==> 0 <= ms <= 999,
    ensures
        ({
            let b = timestamp_text(t.0, t.1, t.2, t.3, t.4, t.5, fraction);
            &&& b.len() == (if fraction is Some { 24int } else { 20int })
            &&& b.subrange(0, 4) == padded_digits(t.0, 4)
            &&& b.subrange(5, 7) == padded_digits(t.1, 2)
            &&& b.subrange(8, 10) == padded_digits(t.2, 2)
            &&& b.subrange(11, 13) == padded_digits(t.3, 2)
            &&& b.subrange(14, 16) == padded_digits(t.4, 2)
            &&& b.subrange(17, 19) == padded_digits(t.5, 2)
            &&& b[4] == 45 && b[7] == 45 && b[10] == 84 && b[13] == 58 && b[16] == 58
            &&& fraction matches Some(ms) ==> b.subrange(20, 23) == padded_digits(ms, 3) && b[19]
                == 46 && b[23] == 90
            &&& fraction is None ==> b[19] == 90
        }),
{
    reveal_with_fuel(pow10, 5);
    lemma_padded_digits(t.0, 4);
    lemma_padded_digits(t.1, 2);
    lemma_padded_digits(t.2, 2);
    lemma_padded_digits(t.3, 2);
    lemma_padded_digits(t.4, 2);
    lemma_padded_digits(t.5, 2);
    let b = timestamp_text(t.0, t.1, t.2, t.3, t.4, t.5, fraction);
    assert(b.subrange(0, 4) =~= padded_digits(t.0, 4));
    assert(b.subrange(5, 7) =~= padded_digits(t.1, 2));
    assert(b.subrange(8, 10) =~= padded_digits(t.2, 2));
    assert(b.subrange(11, 13) =~= padded_digits(t.3, 2));
    assert(b.subrange(14, 16) =~= padded_digits(t.4, 2));
    assert(b.subrange(17, 19) =~= padded_digits(t.5, 2));
    if let Some(ms) = fraction {
        lemma_padded_digits(ms, 3);
        assert(b.subrange(20, 23) =~= padded_digits(ms, 3));
    }
}

/// String order is time order: of two timestamp texts of the same shape for
/// valid instants, the one that sorts first byte by byte names the earlier
/// instant and reads as the smaller epoch-millisecond count.
pub proof fn law_text_order_is_time_order(
    a: (int, int, int, int, int, int, int),
    b: (int, int, int, int, int, int, int),
    with_fraction: bool,
)
    requires
        is_valid_instant(a),
        is_valid_instant(b),
        0 <= a.0 <= 9999,
        0 <= b.0 <= 9999,
        !with_fraction ==> a.6 == 0 && b.6 == 0,
        bytes_before(
            timestamp_text(a.0, a.1, a.2, a.3, a.4, a.5, if with_fraction { Some(a.6) } else { None }),
            timestamp_text(b.0, b.1, b.2, b.3, b.4, b.5, if with_fraction { Some(b.6) } else { None }),
        ),
    ensures
        instant_before(a, b),
        ({
            let fa = if with_fraction { Some(a.6) } else { None };
            let fb = if with_fraction { Some(b.6) } else { None };
            timestamp_millis(timestamp_text(a.0, a.1, a.2, a.3, a.4, a.5, fa)).unwrap()
                < timestamp_millis(timestamp_text(b.0, b.1, b.2, b.3, b.4, b.5, fb)).unwrap()
        }),
{
    reveal_with_fuel(pow10, 5);
    let fa = if with_fraction { Some(a.6) } else { None };
    let fb = if with_fraction { Some(b.6) } else { None };
    let ta = timestamp_text(a.0, a.1, a.2, a.3, a.4, a.5, fa);
    let tb = timestamp_text(b.0, b.1, b.2, b.3, b.4, b.5, fb);
    lemma_text_layout(a, fa);
    lemma_text_layout(b, fb);
    let i = choose|i: int| 0 <= i < ta.len() && ta.take(i) == tb.take(i) && ta[i] < tb[i];
    lemma_field_compare(ta, tb, i, 0, 4, a.0, b.0);
    lemma_field_compare(ta, tb, i, 5, 2, a.1, b.1);
    lemma_field_compare(ta, tb, i, 8, 2, a.2, b.2);
    lemma_field_compare(ta, tb, i, 11, 2, a.3, b.3);
    lemma_field_compare(ta, tb, i, 14, 2, a.4, b.4);
    lemma_field_compare(ta, tb, i, 17, 2, a.5, b.5);
    if with_fraction {
        lemma_field_compare(ta, tb, i, 20, 3, a.6, b.6);
    }
    law_later_timestamp_reads_larger(a, b, with_fraction);
}

} // verus!
