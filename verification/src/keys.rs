//! Opening and sharing lockboxes: access labels, new lockbox paths, session
//! durations and the UTC timestamps printed for keys and publications.

use vstd::prelude::*;
use crate::text;
use crate::paths;
use crate::messages::ApiError;

verus! {

/// The name shown for an access label: without its `identity:` or `contact:` prefix.
pub open spec fn entry_name_of(label: Seq<char>) -> Seq<char> {
    if text::has_prefix(label, "identity:"@) {
        label.subrange("identity:"@.len() as int, label.len() as int)
    } else if text::has_prefix(label, "contact:"@) {
        label.subrange("contact:"@.len() as int, label.len() as int)
    } else {
        label
    }
}

/// The name shown for an access label.
pub fn access_entry_name(label: &str) -> (r: String)
    ensures r@ == entry_name_of(label@),
{
    if let Some(rest) = text::strip_prefix(label, "identity:") {
        return text::owned(rest);
    }
    if let Some(rest) = text::strip_prefix(label, "contact:") {
        return text::owned(rest);
    }
    text::owned(label)
}

/// The path of a new lockbox: the given path, with the `lbox` extension when
/// it has none.
pub open spec fn new_lockbox_path(path: Seq<char>) -> Seq<char> {
    if paths::extension_of(path) is None { paths::with_extension_of(path, "lbox"@) } else { path }
}

/// The path of a new lockbox.
pub fn create_path(path: &str) -> (r: String)
    ensures r@ == new_lockbox_path(path@),
{
    if paths::extension(path).is_none() {
        proof {
            reveal_strlit("lbox");
            assert(!"lbox"@.contains('/') && !"lbox"@.contains('\\')) by {
                assert("lbox"@ =~= seq!['l', 'b', 'o', 'x']);
            }
        }
        paths::with_extension(path, "lbox")
    } else {
        text::owned(path)
    }
}

/// The value of a string of decimal digits.
pub open spec fn digits_value(d: Seq<char>) -> nat
    decreases d.len(),
{
    if d.len() == 0 {
        0
    } else {
        digits_value(d.drop_last()) * 10 + (d.last() as nat - 48) as nat
    }
}

proof fn lemma_digits_value_grows(d: Seq<char>, i: int)
    requires
        0 <= i <= d.len(),
        forall|k: int| 0 <= k < d.len() ==> text::is_digit(#[trigger] d[k]),
    ensures digits_value(d.subrange(0, i)) <= digits_value(d),
    decreases d.len() - i,
{
    if i < d.len() {
        assert(d.subrange(0, i + 1).drop_last() =~= d.subrange(0, i));
        lemma_digits_value_grows(d, i + 1);
    } else {
        assert(d.subrange(0, i) =~= d);
    }
}

/// Parses a non-empty run of decimal digits that fits in a `u64`.
fn parse_digits_u64(d: &str) -> (r: Option<u64>)
    requires forall|k: int| 0 <= k < d@.len() ==> text::is_digit(#[trigger] d@[k]),
    ensures
        r is Some <==> (d@.len() > 0 && digits_value(d@) <= u64::MAX),
        r matches Some(v) ==> v as nat == digits_value(d@),
{
    let m = d.unicode_len();
    if m == 0 {
        return None;
    }
    let mut value: u64 = 0;
    let mut i: usize = 0;
    let mut overflow = false;
    while i < m
        invariant
            i <= m,
            m == d@.len(),
            forall|k: int| 0 <= k < d@.len() ==> text::is_digit(#[trigger] d@[k]),
            !overflow ==> value as nat == digits_value(d@.subrange(0, i as int)),
            overflow ==> digits_value(d@.subrange(0, i as int)) > u64::MAX,
        decreases m - i,
    {
        let c = d.get_char(i);
        assert(text::is_digit(d@[i as int]));
        let dv = ((c as u32) - 48) as u64;
        assert(d@.subrange(0, i + 1).drop_last() =~= d@.subrange(0, i as int));
        if !overflow {
            if value > (u64::MAX - dv) / 10 {
                overflow = true;
                assert(value * 10 + dv > u64::MAX) by (nonlinear_arith)
                    requires value > (u64::MAX - dv) / 10, dv <= 9;
            } else {
                assert(value * 10 + dv <= u64::MAX) by (nonlinear_arith)
                    requires value <= (u64::MAX - dv) / 10, dv <= 9;
                value = value * 10 + dv;
            }
        }
        i = i + 1;
    }
    assert(d@.subrange(0, m as int) =~= d@);
    if overflow {
        return None;
    }
    Some(value)
}

/// Seconds in each duration unit.
pub open spec fn unit_seconds(unit: Seq<char>) -> Option<nat> {
    if unit == ""@ || unit == "s"@ || unit == "sec"@ || unit == "secs"@ {
        Some(1)
    } else if unit == "m"@ || unit == "min"@ || unit == "mins"@ {
        Some(60)
    } else if unit == "h"@ || unit == "hr"@ || unit == "hrs"@ {
        Some(3600)
    } else if unit == "d"@ || unit == "day"@ || unit == "days"@ {
        Some(86400)
    } else {
        None
    }
}

/// The outcome of parsing a duration such as `30m`: the number of seconds,
/// or the message of the refusal.
pub open spec fn duration_of(value: Seq<char>) -> Result<nat, Seq<char>> {
    let v = text::trim(value);
    if v.len() == 0 {
        Err("duration cannot be empty"@)
    } else {
        let k = text::lead_len(v, text::digit_pred());
        let number = v.subrange(0, k as int);
        let unit = v.subrange(k as int, v.len() as int);
        if number.len() == 0 || digits_value(number) > u64::MAX {
            Err("invalid duration: "@ + v)
        } else if digits_value(number) == 0 {
            Err("duration must be greater than zero"@)
        } else {
            match unit_seconds(unit) {
                None => Err("invalid duration unit: "@ + unit),
                Some(mult) => if digits_value(number) * mult > u64::MAX {
                    Err("duration is too large: "@ + v)
                } else {
                    Ok(digits_value(number) * mult)
                },
            }
        }
    }
}

/// Parses a session duration: a positive number of seconds, minutes, hours or
/// days (`90`, `30m`, `2h`, `1d`).
pub fn parse_duration(value: &str) -> (r: Result<u64, ApiError>)
    ensures
        match duration_of(value@) {
            Ok(n) => r matches Ok(v) && v as nat == n,
            Err(m) => r matches Err(ApiError::InvalidInput(e)) && e@ == m,
        },
{
    let v = text::str_trim(value);
    let n = v.unicode_len();
    if n == 0 {
        return Err(ApiError::InvalidInput(text::owned("duration cannot be empty")));
    }
    let mut k: usize = 0;
    while k < n && text::char_is_digit(v.get_char(k))
        invariant
            k <= n,
            n == v@.len(),
            forall|j: int| 0 <= j < k ==> text::is_digit(#[trigger] v@[j]),
        decreases n - k,
    {
        k = k + 1;
    }
    proof { text::lemma_lead_len(v@, text::digit_pred(), k as int); }
    let number = v.substring_char(0, k);
    let unit = v.substring_char(k, n);
    let amount = match parse_digits_u64(number) {
        None => return Err(ApiError::InvalidInput(text::concat2("invalid duration: ", v))),
        Some(a) => a,
    };
    if amount == 0 {
        return Err(ApiError::InvalidInput(text::owned("duration must be greater than zero")));
    }
    let multiplier: u64 = if text::str_eq(unit, "") || text::str_eq(unit, "s") || text::str_eq(unit, "sec") || text::str_eq(unit, "secs") {
        1
    } else if text::str_eq(unit, "m") || text::str_eq(unit, "min") || text::str_eq(unit, "mins") {
        60
    } else if text::str_eq(unit, "h") || text::str_eq(unit, "hr") || text::str_eq(unit, "hrs") {
        3600
    } else if text::str_eq(unit, "d") || text::str_eq(unit, "day") || text::str_eq(unit, "days") {
        86400
    } else {
        return Err(ApiError::InvalidInput(text::concat2("invalid duration unit: ", unit)));
    };
    match amount.checked_mul(multiplier) {
        None => Err(ApiError::InvalidInput(text::concat2("duration is too large: ", v))),
        Some(total) => Ok(total),
    }
}

/// The proleptic Gregorian leap-year rule.
pub open spec fn is_leap(y: int) -> bool {
    y % 4 == 0 && (y % 100 != 0 || y % 400 == 0)
}

/// The number of days in a month.
pub open spec fn month_days(y: int, m: int) -> int {
    if m == 2 {
        if is_leap(y) { 29 } else { 28 }
    } else if m == 4 || m == 6 || m == 9 || m == 11 {
        30
    } else {
        31
    }
}

/// The number of leap years from year 1 through year `y`.
pub open spec fn leaps_through(y: int) -> int {
    y / 4 - y / 100 + y / 400
}

/// The number of days of a year before the first of a month.
pub open spec fn days_before_month(y: int, m: int) -> int {
    (if m == 1 { 0int } else if m == 2 { 31 } else if m == 3 { 59 } else if m == 4 { 90 }
    else if m == 5 { 120 } else if m == 6 { 151 } else if m == 7 { 181 } else if m == 8 { 212 }
    else if m == 9 { 243 } else if m == 10 { 273 } else if m == 11 { 304 } else { 334 })
        + (if m > 2 && is_leap(y) { 1int } else { 0int })
}

/// The number of days from 1970-01-01 to a civil date.
pub open spec fn days_from_civil(y: int, m: int, d: int) -> int {
    365 * (y - 1970) + (leaps_through(y - 1) - leaps_through(1969)) + days_before_month(y, m) + (d - 1)
}

/// The era computation of the day-to-date conversion, for any day number.
pub open spec fn civil_formula(days: int) -> (int, int, int) {
    let z = days + 719468;
    let era = (if z >= 0 { z } else { z - 146096 }) / 146097;
    let doe = z - era * 146097;
    let yoe = (doe - doe / 1460 + doe / 36524 - doe / 146096) / 365;
    let y = yoe + era * 400;
    let doy = doe - (365 * yoe + yoe / 4 - yoe / 100);
    let mp = (5 * doy + 2) / 153;
    let day = doy - (153 * mp + 2) / 5 + 1;
    let month = mp + if mp < 10 { 3int } else { -9int };
    let year = y + if month <= 2 { 1int } else { 0int };
    (year, month, day)
}

proof fn lemma_year_of_era(doe: int)
    requires 0 <= doe <= 146096,
    ensures ({
        let yoe = (doe - doe / 1460 + doe / 36524 - doe / 146096) / 365;
        let doy = doe - (365 * yoe + yoe / 4 - yoe / 100);
        &&& 0 <= yoe <= 399
        &&& 0 <= doy
        &&& doy <= 364 + (if is_leap(yoe + 1) { 1int } else { 0int })
    }),
{
}

/// A civil date `(year, month, day)` is the date of a day number counted
/// from 1970-01-01: a valid month, a day within it, and that day number.
pub open spec fn is_date_of(days: int, date: (int, int, int)) -> bool {
    &&& 1 <= date.1 <= 12
    &&& 1 <= date.2 <= month_days(date.0, date.1)
    &&& days_from_civil(date.0, date.1, date.2) == days
}

/// The civil date of a day number counted from 1970-01-01.
pub open spec fn civil_date(days: int) -> (int, int, int) {
    choose|date: (int, int, int)| is_date_of(days, date)
}

/// The first day of a year, as a day number.
spec fn year_start(y: int) -> int {
    days_from_civil(y, 1, 1)
}

#[verifier::spinoff_prover]
proof fn lemma_leap_step(y: int)
    ensures leaps_through(y) - leaps_through(y - 1) == (if is_leap(y) { 1int } else { 0int }),
{
}

proof fn lemma_date_within_year(y: int, m: int, d: int)
    requires
        1 <= m <= 12,
        1 <= d <= month_days(y, m),
    ensures year_start(y) <= days_from_civil(y, m, d) < year_start(y + 1),
{
    lemma_leap_step(y);
}

proof fn lemma_year_start_grows(a: int, b: int)
    requires a <= b,
    ensures year_start(a) <= year_start(b),
    decreases b - a,
{
    if a < b {
        lemma_leap_step(b - 1);
        lemma_year_start_grows(a, b - 1);
    }
}

/// Two valid civil dates with the same day number are the same date.
pub proof fn lemma_civil_date_unique(days: int, a: (int, int, int), b: (int, int, int))
    requires
        is_date_of(days, a),
        is_date_of(days, b),
    ensures a == b,
{
    lemma_date_within_year(a.0, a.1, a.2);
    lemma_date_within_year(b.0, b.1, b.2);
    if a.0 < b.0 {
        lemma_year_start_grows(a.0 + 1, b.0);
    } else if b.0 < a.0 {
        lemma_year_start_grows(b.0 + 1, a.0);
    }
}

proof fn lemma_month_of_year_day(doy: int, leap: bool)
    requires 0 <= doy <= 364 + (if leap { 1int } else { 0int }),
    ensures ({
        let mp = (5 * doy + 2) / 153;
        let day = doy - (153 * mp + 2) / 5 + 1;
        let month = mp + if mp < 10 { 3int } else { -9int };
        &&& 1 <= month <= 12
        &&& 1 <= day
        &&& month == 2 ==> day <= 28 + (if leap { 1int } else { 0int })
        &&& month != 2 ==> day <= month_days(0, month)
        &&& month >= 3 ==> (153 * mp + 2) / 5 == days_before_month(1, month) - 59
        &&& month <= 2 ==> (153 * mp + 2) / 5 == days_before_month(1, month) + 306
    }),
{
}

proof fn lemma_era_shift(era: int, yoe: int)
    requires 0 <= yoe <= 399,
    ensures
        leaps_through(yoe + era * 400) == yoe / 4 - yoe / 100 + 97 * era,
        is_leap(yoe + era * 400 + 1) == is_leap(yoe + 1),
{
}

/// From 0000-02-29 on, the era computation gives the civil date of a day number.
pub proof fn lemma_civil_formula_is_civil_date(days: int)
    requires days >= -719469,
    ensures
        is_date_of(days, civil_formula(days)),
        civil_date(days) == civil_formula(days),
{
    let z = days + 719468;
    let era = z / 146097;
    let doe = z - era * 146097;
    assert(0 <= doe < 146097);
    lemma_year_of_era(doe);
    let yoe = (doe - doe / 1460 + doe / 36524 - doe / 146096) / 365;
    let y = yoe + era * 400;
    let doy = doe - (365 * yoe + yoe / 4 - yoe / 100);
    let leap = is_leap(yoe + 1);
    lemma_month_of_year_day(doy, leap);
    lemma_era_shift(era, yoe);
    let mp = (5 * doy + 2) / 153;
    let day = doy - (153 * mp + 2) / 5 + 1;
    let month = mp + if mp < 10 { 3int } else { -9int };
    let year = y + if month <= 2 { 1int } else { 0int };
    assert(civil_formula(days) == (year, month, day));
    lemma_leap_step(y);
    assert(days_from_civil(year, month, day) == days);
    assert(is_date_of(days, (year, month, day)));
    let c = civil_date(days);
    lemma_civil_date_unique(days, c, (year, month, day));
}

/// Floor division of a signed value by a positive divisor.
fn div_floor(a: i64, b: i64) -> (r: i64)
    requires
        b > 0,
        a > i64::MIN + b,
    ensures r == a as int / b as int,
{
    if a >= 0 {
        a / b
    } else {
        let q = (-a + b - 1) / b;
        assert(-(q as int) == a as int / b as int) by (nonlinear_arith)
            requires q as int == (-(a as int) + b as int - 1) / (b as int), a < 0, b > 0;
        -q
    }
}

/// The date after a valid civil date.
pub open spec fn next_date(date: (int, int, int)) -> (int, int, int) {
    if date.2 < month_days(date.0, date.1) {
        (date.0, date.1, date.2 + 1)
    } else if date.1 < 12 {
        (date.0, date.1 + 1, 1)
    } else {
        (date.0 + 1, 1, 1)
    }
}

/// Below day -719469 the era formula no longer counts civil days: days
/// -719470 and -719469 both read as 0000-02-29, so the next-day law fails at
/// day -719470.
pub proof fn lemma_civil_formula_repeats_a_day()
    ensures
        civil_formula(-719470) == (0int, 2int, 29int),
        civil_formula(-719469) == (0int, 2int, 29int),
        civil_formula(-719469) != next_date(civil_formula(-719470)),
{
    assert((-146098int) / 146097 == -2);
    assert((-146097int) / 146097 == -1);
    assert(292192int / 1460 == 200 && 292192int / 36524 == 8 && 292192int / 146096 == 2);
    assert((292192int - 200 + 8 - 2) / 365 == 799);
    assert(146096int / 1460 == 100 && 146096int / 36524 == 4 && 146096int / 146096 == 1);
    assert((146096int - 100 + 4 - 1) / 365 == 399);
    assert(799int / 4 == 199 && 799int / 100 == 7);
    assert(399int / 4 == 99 && 399int / 100 == 3);
    assert((5 * 365int + 2) / 153 == 11 && (153 * 11int + 2) / 5 == 337);
    assert(civil_formula(-719470) == (0int, 2int, 29int));
    assert(civil_formula(-719469) == (0int, 2int, 29int));
    assert(is_leap(0));
}

#[verifier::spinoff_prover]
proof fn lemma_next_date_days(date: (int, int, int))
    requires
        1 <= date.1 <= 12,
        1 <= date.2 <= month_days(date.0, date.1),
    ensures
        days_from_civil(next_date(date).0, next_date(date).1, next_date(date).2)
            == days_from_civil(date.0, date.1, date.2) + 1,
        1 <= next_date(date).1 <= 12,
        1 <= next_date(date).2 <= month_days(next_date(date).0, next_date(date).1),
{
    let (y, m, d) = date;
    if d < month_days(y, m) {
    } else if m < 12 {
        assert(days_before_month(y, m + 1) == days_before_month(y, m) + month_days(y, m));
    } else {
        lemma_leap_step(y);
        assert(days_from_civil(y + 1, 1, 1) == 365 * (y + 1 - 1970) + (leaps_through(y) - leaps_through(1969)));
        assert(days_from_civil(y, 12, 31) == 365 * (y - 1970) + (leaps_through(y - 1) - leaps_through(1969))
            + 334 + (if is_leap(y) { 1int } else { 0int }) + 30);
    }
}

/// Day numbers count civil days: day 0 is 1970-01-01, every day number has a
/// valid month and day, and the next day number has the next date. It holds
/// from 0000-02-29 (day -719469) on.
pub proof fn lemma_civil_date_next_day(days: int)
    requires days >= -719469,
    ensures
        civil_date(0) == (1970int, 1int, 1int),
        1 <= civil_date(days).1 <= 12,
        1 <= civil_date(days).2 <= month_days(civil_date(days).0, civil_date(days).1),
        civil_date(days + 1) == next_date(civil_date(days)),
{
    lemma_civil_formula_is_civil_date(0);
    assert(is_date_of(0, (1970int, 1int, 1int)));
    lemma_civil_date_unique(0, civil_date(0), (1970int, 1int, 1int));
    lemma_civil_formula_is_civil_date(days);
    lemma_civil_formula_is_civil_date(days + 1);
    let date = civil_date(days);
    let n = next_date(date);
    lemma_next_date_days(date);
    assert(is_date_of(days + 1, n));
    lemma_civil_date_unique(days + 1, civil_date(days + 1), n);
}

/// The civil date (year, month, day) of a day number counted from 1970-01-01.
/// Before 0000-02-29 the era computation no longer lands in its era, and the
/// result is only what that computation gives.
#[verifier::spinoff_prover]
#[verifier::rlimit(30)]
pub fn civil_from_days(days: i64) -> (r: (i64, i64, i64))
    requires days <= i64::MAX - 719468,
    ensures
        days >= -719469 ==> (r.0 as int, r.1 as int, r.2 as int) == civil_date(days as int),
        (r.0 as int, r.1 as int, r.2 as int) == civil_formula(days as int),
{
    proof {
        if days >= -719469 {
            lemma_civil_formula_is_civil_date(days as int);
        }
    }
    let z = days + 719468;
    let era = if z >= 0 { z / 146097 } else { div_floor(z - 146096, 146097) };
    assert(era as int == (if z >= 0 { z as int } else { z - 146096 }) / 146097);
    assert(era * 146097 <= z) by (nonlinear_arith)
        requires era as int == (if z >= 0 { z as int } else { z - 146096 }) / 146097;
    assert(z - era * 146097 < 2 * 146097) by (nonlinear_arith)
        requires era as int == (if z >= 0 { z as int } else { z - 146096 }) / 146097;
    let doe = z - era * 146097;
    let yoe = (doe - doe / 1460 + doe / 36524 - doe / 146096) / 365;
    assert(yoe <= doe);
    assert(era * 400 >= -(z as int) && era * 400 <= z || era * 400 >= -(i64::MAX as int)) by (nonlinear_arith)
        requires era as int == (if z >= 0 { z as int } else { z - 146096 }) / 146097, z >= i64::MIN + 719468;
    let y = yoe + era * 400;
    let doy = doe - (365 * yoe + yoe / 4 - yoe / 100);
    let mp = div_floor(5 * doy + 2, 153);
    let day = doy - div_floor(153 * mp + 2, 5) + 1;
    let month = mp + if mp < 10 { 3 } else { -9 };
    let year = y + if month <= 2 { 1 } else { 0 };
    (year, month, day)
}

/// The `YYYY/MM/DD HH:MM UTC` text of a number of seconds since 1970-01-01.
pub open spec fn utc_text(seconds: nat) -> Seq<char> {
    let days = seconds / 86400;
    let of_day = seconds % 86400;
    let (year, month, day) = civil_date(days as int);
    text::signed_padded(year, 4) + "/"@ + text::signed_padded(month, 2) + "/"@
        + text::signed_padded(day, 2) + " "@ + text::dec_padded(of_day / 3600, 2) + ":"@
        + text::dec_padded((of_day % 3600) / 60, 2) + " UTC"@
}

fn utc_from_seconds(seconds: u64) -> (r: String)
    requires seconds <= i64::MAX,
    ensures r@ == utc_text(seconds as nat),
{
    let days = seconds / 86400;
    let of_day = seconds % 86400;
    let (year, month, day) = civil_from_days(days as i64);
    assert(year > i64::MIN && month > i64::MIN && day > i64::MIN) by {
        assert(days as int / 1 >= 0);
    }
    let mut out = text::signed_padded_text(year, 4);
    text::push_str(&mut out, "/");
    let t = text::signed_padded_text(month, 2);
    text::push_str(&mut out, t.as_str());
    text::push_str(&mut out, "/");
    let t = text::signed_padded_text(day, 2);
    text::push_str(&mut out, t.as_str());
    text::push_str(&mut out, " ");
    let t = text::decimal_padded(of_day / 3600, 2);
    text::push_str(&mut out, t.as_str());
    text::push_str(&mut out, ":");
    let t = text::decimal_padded((of_day % 3600) / 60, 2);
    text::push_str(&mut out, t.as_str());
    text::push_str(&mut out, " UTC");
    out
}

/// The UTC time of a millisecond timestamp, to the minute.
pub fn format_unix_ms_utc(unix_ms: u64) -> (r: String)
    ensures r@ == utc_text((unix_ms / 1000) as nat),
{
    utc_from_seconds(unix_ms / 1000)
}

/// The text of a moment given in whole seconds since 1970-01-01, or `-` for
/// a moment before it (`None`).
pub open spec fn system_time_text(seconds: Option<u64>) -> Seq<char> {
    match seconds {
        Some(s) => utc_text(s as nat),
        None => "-"@,
    }
}

/// A moment given as whole seconds reads as the same moment given in
/// milliseconds: `format_system_time_utc` of the seconds of `ms` gives the
/// text of `format_unix_ms_utc(ms)`.
pub proof fn lemma_system_time_agrees_with_unix_ms(ms: u64)
    ensures system_time_text(Some((ms / 1000) as u64)) == utc_text((ms / 1000) as nat),
{
}

/// The UTC time of a moment given in whole seconds since 1970-01-01, or `-`
/// for a moment before it (`None`).
pub fn format_system_time_utc(seconds: Option<u64>) -> (r: String)
    requires seconds matches Some(s) ==> s <= i64::MAX,
    ensures r@ == system_time_text(seconds),
{
    match seconds {
        Some(s) => utc_from_seconds(s),
        None => text::owned("-"),
    }
}

/// The value of the first `open_duration` or `session_duration` setting
/// among configuration lines (comments after `#` ignored, quotes removed).
pub open spec fn configured_duration(ls: Seq<Seq<char>>) -> Option<Seq<char>>
    decreases ls.len(),
{
    if ls.len() == 0 {
        None
    } else {
        let line = text::trim(crate::vault::uncommented(ls[0]));
        match text::split_once_char(line, ':') {
            Some((key, value)) => {
                let k = text::trim(key);
                if k == "open_duration"@ || k == "session_duration"@ {
                    Some(text::trim_matches_char(text::trim_matches_char(text::trim(value), '"'), '\''))
                } else {
                    configured_duration(ls.drop_first())
                }
            },
            None => configured_duration(ls.drop_first()),
        }
    }
}

/// How long a lockbox stays open by default: `LOCKBOX_OPEN_DURATION` when it
/// is set, else the configuration's setting, else no limit of its own.
pub fn default_session_duration(env_value: Option<&str>, config: Option<&str>) -> (r: Result<Option<u64>, ApiError>)
    ensures
        match env_value {
            Some(v) => match duration_of(v@) {
                Ok(n) => r matches Ok(Some(x)) && x as nat == n,
                Err(m) => r matches Err(ApiError::InvalidInput(e)) && e@ == m,
            },
            None => match config {
                None => r matches Ok(None),
                Some(t) => match configured_duration(text::lines(t@)) {
                    None => r matches Ok(None),
                    Some(v) => match duration_of(v) {
                        Ok(n) => r matches Ok(Some(x)) && x as nat == n,
                        Err(m) => r matches Err(ApiError::InvalidInput(e)) && e@ == m,
                    },
                },
            },
        },
{
    if let Some(v) = env_value {
        return match parse_duration(v) {
            Ok(n) => Ok(Some(n)),
            Err(e) => Err(e),
        };
    }
    let t = match config {
        None => return Ok(None),
        Some(t) => t,
    };
    let ls = text::split_lines(t);
    let ghost lv = ls@.map_values(|l: &str| l@);
    let mut i: usize = 0;
    assert(lv.subrange(0, lv.len() as int) =~= lv);
    while i < ls.len()
        invariant
            i <= ls@.len(),
            lv == ls@.map_values(|l: &str| l@),
            lv == text::lines(t@),
            env_value is None,
            config == Some(t),
            configured_duration(lv) == configured_duration(lv.subrange(i as int, lv.len() as int)),
        decreases ls@.len() - i,
    {
        let ghost tail = lv.subrange(i as int, lv.len() as int);
        assert(tail[0] == ls@[i as int]@);
        assert(tail.drop_first() =~= lv.subrange(i + 1, lv.len() as int));
        let raw = ls[i];
        let before = match text::split_once_char_str(raw, '#') {
            Some((value, _)) => value,
            None => raw,
        };
        let line = text::str_trim(before);
        match text::split_once_char_str(line, ':') {
            Some((key, value)) => {
                let k = text::str_trim(key);
                if text::str_eq(k, "open_duration") || text::str_eq(k, "session_duration") {
                    let v = text::trim_matches_char_str(text::trim_matches_char_str(text::str_trim(value), '"'), '\'');
                    return match parse_duration(v) {
                        Ok(n) => Ok(Some(n)),
                        Err(e) => Err(e),
                    };
                }
            },
            None => {},
        }
        i = i + 1;
    }
    assert(lv.subrange(ls@.len() as int, lv.len() as int) =~= Seq::<Seq<char>>::empty());
    Ok(None)
}

} // verus!
