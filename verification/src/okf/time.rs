//! UTC timestamps in the `YYYY-MM-DDTHH:MM:SSZ` form written into front
//! matter.

use vstd::prelude::*;

use crate::text::{decimal, push_decimal, string_from_chars};

verus! {

/// The civil date `(year, month, day)` of a day number counted from
/// 1970-01-01, by the era-based conversion the tool uses (all divisions
/// floor divisions).
pub open spec fn civil(days: int) -> (int, int, int) {
    let z = days + 719468;
    let era = (if z >= 0 {
        z
    } else {
        z - 146096
    }) / 146097;
    let doe = z - era * 146097;
    let yoe = (doe - doe / 1460 + doe / 36524 - doe / 146096) / 365;
    let year = yoe + era * 400;
    let doy = doe - (365 * yoe + yoe / 4 - yoe / 100);
    let mp = (5 * doy + 2) / 153;
    let day = doy - (153 * mp + 2) / 5 + 1;
    let month = mp + if mp < 10 {
        3int
    } else {
        -9int
    };
    (year + if month <= 2 {
        1int
    } else {
        0int
    }, month, day)
}

/// Floor division by a positive divisor.
fn div_floor(a: i64, b: i64) -> (q: i64)
    requires
        b > 0,
    ensures
        q == a / b,
{
    assert(i64::MIN <= (a as int) / (b as int) <= i64::MAX) by (nonlinear_arith)
        requires
            b > 0,
            i64::MIN <= a <= i64::MAX,
    ;
    match a.checked_div_euclid(b) {
        Some(q) => q,
        None => {
            assert(false);
            0
        },
    }
}

/// Converts a day number counted from 1970-01-01 into `(year, month, day)`.
pub fn civil_from_days(days: i64) -> (r: (i64, i64, i64))
    requires
        days <= i64::MAX - 719468,
    ensures
        r.0 == civil(days as int).0,
        r.1 == civil(days as int).1,
        r.2 == civil(days as int).2,
{
    let z = days + 719_468;
    let shifted = if z >= 0 {
        z
    } else {
        z - 146_096
    };
    let era = div_floor(shifted, 146_097);
    assert(era * 146097 <= shifted < era * 146097 + 146097) by (nonlinear_arith)
        requires
            era == shifted / 146097,
    ;
    let doe = z - era * 146_097;
    assert(0 <= doe <= 2 * 146097);
    let yoe = div_floor(
        doe - div_floor(doe, 1_460) + div_floor(doe, 36_524) - div_floor(doe, 146_096),
        365,
    );
    assert(0 <= yoe <= 2 * 146097);
    let year = yoe + era * 400;
    let doy = doe - (365 * yoe + div_floor(yoe, 4) - div_floor(yoe, 100));
    let mp = div_floor(5 * doy + 2, 153);
    let day = doy - div_floor(153 * mp + 2, 5) + 1;
    let month = mp + if mp < 10 {
        3
    } else {
        -9
    };
    (year + if month <= 2 {
        1
    } else {
        0
    }, month, day)
}

/// The decimal rendering of an integer, sign first when negative.
pub open spec fn signed_decimal(n: int) -> Seq<char> {
    if n < 0 {
        seq!['-'] + decimal((-n) as nat)
    } else {
        decimal(n as nat)
    }
}

/// `'0'` repeated `n` times.
pub open spec fn zeros(n: int) -> Seq<char>
    decreases n,
{
    if n <= 0 {
        Seq::empty()
    } else {
        zeros(n - 1).push('0')
    }
}

/// `format!("{:0w$}", n)`: the decimal rendering padded with zeros after the
/// sign to at least `w` characters.
pub open spec fn padded(n: int, w: int) -> Seq<char> {
    let digits = decimal((if n < 0 {
        -n
    } else {
        n
    }) as nat);
    let sign: Seq<char> = if n < 0 {
        seq!['-']
    } else {
        Seq::empty()
    };
    sign + zeros(w - sign.len() - digits.len()) + digits
}

fn push_padded(n: i64, w: usize, out: &mut Vec<char>)
    requires
        n > i64::MIN,
        w <= 8,
    ensures
        final(out)@ == old(out)@ + padded(n as int, w as int),
{
    let mut digits: Vec<char> = Vec::new();
    let magnitude: u64 = if n < 0 {
        (-n) as u64
    } else {
        n as u64
    };
    push_decimal(magnitude, &mut digits);
    assert(digits@ == decimal((if n < 0 {
        -n
    } else {
        n as int
    }) as nat));
    let sign_len: usize = if n < 0 {
        out.push('-');
        1
    } else {
        0
    };
    let ghost after_sign = out@;
    let mut fill: usize = 0;
    let target: usize = if w > sign_len && w - sign_len > digits.len() {
        w - sign_len - digits.len()
    } else {
        0
    };
    while fill < target
        invariant
            fill <= target,
            out@ == after_sign + zeros(fill as int),
        decreases target - fill,
    {
        out.push('0');
        fill = fill + 1;
    }
    assert(zeros(target as int) == zeros(w - sign_len - digits@.len())) by {
        if w <= sign_len + digits.len() {
            assert(zeros(target as int) == Seq::<char>::empty());
            assert(zeros(w - sign_len - digits@.len()) == Seq::<char>::empty());
        }
    }
    let ghost before_digits = out@;
    let mut i: usize = 0;
    while i < digits.len()
        invariant
            i <= digits.len(),
            out@ == before_digits + digits@.take(i as int),
        decreases digits.len() - i,
    {
        out.push(digits[i]);
        i = i + 1;
    }
    assert(digits@.take(digits.len() as int) == digits@);
}

/// The timestamp `YYYY-MM-DDTHH:MM:SSZ` of a count of seconds since the Unix
/// epoch.
pub open spec fn timestamp(seconds: int) -> Seq<char> {
    let days = seconds / 86400;
    let day_seconds = seconds % 86400;
    let (year, month, day) = civil(days);
    padded(year, 4) + seq!['-'] + padded(month, 2) + seq!['-'] + padded(day, 2) + seq!['T']
        + padded(day_seconds / 3600, 2) + seq![':'] + padded((day_seconds % 3600) / 60, 2) + seq![
        ':',
    ] + padded(day_seconds % 60, 2) + seq!['Z']
}

/// Renders the UTC timestamp of `seconds` since the Unix epoch.
pub fn utc_timestamp(seconds: i64) -> (s: String)
    ensures
        s@ == timestamp(seconds as int),
{
    let days = div_floor(seconds, 86_400);
    let day_seconds: i64 = match seconds.checked_rem_euclid(86_400) {
        Some(r) => r,
        None => 0,
    };
    assert(day_seconds == (seconds as int) % 86400);
    let (year, month, day) = civil_from_days(days);
    let mut v: Vec<char> = Vec::new();
    push_padded(year, 4, &mut v);
    v.push('-');
    push_padded(month, 2, &mut v);
    v.push('-');
    push_padded(day, 2, &mut v);
    v.push('T');
    push_padded(day_seconds / 3_600, 2, &mut v);
    v.push(':');
    push_padded((day_seconds % 3_600) / 60, 2, &mut v);
    v.push(':');
    push_padded(day_seconds % 60, 2, &mut v);
    v.push('Z');
    string_from_chars(&v)
}

/// `std::time::SystemTime::now()` as whole seconds since the Unix epoch (zero
/// for a clock set before the epoch). Trusted: nothing is promised of the
/// value, which depends on the clock.
#[verifier::external_body]
fn now_unix_seconds() -> (s: u64) {
    std::time::SystemTime::now().duration_since(std::time::UNIX_EPOCH).unwrap_or_default().as_secs()
}

/// The current UTC time as a timestamp.
pub fn current_utc_timestamp() -> (s: String)
    ensures
        exists|seconds: i64| s@ == timestamp(seconds as int),
{
    let seconds = now_unix_seconds() as i64;
    utc_timestamp(seconds)
}

} // verus!
