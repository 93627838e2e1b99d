use vstd::prelude::*;
use chrono::{Datelike, Month, TimeZone, Utc};

verus! {

/// The ASCII digit for `d` (0 <= d < 10).
pub open spec fn digit_char(d: nat) -> char {
    if d == 0 { '0' } else if d == 1 { '1' } else if d == 2 { '2' } else if d == 3 { '3' }
    else if d == 4 { '4' } else if d == 5 { '5' } else if d == 6 { '6' } else if d == 7 { '7' }
    else if d == 8 { '8' } else { '9' }
}

/// Decimal notation of a natural number, without leading zeros.
pub open spec fn nat_decimal(n: nat) -> Seq<char>
    decreases n,
{
    if n < 10 {
        seq![digit_char(n)]
    } else {
        nat_decimal(n / 10).push(digit_char(n % 10))
    }
}

/// Decimal notation of an integer as Rust's `Display` writes it: a leading
/// `-` for negative values, then the digits of the magnitude.
pub open spec fn int_decimal(i: int) -> Seq<char> {
    if i < 0 {
        seq!['-'] + nat_decimal((-i) as nat)
    } else {
        nat_decimal(i as nat)
    }
}

/// English name of a month number as chrono's `Month::name` gives it.
pub open spec fn month_full_name(m: u8) -> Option<Seq<char>> {
    if m == 1 { Some(seq!['J', 'a', 'n', 'u', 'a', 'r', 'y']) }
    else if m == 2 { Some(seq!['F', 'e', 'b', 'r', 'u', 'a', 'r', 'y']) }
    else if m == 3 { Some(seq!['M', 'a', 'r', 'c', 'h']) }
    else if m == 4 { Some(seq!['A', 'p', 'r', 'i', 'l']) }
    else if m == 5 { Some(seq!['M', 'a', 'y']) }
    else if m == 6 { Some(seq!['J', 'u', 'n', 'e']) }
    else if m == 7 { Some(seq!['J', 'u', 'l', 'y']) }
    else if m == 8 { Some(seq!['A', 'u', 'g', 'u', 's', 't']) }
    else if m == 9 { Some(seq!['S', 'e', 'p', 't', 'e', 'm', 'b', 'e', 'r']) }
    else if m == 10 { Some(seq!['O', 'c', 't', 'o', 'b', 'e', 'r']) }
    else if m == 11 { Some(seq!['N', 'o', 'v', 'e', 'm', 'b', 'e', 'r']) }
    else if m == 12 { Some(seq!['D', 'e', 'c', 'e', 'm', 'b', 'e', 'r']) }
    else { None }
}

/// Three-letter abbreviation used in month labels: the first three letters
/// of the month's English name, or "Unk" when the number names no month.
/// The month number is first truncated to a byte, as `month as u8` does.
pub open spec fn month_abbrev(month: i32) -> Seq<char> {
    match month_full_name(month as u8) {
        Some(name) => name.subrange(0, 3),
        None => seq!['U', 'n', 'k'],
    }
}

/// The label of a (year, month) pair, such as "Jan 2024".
pub open spec fn month_label(year: i32, month: i32) -> Seq<char> {
    month_abbrev(month) + seq![' '] + int_decimal(year as int)
}

/// The (year, month) of the day `days` after 1970-01-01 in the proleptic
/// Gregorian calendar (counting through the 400-year eras of 146097 days).
pub open spec fn civil_from_days(days: int) -> (int, int) {
    let z = days + 719468;
    let era = z / 146097;
    let doe = z - era * 146097;
    let yoe = (doe - doe / 1460 + doe / 36524 - doe / 146096) / 365;
    let doy = doe - (365 * yoe + yoe / 4 - yoe / 100);
    let mp = (5 * doy + 2) / 153;
    let m = if mp < 10 { mp + 3 } else { mp - 9 };
    let y = yoe + era * 400;
    (if m <= 2 { y + 1 } else { y }, m)
}

/// Calendar (year, month) of a Unix timestamp in UTC; `None` outside the
/// years -262143..=262142 that chrono represents.
pub open spec fn utc_year_month(ts: i64) -> Option<(i32, u32)> {
    let ym = civil_from_days(ts as int / 86400);
    if -262143 <= ym.0 <= 262142 {
        Some((ym.0 as i32, ym.1 as u32))
    } else {
        None
    }
}

/// (year, month) that `timestamp_to_year_month` reports: the calendar month
/// of the instant, or January 1970 (chrono's default date) when the
/// timestamp is out of chrono's range.
pub open spec fn year_month_of(ts: i64) -> (i32, i32) {
    match utc_year_month(ts) {
        Some((y, m)) => (y, m as i32),
        None => (1970, 1),
    }
}

/// Calls chrono's `Month::try_from(u8)` and `Month::name`: the English month
/// name for 1..=12, `None` for any other byte. The contract restates chrono's
/// table of names.
#[verifier::external_body]
fn chrono_month_name(m: u8) -> (r: Option<&'static str>)
    ensures
        r is Some <==> month_full_name(m) is Some,
        r matches Some(s) ==> s@ == month_full_name(m).unwrap(),
{
    match Month::try_from(m) {
        Ok(month) => Some(month.name()),
        Err(_) => None,
    }
}

/// Calls chrono's `Utc.timestamp_opt(ts, 0).single()` and reads the year and
/// month of the result: chrono counts the day `ts` div 86400 after
/// 1970-01-01 in the proleptic Gregorian calendar, represents the years
/// -262143..=262142, and numbers months 1..=12.
#[verifier::external_body]
fn chrono_year_month(ts: i64) -> (r: Option<(i32, u32)>)
    ensures
        r == utc_year_month(ts),
        r matches Some((y, m)) ==> 1 <= m <= 12,
{
    match Utc.timestamp_opt(ts, 0).single() {
        Some(dt) => Some((dt.year(), dt.month())),
        None => None,
    }
}

/// The one-character string for a decimal digit.
fn digit_str(d: u64) -> (s: &'static str)
    requires
        d < 10,
    ensures
        s@ == seq![digit_char(d as nat)],
{
    proof {
        reveal_strlit("0");
        reveal_strlit("1");
        reveal_strlit("2");
        reveal_strlit("3");
        reveal_strlit("4");
        reveal_strlit("5");
        reveal_strlit("6");
        reveal_strlit("7");
        reveal_strlit("8");
        reveal_strlit("9");
    }
    if d == 0 { "0" } else if d == 1 { "1" } else if d == 2 { "2" } else if d == 3 { "3" }
    else if d == 4 { "4" } else if d == 5 { "5" } else if d == 6 { "6" } else if d == 7 { "7" }
    else if d == 8 { "8" } else { "9" }
}

/// Appends the decimal notation of `n` to `out`.
pub fn push_decimal(out: &mut String, n: u64)
    ensures
        final(out)@ == old(out)@ + nat_decimal(n as nat),
    decreases n,
{
    if n >= 10 {
        push_decimal(out, n / 10);
    }
    out.append(digit_str(n % 10));
    proof {
        if n >= 10 {
            assert(old(out)@ + nat_decimal((n / 10) as nat) + seq![digit_char((n % 10) as nat)]
                =~= old(out)@ + nat_decimal(n as nat));
        } else {
            assert(old(out)@ + seq![digit_char((n % 10) as nat)] =~= old(out)@ + nat_decimal(n as nat));
        }
    }
}

/// Appends the decimal notation of a signed integer, as `Display` writes it.
pub fn push_signed_decimal(out: &mut String, i: i64)
    ensures
        final(out)@ == old(out)@ + int_decimal(i as int),
{
    if i < 0 {
        proof { reveal_strlit("-"); }
        out.append("-");
        let mag: u64 = if i == i64::MIN { 9223372036854775808u64 } else { (-i) as u64 };
        push_decimal(out, mag);
        assert(old(out)@ + seq!['-'] + nat_decimal(mag as nat) =~= old(out)@ + int_decimal(i as int));
    } else {
        push_decimal(out, i as u64);
    }
}

/// Formats a (year, month) pair as "Jan 2024": the first three letters of the
/// month's English name (or "Unk"), a space, and the year.
pub fn format_month_label(year: i32, month: i32) -> (label: String)
    ensures
        label@ == month_label(year, month),
{
    let m8: u8 = month as u8;
    let mut label = match chrono_month_name(m8) {
        Some(name) => String::from_str(name.substring_char(0, 3)),
        None => {
            proof { reveal_strlit("Unk"); }
            String::from_str("Unk")
        },
    };
    proof { reveal_strlit(" "); }
    label.append(" ");
    push_signed_decimal(&mut label, year as i64);
    assert(label@ =~= month_label(year, month));
    label
}

/// Converts a Unix timestamp to its UTC (year, month); a timestamp that
/// chrono cannot represent yields (1970, 1).
pub fn timestamp_to_year_month(ts: i64) -> (r: (i32, i32))
    ensures
        r == year_month_of(ts),
        1 <= r.1 <= 12,
{
    match chrono_year_month(ts) {
        Some((y, m)) => (y, m as i32),
        None => (1970, 1),
    }
}

} // verus!
