use vstd::prelude::*;
use vstd::arithmetic::div_mod::lemma_fundamental_div_mod_converse;
use crate::scanner::exif::{civil_seconds, civil_timestamp_of, days_from_civil, days_in_month, is_leap_year, valid_civil};
use crate::util::time::{civil_from_days, year_month_of};

verus! {

/// Whether the March-based year `yoe` of a 400-year era ends with a
/// February 29 (the calendar year yoe + 1 is a leap year).
pub open spec fn march_year_is_long(yoe: int) -> bool {
    let k = yoe + 1;
    k % 4 == 0 && (k % 100 != 0 || k % 400 == 0)
}

/// Day of the era of the first day of March-based year `yoe`.
pub open spec fn year_start(yoe: int) -> int {
    365 * yoe + yoe / 4 - yoe / 100
}

/// The year of the era that day `x` of the era falls in.
pub open spec fn year_of_era_day(x: int) -> int {
    (x - x / 1460 + x / 36524 - x / 146096) / 365
}

/// A day within March-based year `yoe` of an era lies in that year.
proof fn lemma_era_day_year(yoe: int, doy: int)
    requires
        0 <= yoe < 400,
        0 <= doy < (if march_year_is_long(yoe) { 366int } else { 365int }),
    ensures
        0 <= year_start(yoe) + doy < 146097,
        year_of_era_day(year_start(yoe) + doy) == yoe,
{
    let c = yoe / 100;
    let t = yoe % 100;
    let s = t / 4;
    let u = t % 4;
    assert(yoe == 100 * c + 4 * s + u);
    assert(0 <= c <= 3 && 0 <= s <= 24 && 0 <= u <= 3);
    lemma_fundamental_div_mod_converse(yoe, 4, 25 * c + s, u);
    lemma_fundamental_div_mod_converse(yoe, 100, c, t);
    let x = year_start(yoe) + doy;
    assert(x == 36524 * c + 1461 * s + 365 * u + doy);
    // The long years are those ending a 4-year cycle, but the century ones
    // other than the era's last.
    assert(march_year_is_long(yoe) ==> u == 3) by {
        let k = yoe + 1;
        if k % 4 == 0 {
            lemma_fundamental_div_mod_converse(k, 4, 25 * c + s + 1, 0);
            assert(u == 3);
        }
    }
    assert((march_year_is_long(yoe) && s == 24) ==> c == 3) by {
        if march_year_is_long(yoe) && s == 24 && c < 3 {
            let k = yoe + 1;
            assert(k == 100 * (c + 1));
            lemma_fundamental_div_mod_converse(k, 100, c + 1, 0);
            lemma_fundamental_div_mod_converse(k, 400, 0, k);
        }
    }
    let last = c == 3 && s == 24 && u == 3 && doy == 365;
    assert(0 <= x <= 146096);
    // x / 146096 and x / 36524
    if last {
        assert(x == 146096);
        lemma_fundamental_div_mod_converse(x, 146096, 1, 0);
        lemma_fundamental_div_mod_converse(x, 36524, 4, 0);
    } else {
        assert(x < 146096);
        lemma_fundamental_div_mod_converse(x, 146096, 0, x);
        assert(1461 * s + 365 * u + doy < 36524);
        lemma_fundamental_div_mod_converse(x, 36524, c, 1461 * s + 365 * u + doy);
    }
    // x / 1460
    let e = 24 * c + s + 365 * u + doy;
    assert(x == 1460 * (25 * c + s) + e);
    assert(0 <= e < 2920);
    if e >= 1460 {
        lemma_fundamental_div_mod_converse(x, 1460, 25 * c + s + 1, e - 1460);
        assert(doy >= 1);
    } else {
        lemma_fundamental_div_mod_converse(x, 1460, 25 * c + s, e);
    }
    let n = x - x / 1460 + x / 36524 - x / 146096;
    let adj: int = if e >= 1460 { 1 } else { 0 };
    assert(n == 365 * yoe + doy - adj);
    assert(doy == 365 ==> adj == 1);
    assert(0 <= doy - adj <= 364);
    lemma_fundamental_div_mod_converse(n, 365, yoe, doy - adj);
}

/// The month of a day of a March-based year, counted from March.
proof fn lemma_month_of_day(mp: int, d: int, len: int)
    requires
        0 <= mp < 12,
        1 <= d <= len,
        len == (if mp == 11 { 29int } else if mp == 1 || mp == 3 || mp == 6 || mp == 8 { 30int } else { 31int }),
    ensures
        (5 * ((153 * mp + 2) / 5 + d - 1) + 2) / 153 == mp,
{
    let b = (153 * mp + 2) / 5;
    let doy = b + d - 1;
    if mp == 0 { assert(b == 0); }
    else if mp == 1 { assert(b == 31); }
    else if mp == 2 { assert(b == 61); }
    else if mp == 3 { assert(b == 92); }
    else if mp == 4 { assert(b == 122); }
    else if mp == 5 { assert(b == 153); }
    else if mp == 6 { assert(b == 184); }
    else if mp == 7 { assert(b == 214); }
    else if mp == 8 { assert(b == 245); }
    else if mp == 9 { assert(b == 275); }
    else if mp == 10 { assert(b == 306); }
    else { assert(b == 337); }
    let v = 5 * doy + 2;
    assert(153 * mp <= v < 153 * mp + 153);
    lemma_fundamental_div_mod_converse(v, 153, mp, v - 153 * mp);
}

/// Counting the days of a date from 1970 and reading the date back gives
/// the date's year and month.
pub proof fn lemma_civil_round_trip(y: int, m: int, d: int)
    requires
        1 <= m <= 12,
        1 <= d <= days_in_month(y, m),
    ensures
        civil_from_days(days_from_civil(y, m, d)) == (y, m),
{
    let yy = if m <= 2 { y - 1 } else { y };
    let era = yy / 400;
    let yoe = yy - era * 400;
    let mp = if m > 2 { m - 3 } else { m + 9 };
    let doy = (153 * mp + 2) / 5 + d - 1;
    let doe = yoe * 365 + yoe / 4 - yoe / 100 + doy;
    assert(0 <= yoe < 400);
    // February has 29 days exactly when its March-based year is long.
    assert(m == 2 ==> (is_leap_year(y) == march_year_is_long(yoe))) by {
        if m == 2 {
            assert(y == 400 * era + yoe + 1);
            let k = yoe + 1;
            lemma_fundamental_div_mod_converse(y, 4, 100 * era + k / 4, k % 4);
            lemma_fundamental_div_mod_converse(y, 100, 4 * era + k / 100, k % 100);
            lemma_fundamental_div_mod_converse(y, 400, era + k / 400, k % 400);
        }
    }
    let len: int = if mp == 11 { 29int } else if mp == 1 || mp == 3 || mp == 6 || mp == 8 { 30int } else { 31int };
    assert(d <= len);
    lemma_month_of_day(mp, d, len);
    assert(0 <= doy < (if march_year_is_long(yoe) { 366int } else { 365int })) by {
        if mp == 11 {
            assert(doy == 336 + d);
        }
    }
    lemma_era_day_year(yoe, doy);
    assert(doe == year_start(yoe) + doy);
    let z = days_from_civil(y, m, d) + 719468;
    assert(z == era * 146097 + doe);
    lemma_fundamental_div_mod_converse(z, 146097, era, doe);
}

proof fn lemma_days_bound(y: int, m: int, d: int)
    requires
        -262143 <= y <= 262142,
        1 <= m <= 12,
        1 <= d <= 31,
    ensures
        -100_000_000 <= days_from_civil(y, m, d) <= 100_000_000,
{
    let yy = if m <= 2 { y - 1 } else { y };
    let era = yy / 400;
    let yoe = yy - era * 400;
    lemma_fundamental_div_mod_converse(yy, 400, era, yy % 400);
    assert(-656 <= era <= 655);
    assert(0 <= yoe / 4 <= yoe && 0 <= yoe / 100 <= yoe);
    let mp = if m > 2 { m - 3 } else { m + 9 };
    assert(0 <= (153 * mp + 2) / 5 <= 337);
}

/// A photo whose EXIF date is a real date and time is filed under that
/// date's year and month: the timestamp the date gives falls, in UTC, in
/// the date's calendar month.
pub proof fn law_media_date_in_its_month(y: i32, mo: u32, d: u32, h: u32, mi: u32, s: u32)
    requires
        valid_civil(y, mo, d, h, mi, s),
    ensures
        civil_timestamp_of(y, mo, d, h, mi, s) == Some(civil_seconds(y, mo, d, h, mi, s) as i64),
        year_month_of(civil_seconds(y, mo, d, h, mi, s) as i64) == (y, mo as i32),
{
    let days = days_from_civil(y as int, mo as int, d as int);
    lemma_days_bound(y as int, mo as int, d as int);
    lemma_civil_round_trip(y as int, mo as int, d as int);
    let sod = h * 3600 + mi * 60 + s;
    assert(0 <= sod < 86400);
    let ts = civil_seconds(y, mo, d, h, mi, s);
    assert(ts == days * 86400 + sod);
    assert(-100_000_000 * 86400 <= ts <= 100_000_000 * 86400 + 86400);
    assert((ts as i64) as int == ts);
    lemma_fundamental_div_mod_converse(ts, 86400, days, sod);
}

} // verus!
