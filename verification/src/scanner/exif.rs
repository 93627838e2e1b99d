use vstd::prelude::*;
use chrono::{NaiveDate, NaiveDateTime, NaiveTime, TimeZone, Utc};
use crate::db::queries::opt_str_view;

verus! {

/// Unicode White_Space, the characters that `str::trim` removes.
pub open spec fn is_white_space(c: char) -> bool {
    let u = c as u32;
    ||| 0x09 <= u <= 0x0d
    ||| u == 0x20
    ||| u == 0x85
    ||| u == 0xa0
    ||| u == 0x1680
    ||| 0x2000 <= u <= 0x200a
    ||| u == 0x2028
    ||| u == 0x2029
    ||| u == 0x202f
    ||| u == 0x205f
    ||| u == 0x3000
}

/// `s` without its trailing NUL characters.
pub open spec fn strip_trailing_nul(s: Seq<char>) -> Seq<char>
    decreases s.len(),
{
    if s.len() > 0 && s.last() == '\0' { strip_trailing_nul(s.drop_last()) } else { s }
}

/// `s` without its trailing white space.
pub open spec fn strip_trailing_ws(s: Seq<char>) -> Seq<char>
    decreases s.len(),
{
    if s.len() > 0 && is_white_space(s.last()) { strip_trailing_ws(s.drop_last()) } else { s }
}

/// `s` without its leading white space.
pub open spec fn strip_leading_ws(s: Seq<char>) -> Seq<char>
    decreases s.len(),
{
    if s.len() > 0 && is_white_space(s[0]) { strip_leading_ws(s.drop_first()) } else { s }
}

/// The EXIF date text after `trim_end_matches('\0')` and `trim()`.
pub open spec fn trimmed(s: Seq<char>) -> Seq<char> {
    strip_leading_ws(strip_trailing_ws(strip_trailing_nul(s)))
}

/// Number of bytes of the UTF-8 encoding of `c`.
pub open spec fn utf8_width(c: char) -> int {
    let u = c as u32;
    if u < 0x80 { 1 } else if u < 0x800 { 2 } else if u < 0x10000 { 3 } else { 4 }
}

/// Byte offset, in the UTF-8 encoding of `t`, of the character at index `k`.
pub open spec fn byte_off(t: Seq<char>, k: int) -> int
    decreases k,
{
    if k <= 0 { 0 } else { byte_off(t, k - 1) + utf8_width(t[k - 1]) }
}

/// Index of the character that starts at byte `b` of the UTF-8 encoding of
/// `t` (the length of `t` when `b` is the end), searching from index `k`;
/// none when `b` falls inside a character or past the end.
pub open spec fn char_at_byte_from(t: Seq<char>, b: int, k: int) -> Option<int>
    decreases t.len() + 1 - k,
{
    if k < 0 || k > t.len() {
        None
    } else if byte_off(t, k) == b {
        Some(k)
    } else if byte_off(t, k) > b || k == t.len() {
        None
    } else {
        char_at_byte_from(t, b, k + 1)
    }
}

pub open spec fn char_at_byte(t: Seq<char>, b: int) -> Option<int> {
    char_at_byte_from(t, b, 0)
}

/// The text of bytes `a..b` of `t`; none when `&t[a..b]` would panic
/// because a bound is not a character boundary.
pub open spec fn byte_slice(t: Seq<char>, a: int, b: int) -> Option<Seq<char>> {
    match (char_at_byte(t, a), char_at_byte(t, b)) {
        (Some(i), Some(j)) => Some(t.subrange(i, j)),
        _ => None,
    }
}

pub open spec fn is_ascii_digit(c: char) -> bool {
    '0' <= c <= '9'
}

/// Every character of `s` is an ASCII digit.
pub open spec fn all_digits(s: Seq<char>) -> bool {
    forall|i: int| 0 <= i < s.len() ==> is_ascii_digit(#[trigger] s[i])
}

/// Value of a string of decimal digits.
pub open spec fn digits_value(s: Seq<char>) -> int
    decreases s.len(),
{
    if s.len() == 0 { 0 } else { digits_value(s.drop_last()) * 10 + (s.last() as int - '0' as int) }
}

/// What `str::parse` yields for a decimal integer: an optional '+' (or,
/// for signed types, '-'), then at least one ASCII digit, with the value in
/// range of i32 (`signed`) or u32.
pub open spec fn parse_int(s: Seq<char>, signed: bool) -> Option<int> {
    if s.len() == 0 {
        None
    } else if (s[0] == '+' || s[0] == '-') && s.len() == 1 {
        None
    } else {
        let neg = signed && s[0] == '-';
        let digits = if s[0] == '+' || neg { s.drop_first() } else { s };
        if !all_digits(digits) {
            None
        } else {
            let v = if neg { -digits_value(digits) } else { digits_value(digits) };
            if signed && i32::MIN <= v <= i32::MAX {
                Some(v)
            } else if !signed && 0 <= v <= u32::MAX {
                Some(v)
            } else {
                None
            }
        }
    }
}

/// How parsing an EXIF "YYYY:MM:DD HH:MM:SS" text ends.
pub enum ExifParse {
    /// Slicing the text would split a character (the text panics).
    SplitsChar,
    /// The text is too short or a field is not a number.
    Rejected,
    /// The six numbers read from their byte positions.
    Fields { year: i32, month: u32, day: u32, hour: u32, min: u32, sec: u32 },
}

/// Step of the field reader: `next` unless the slice `a..b` panics (then
/// `SplitsChar`) or does not parse (then `Rejected`).
pub open spec fn field_then(t: Seq<char>, a: int, b: int, signed: bool, next: spec_fn(int) -> ExifParse) -> ExifParse {
    match byte_slice(t, a, b) {
        None => ExifParse::SplitsChar,
        Some(f) => match parse_int(f, signed) {
            None => ExifParse::Rejected,
            Some(v) => next(v),
        },
    }
}

/// The outcome of reading the six fields of the trimmed text `t` at byte
/// positions 0..4, 5..7, 8..10, 11..13, 14..16 and 17..19, in that order;
/// texts shorter than 19 bytes are rejected.
pub open spec fn exif_fields(t: Seq<char>) -> ExifParse {
    if byte_off(t, t.len() as int) < 19 {
        ExifParse::Rejected
    } else {
        field_then(t, 0, 4, true, |y: int|
            field_then(t, 5, 7, false, |mo: int|
                field_then(t, 8, 10, false, |d: int|
                    field_then(t, 11, 13, false, |h: int|
                        field_then(t, 14, 16, false, |mi: int|
                            field_then(t, 17, 19, false, |s: int|
                                ExifParse::Fields {
                                    year: y as i32,
                                    month: mo as u32,
                                    day: d as u32,
                                    hour: h as u32,
                                    min: mi as u32,
                                    sec: s as u32,
                                }))))))
    }
}

/// Parsing the EXIF date text `s` slices a string inside a character.
pub open spec fn exif_datetime_panics(s: Seq<char>) -> bool {
    exif_fields(trimmed(s)) is SplitsChar
}

/// Calendar validity of a date in chrono's proleptic Gregorian calendar.
pub open spec fn is_leap_year(y: int) -> bool {
    y % 4 == 0 && (y % 100 != 0 || y % 400 == 0)
}

pub open spec fn days_in_month(y: int, m: int) -> int {
    if m == 2 {
        if is_leap_year(y) { 29 } else { 28 }
    } else if m == 4 || m == 6 || m == 9 || m == 11 {
        30
    } else {
        31
    }
}

/// A date and time that chrono accepts: year within chrono's range, a real
/// month and day, and hour, minute and second of a day.
pub open spec fn valid_civil(y: i32, mo: u32, d: u32, h: u32, mi: u32, s: u32) -> bool {
    &&& -262143 <= y <= 262142
    &&& 1 <= mo <= 12
    &&& 1 <= d <= days_in_month(y as int, mo as int)
    &&& h < 24
    &&& mi < 60
    &&& s < 60
}

/// Days from 1970-01-01 to a date of the proleptic Gregorian calendar
/// (counting through the 400-year eras of 146097 days).
pub open spec fn days_from_civil(y: int, m: int, d: int) -> int {
    let yy = if m <= 2 { y - 1 } else { y };
    let era = yy / 400;
    let yoe = yy - era * 400;
    let mp = if m > 2 { m - 3 } else { m + 9 };
    let doy = (153 * mp + 2) / 5 + d - 1;
    let doe = yoe * 365 + yoe / 4 - yoe / 100 + doy;
    era * 146097 + doe - 719468
}

/// Seconds from 1970-01-01 00:00:00 UTC to a UTC date and time.
pub open spec fn civil_seconds(y: i32, mo: u32, d: u32, h: u32, mi: u32, s: u32) -> int {
    days_from_civil(y as int, mo as int, d as int) * 86400 + h * 3600 + mi * 60 + s
}

/// The Unix timestamp of a UTC date and time, when chrono accepts it.
pub open spec fn civil_timestamp_of(y: i32, mo: u32, d: u32, h: u32, mi: u32, s: u32) -> Option<i64> {
    if valid_civil(y, mo, d, h, mi, s) {
        Some(civil_seconds(y, mo, d, h, mi, s) as i64)
    } else {
        None
    }
}

/// The timestamp that `parse_exif_datetime` gives for the text `s`.
pub open spec fn exif_datetime(s: Seq<char>) -> Option<i64> {
    match exif_fields(trimmed(s)) {
        ExifParse::Fields { year, month, day, hour, min, sec } => civil_timestamp_of(
            year,
            month,
            day,
            hour,
            min,
            sec,
        ),
        _ => None,
    }
}

/// Calls chrono's `NaiveDate::from_ymd_opt`, `NaiveTime::from_hms_opt`,
/// `NaiveDateTime::new` and `Utc.from_utc_datetime(..).timestamp()`: chrono
/// accepts a real date of its year range and a time of day without leap
/// second, and the timestamp counts the non-leap seconds since
/// 1970-01-01 00:00:00 UTC, as its documentation gives it.
#[verifier::external_body]
fn civil_timestamp(y: i32, mo: u32, d: u32, h: u32, mi: u32, s: u32) -> (r: Option<i64>)
    ensures
        r == civil_timestamp_of(y, mo, d, h, mi, s),
{
    let date = match NaiveDate::from_ymd_opt(y, mo, d) {
        Some(date) => date,
        None => return None,
    };
    let time = match NaiveTime::from_hms_opt(h, mi, s) {
        Some(time) => time,
        None => return None,
    };
    Some(Utc.from_utc_datetime(&NaiveDateTime::new(date, time)).timestamp())
}

fn utf8_len(c: char) -> (r: usize)
    ensures
        r == utf8_width(c),
{
    let u = c as u32;
    if u < 0x80 { 1 } else if u < 0x800 { 2 } else if u < 0x10000 { 3 } else { 4 }
}

/// The characters of `s` after `trim_end_matches('\0')` and `trim()`.
fn trimmed_chars(s: &str) -> (r: Vec<char>)
    ensures
        r@ == trimmed(s@),
{
    let n = s.unicode_len();
    let mut end = n;
    assert(s@.subrange(0, n as int) =~= s@);
    while end > 0 && s.get_char(end - 1) == '\0'
        invariant
            n == s@.len(),
            end <= n,
            strip_trailing_nul(s@) == strip_trailing_nul(s@.subrange(0, end as int)),
        decreases end,
    {
        proof {
            assert(s@.subrange(0, end as int).drop_last() =~= s@.subrange(0, end - 1));
        }
        end = end - 1;
    }
    assert(strip_trailing_nul(s@.subrange(0, end as int)) == s@.subrange(0, end as int));
    let ghost a = s@.subrange(0, end as int);
    while end > 0 && is_ws(s.get_char(end - 1))
        invariant
            n == s@.len(),
            end <= a.len(),
            a.len() <= n,
            a == strip_trailing_nul(s@),
            a =~= s@.subrange(0, a.len() as int),
            strip_trailing_ws(a) == strip_trailing_ws(s@.subrange(0, end as int)),
        decreases end,
    {
        proof {
            assert(s@.subrange(0, end as int).drop_last() =~= s@.subrange(0, end - 1));
        }
        end = end - 1;
    }
    assert(strip_trailing_ws(s@.subrange(0, end as int)) == s@.subrange(0, end as int));
    let ghost b = s@.subrange(0, end as int);
    let mut start: usize = 0;
    while start < end && is_ws(s.get_char(start))
        invariant
            n == s@.len(),
            start <= end <= n,
            b == s@.subrange(0, end as int),
            strip_leading_ws(b) == strip_leading_ws(s@.subrange(start as int, end as int)),
        decreases end - start,
    {
        proof {
            assert(s@.subrange(start as int, end as int).drop_first() =~= s@.subrange(start + 1, end as int));
        }
        start = start + 1;
    }
    assert(strip_leading_ws(s@.subrange(start as int, end as int)) == s@.subrange(start as int, end as int));
    let mut out: Vec<char> = Vec::new();
    let mut i = start;
    while i < end
        invariant
            n == s@.len(),
            start <= i <= end <= n,
            out@ == s@.subrange(start as int, i as int),
        decreases end - i,
    {
        out.push(s.get_char(i));
        i = i + 1;
        assert(out@ =~= s@.subrange(start as int, i as int));
    }
    assert(strip_trailing_ws(a) == b);
    out
}

fn is_ws(c: char) -> (r: bool)
    ensures
        r == is_white_space(c),
{
    let u = c as u32;
    (0x09 <= u && u <= 0x0d) || u == 0x20 || u == 0x85 || u == 0xa0 || u == 0x1680 || (0x2000 <= u
        && u <= 0x200a) || u == 0x2028 || u == 0x2029 || u == 0x202f || u == 0x205f || u == 0x3000
}

proof fn lemma_byte_off_step(t: Seq<char>, k: int)
    requires
        0 <= k < t.len(),
    ensures
        byte_off(t, k + 1) == byte_off(t, k) + utf8_width(t[k]),
        byte_off(t, k + 1) > byte_off(t, k),
{
}

proof fn lemma_byte_off_mono(t: Seq<char>, k1: int, k2: int)
    requires
        0 <= k1 <= k2,
    ensures
        byte_off(t, k1) <= byte_off(t, k2),
        byte_off(t, k1) >= 0,
    decreases k2,
{
    if k1 < k2 {
        lemma_byte_off_mono(t, k1, k2 - 1);
    } else if k1 > 0 {
        lemma_byte_off_mono(t, 0, k1 - 1);
    }
}

/// Index of the character starting at byte `b` of `t`'s UTF-8 encoding.
fn find_char_at_byte(t: &Vec<char>, b: usize) -> (r: Option<usize>)
    requires
        b <= 64,
    ensures
        match r {
            Some(k) => char_at_byte(t@, b as int) == Some(k as int),
            None => char_at_byte(t@, b as int) is None,
        },
{
    let mut k: usize = 0;
    let mut off: usize = 0;
    while off < b && k < t.len()
        invariant
            b <= 64,
            k <= t@.len(),
            off == byte_off(t@, k as int),
            off <= b + 4,
            char_at_byte(t@, b as int) == char_at_byte_from(t@, b as int, k as int),
        decreases t@.len() - k,
    {
        proof {
            lemma_byte_off_step(t@, k as int);
        }
        off = off + utf8_len(t[k]);
        k = k + 1;
    }
    if off == b {
        Some(k)
    } else {
        None
    }
}

/// The integer that `str::parse` reads from the characters `i..j` of `t`.
fn parse_int_chars(t: &Vec<char>, i: usize, j: usize, signed: bool) -> (r: Option<i64>)
    requires
        i <= j <= t@.len(),
        j - i <= 4,
    ensures
        match r {
            Some(v) => parse_int(t@.subrange(i as int, j as int), signed) == Some(v as int),
            None => parse_int(t@.subrange(i as int, j as int), signed) is None,
        },
{
    let ghost s = t@.subrange(i as int, j as int);
    if i == j {
        return None;
    }
    let first = t[i];
    if (first == '+' || first == '-') && j - i == 1 {
        return None;
    }
    let neg = signed && first == '-';
    let mut k = if first == '+' || neg { i + 1 } else { i };
    let ghost digits = if s[0] == '+' || neg { s.drop_first() } else { s };
    assert(digits =~= t@.subrange(k as int, j as int));
    let mut v: i64 = 0;
    let k0 = k;
    while k < j
        invariant
            i <= k0 <= k <= j <= t@.len(),
            j - i <= 4,
            i < j,
            s == t@.subrange(i as int, j as int),
            s[0] == first,
            !((first == '+' || first == '-') && j - i == 1),
            neg == (signed && first == '-'),
            digits == (if s[0] == '+' || neg { s.drop_first() } else { s }),
            digits == t@.subrange(k0 as int, j as int),
            forall|q: int| k0 <= q < k ==> is_ascii_digit(#[trigger] t@[q]),
            v == digits_value(t@.subrange(k0 as int, k as int)),
            0 <= v < 10000,
            v < pow10_spec((k - k0) as nat),
        decreases j - k,
    {
        let c = t[k];
        if !('0' <= c && c <= '9') {
            proof {
                assert(s.len() > 0 && s[0] == first);
                assert(digits[k - k0] == c);
                assert(!is_ascii_digit(digits[k - k0]));
                assert(!all_digits(digits));
                assert(!((s[0] == '+' || s[0] == '-') && s.len() == 1));
                assert(parse_int(s, signed) is None);
            }
            return None;
        }
        proof {
            assert(t@.subrange(k0 as int, k + 1).drop_last() =~= t@.subrange(k0 as int, k as int));
            lemma_pow10_bound((k - k0) as nat);
        }
        v = v * 10 + ((c as u32) - ('0' as u32)) as i64;
        k = k + 1;
    }
    assert(t@.subrange(k0 as int, k as int) =~= digits);
    let val = if neg { -v } else { v };
    Some(val)
}

pub open spec fn pow10_spec(n: nat) -> int
    decreases n,
{
    if n == 0 { 1 } else { 10 * pow10_spec((n - 1) as nat) }
}

proof fn lemma_pow10_bound(n: nat)
    requires
        n < 4,
    ensures
        pow10_spec(n + 1) == 10 * pow10_spec(n),
        pow10_spec(n + 1) <= 10000,
{
    reveal_with_fuel(pow10_spec, 5);
}

/// Reads the field at bytes `a..b` of `t`.
fn read_field(t: &Vec<char>, a: usize, b: usize, signed: bool) -> (r: Result<i64, ExifParse>)
    requires
        a + 1 < b <= a + 4,
        b <= 19,
    ensures
        match byte_slice(t@, a as int, b as int) {
            None => r == Err::<i64, ExifParse>(ExifParse::SplitsChar),
            Some(f) => match parse_int(f, signed) {
                None => r == Err::<i64, ExifParse>(ExifParse::Rejected),
                Some(v) => r == Ok::<i64, ExifParse>(v as i64) && v == v as i64,
            },
        },
{
    let ia = find_char_at_byte(t, a);
    let ib = find_char_at_byte(t, b);
    match (ia, ib) {
        (Some(i), Some(j)) => {
            proof {
                lemma_char_at_byte_props(t@, a as int);
                lemma_char_at_byte_props(t@, b as int);
                lemma_char_span(t@, i as int, j as int);
            }
            match parse_int_chars(t, i, j, signed) {
                Some(v) => Ok(v),
                None => Err(ExifParse::Rejected),
            }
        },
        _ => Err(ExifParse::SplitsChar),
    }
}

proof fn lemma_char_at_byte_props(t: Seq<char>, b: int)
    ensures
        char_at_byte(t, b) matches Some(k) ==> 0 <= k <= t.len() && byte_off(t, k) == b,
{
    lemma_char_at_byte_from_props(t, b, 0);
}

proof fn lemma_char_at_byte_from_props(t: Seq<char>, b: int, k: int)
    ensures
        char_at_byte_from(t, b, k) matches Some(q) ==> k <= q <= t.len() && 0 <= q && byte_off(t, q) == b,
    decreases t.len() + 1 - k,
{
    if 0 <= k && k < t.len() && byte_off(t, k) < b {
        lemma_char_at_byte_from_props(t, b, k + 1);
    }
}

/// Characters `i..j` span at least as many bytes as characters.
proof fn lemma_char_span(t: Seq<char>, i: int, j: int)
    requires
        0 <= i,
        0 <= j <= t.len(),
        byte_off(t, i) < byte_off(t, j),
    ensures
        i < j,
        j - i <= byte_off(t, j) - byte_off(t, i),
    decreases j,
{
    if j <= i {
        lemma_byte_off_mono(t, j, i);
    } else if j - 1 > i {
        lemma_byte_off_step(t, j - 1);
        lemma_byte_off_step(t, i);
        lemma_byte_off_mono(t, i + 1, j - 1);
        lemma_char_span(t, i, j - 1);
    } else {
        lemma_byte_off_step(t, i);
    }
}

/// Whether the trimmed text reaches 19 bytes.
fn long_enough(t: &Vec<char>) -> (r: bool)
    ensures
        r == (byte_off(t@, t@.len() as int) >= 19),
{
    let mut k: usize = 0;
    let mut off: usize = 0;
    while off < 19 && k < t.len()
        invariant
            k <= t@.len(),
            off == byte_off(t@, k as int),
            off <= 23,
        decreases t@.len() - k,
    {
        proof {
            lemma_byte_off_step(t@, k as int);
        }
        off = off + utf8_len(t[k]);
        k = k + 1;
    }
    proof {
        lemma_byte_off_mono(t@, k as int, t@.len() as int);
    }
    off >= 19
}

/// Reads the six fields of the EXIF date text `s`.
pub fn read_exif_fields(s: &str) -> (r: ExifParse)
    ensures
        r == exif_fields(trimmed(s@)),
{
    let t = trimmed_chars(s);
    if !long_enough(&t) {
        return ExifParse::Rejected;
    }
    let year = match read_field(&t, 0, 4, true) {
        Ok(v) => v,
        Err(e) => return e,
    };
    let month = match read_field(&t, 5, 7, false) {
        Ok(v) => v,
        Err(e) => return e,
    };
    let day = match read_field(&t, 8, 10, false) {
        Ok(v) => v,
        Err(e) => return e,
    };
    let hour = match read_field(&t, 11, 13, false) {
        Ok(v) => v,
        Err(e) => return e,
    };
    let min = match read_field(&t, 14, 16, false) {
        Ok(v) => v,
        Err(e) => return e,
    };
    let sec = match read_field(&t, 17, 19, false) {
        Ok(v) => v,
        Err(e) => return e,
    };
    ExifParse::Fields {
        year: year as i32,
        month: month as u32,
        day: day as u32,
        hour: hour as u32,
        min: min as u32,
        sec: sec as u32,
    }
}

/// Whether `parse_exif_datetime` can read `s` without slicing inside a
/// character (where the text-slicing of the parse would panic).
pub fn exif_datetime_slices_cleanly(s: &str) -> (r: bool)
    ensures
        r == !exif_datetime_panics(s@),
{
    !matches!(read_exif_fields(s), ExifParse::SplitsChar)
}

/// Parses an EXIF DateTimeOriginal text "YYYY:MM:DD HH:MM:SS" (trailing
/// NULs and surrounding white space ignored) into a UTC Unix timestamp;
/// `None` when the text is too short, a field is not a number, or the date
/// or time does not exist.
pub fn parse_exif_datetime(s: &str) -> (r: Option<i64>)
    requires
        !exif_datetime_panics(s@),
    ensures
        r == exif_datetime(s@),
{
    match read_exif_fields(s) {
        ExifParse::Fields { year, month, day, hour, min, sec } => civil_timestamp(
            year,
            month,
            day,
            hour,
            min,
            sec,
        ),
        _ => None,
    }
}

/// The media date of a file: the EXIF DateTimeOriginal when it parses,
/// otherwise the file's modification time.
pub fn extract_date(exif_datetime_text: Option<&str>, mtime: i64) -> (r: i64)
    requires
        exif_datetime_text matches Some(s) ==> !exif_datetime_panics(s@),
    ensures
        r == match exif_datetime_text {
            Some(s) => match exif_datetime(s@) {
                Some(ts) => ts,
                None => mtime,
            },
            None => mtime,
        },
{
    match exif_datetime_text {
        Some(s) => match parse_exif_datetime(s) {
            Some(ts) => ts,
            None => mtime,
        },
        None => mtime,
    }
}

/// The DateTimeOriginal text that kamadak-exif reads from the primary image
/// of the container held in `bytes`: a function of the bytes alone.
pub uninterp spec fn exif_date_original(bytes: Seq<u8>) -> Option<Seq<char>>;

/// Reads the container in `bytes` with `exif::Reader::read_from_container`
/// and returns the first ASCII value of the primary DateTimeOriginal field,
/// when that is UTF-8 text; `None` when the container cannot be read or the
/// field is missing, not ASCII or not UTF-8. The contract says only that the
/// result is `exif_date_original` of the bytes.
#[verifier::external_body]
fn read_exif_date_text(bytes: &[u8]) -> (r: Option<String>)
    ensures
        opt_str_view(r) == exif_date_original(bytes@),
{
    let exif = ::exif::Reader::new().read_from_container(&mut std::io::Cursor::new(bytes)).ok()?;
    let field = exif.get_field(::exif::Tag::DateTimeOriginal, ::exif::In::PRIMARY)?;
    match &field.value {
        ::exif::Value::Ascii(v) => std::str::from_utf8(v.first()?).ok().map(str::to_owned),
        _ => None,
    }
}

/// The media date of a file whose contents are `bytes`: its EXIF
/// DateTimeOriginal when that parses, otherwise `mtime`. `None` exactly when
/// the date text cannot be cut at its field bounds without splitting a
/// character, where the text slicing of the parse would panic.
pub fn extract_date_from_bytes(bytes: &[u8], mtime: i64) -> (r: Option<i64>)
    ensures
        r == match exif_date_original(bytes@) {
            Some(t) => if exif_datetime_panics(t) {
                None
            } else {
                Some(
                    match exif_datetime(t) {
                        Some(ts) => ts,
                        None => mtime,
                    },
                )
            },
            None => Some(mtime),
        },
{
    let text = read_exif_date_text(bytes);
    match text {
        Some(t) => {
            if exif_datetime_slices_cleanly(t.as_str()) {
                Some(extract_date(Some(t.as_str()), mtime))
            } else {
                None
            }
        },
        None => Some(extract_date(None, mtime)),
    }
}

} // verus!
