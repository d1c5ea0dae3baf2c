//! Capture timestamps: the proleptic civil calendar over years 0 through
//! 9999, a fixed-layout parser for the metadata date-time text
//! `YYYY:MM:DD HH:MM:SS[.fraction][ ][+|-]HH:MM`, and the reconstruction of
//! a missing UTC offset from auxiliary metadata fields.

use vstd::prelude::*;
use vstd::slice::slice_to_vec;
use crate::digits::{all_digit_bytes, digits_val, lemma_digits_val_bound, parse_digits, pow10};
use crate::errors::IdError;

verus! {

// ---------------------------------------------------------------------------
// The civil calendar.
// ---------------------------------------------------------------------------

pub open spec fn is_leap_year(y: int) -> bool {
    (y % 4 == 0 && y % 100 != 0) || y % 400 == 0
}

pub open spec fn days_in_year(y: int) -> int {
    if is_leap_year(y) {
        366
    } else {
        365
    }
}

pub open spec fn days_in_month(y: int, m: int) -> int {
    if m == 2 {
        if is_leap_year(y) {
            29
        } else {
            28
        }
    } else if m == 4 || m == 6 || m == 9 || m == 11 {
        30
    } else {
        31
    }
}

/// Days from 1970-01-01 to the first day of year `y`; negative before 1970.
pub open spec fn days_to_year(y: int) -> int
    decreases (if y >= 1970 { y - 1970 } else { 1970 - y }),
{
    if y == 1970 {
        0
    } else if y > 1970 {
        days_to_year(y - 1) + days_in_year(y - 1)
    } else {
        days_to_year(y + 1) - days_in_year(y)
    }
}

/// Days from the first day of year `y` to the first day of its month `m`.
pub open spec fn days_to_month(y: int, m: int) -> int
    decreases m,
{
    if m <= 1 {
        0
    } else {
        days_to_month(y, m - 1) + days_in_month(y, m - 1)
    }
}

/// Days from 1970-01-01 to the civil date `y`-`m`-`d`; negative before it.
pub open spec fn days_from_epoch(y: int, m: int, d: int) -> int {
    days_to_year(y) + days_to_month(y, m) + (d - 1)
}

fn leap_year(y: u16) -> (r: bool)
    ensures
        r == is_leap_year(y as int),
{
    (y % 4 == 0 && y % 100 != 0) || y % 400 == 0
}

fn month_days(y: u16, m: u8) -> (r: u8)
    ensures
        r == days_in_month(y as int, m as int),
        28 <= r <= 31,
{
    if m == 2 {
        if leap_year(y) {
            29
        } else {
            28
        }
    } else if m == 4 || m == 6 || m == 9 || m == 11 {
        30
    } else {
        31
    }
}

/// The day number of a civil date, counted from 1970-01-01.
fn epoch_days(year: u16, month: u8, day: u8) -> (r: i64)
    requires
        year <= 9999,
        1 <= month <= 12,
        1 <= day <= days_in_month(year as int, month as int),
    ensures
        r == days_from_epoch(year as int, month as int, day as int),
        -800000 <= r <= 3000000,
{
    let mut days: i64 = 0;
    if year >= 1970 {
        let mut y: u16 = 1970;
        while y < year
            invariant
                1970 <= y <= year <= 9999,
                days == days_to_year(y as int),
                0 <= days <= 366 * (y - 1970),
            decreases year - y,
        {
            days = days + if leap_year(y) { 366 } else { 365 };
            y = y + 1;
        }
    } else {
        let mut y: u16 = year;
        while y < 1970
            invariant
                year <= y <= 1970,
                days == days_to_year(year as int) - days_to_year(y as int),
                -366 * (y - year) <= days <= 0,
            decreases 1970 - y,
        {
            proof {
                assert(days_to_year(y as int) == days_to_year(y as int + 1) - days_in_year(
                    y as int,
                ));
            }
            days = days - if leap_year(y) { 366 } else { 365 };
            y = y + 1;
        }
    }
    let mut m: u8 = 1;
    let mut month_acc: i64 = 0;
    while m < month
        invariant
            1 <= m <= month <= 12,
            year <= 9999,
            month_acc == days_to_month(year as int, m as int),
            0 <= month_acc <= 31 * (m - 1),
        decreases month - m,
    {
        month_acc = month_acc + month_days(year, m) as i64;
        m = m + 1;
    }
    days + month_acc + (day as i64 - 1)
}

// ---------------------------------------------------------------------------
// Capture timestamps.
// ---------------------------------------------------------------------------

/// An instant in time: a civil date and wall-clock reading together with the
/// fixed UTC offset in which that reading was taken. Sub-second precision is
/// kept to the millisecond.
#[derive(Clone, Copy, Debug, PartialEq, Eq, Structural)]
pub struct CaptureTimestamp {
    pub year: u16,
    pub month: u8,
    pub day: u8,
    pub hour: u8,
    pub minute: u8,
    pub second: u8,
    pub millisecond: u16,
    /// Seconds east of UTC.
    pub offset_seconds: i32,
}

impl CaptureTimestamp {
    pub open spec fn well_formed(self) -> bool {
        &&& self.year <= 9999
        &&& 1 <= self.month <= 12
        &&& 1 <= self.day <= days_in_month(self.year as int, self.month as int)
        &&& self.hour <= 23
        &&& self.minute <= 59
        &&& self.second <= 59
        &&& self.millisecond <= 999
        &&& -86340 <= self.offset_seconds <= 86340
    }

    /// Milliseconds from the epoch to the wall-clock reading taken as if it
    /// were UTC; the attached offset is ignored.
    pub open spec fn naive_millis(self) -> int {
        days_from_epoch(self.year as int, self.month as int, self.day as int) * 86400000 + (
        self.hour as int * 3600 + self.minute as int * 60 + self.second as int) * 1000
            + self.millisecond as int
    }

    /// Milliseconds from the epoch to the absolute instant: the wall-clock
    /// reading happened in the attached offset, so the instant is the naive
    /// reading shifted west by the offset.
    pub open spec fn utc_millis(self) -> int {
        self.naive_millis() - self.offset_seconds as int * 1000
    }

    /// Whether the fields form a valid timestamp; the runtime twin of
    /// `well_formed`.
    pub fn check_well_formed(&self) -> (r: bool)
        ensures
            r == self.well_formed(),
    {
        self.year <= 9999 && self.month >= 1 && self.month <= 12 && self.day >= 1 && self.day
            <= month_days(self.year, self.month) && self.hour <= 23 && self.minute <= 59
            && self.second <= 59 && self.millisecond <= 999 && self.offset_seconds >= -86340
            && self.offset_seconds <= 86340
    }

    /// Milliseconds since the epoch of the absolute instant.
    pub fn timestamp_millis(&self) -> (r: i64)
        requires
            self.well_formed(),
        ensures
            r == self.utc_millis(),
    {
        let days = epoch_days(self.year, self.month, self.day);
        let second_of_day: i64 = self.hour as i64 * 3600 + self.minute as i64 * 60
            + self.second as i64;
        let naive: i64 = days * 86400000 + second_of_day * 1000 + self.millisecond as i64;
        naive - (self.offset_seconds as i64) * 1000
    }
}

// ---------------------------------------------------------------------------
// The accepted date-time text.
// ---------------------------------------------------------------------------

pub open spec fn spec_year(s: Seq<u8>) -> int {
    digits_val(s.subrange(0, 4))
}

pub open spec fn spec_month(s: Seq<u8>) -> int {
    digits_val(s.subrange(5, 7))
}

pub open spec fn spec_day(s: Seq<u8>) -> int {
    digits_val(s.subrange(8, 10))
}

pub open spec fn spec_hour(s: Seq<u8>) -> int {
    digits_val(s.subrange(11, 13))
}

pub open spec fn spec_minute(s: Seq<u8>) -> int {
    digits_val(s.subrange(14, 16))
}

pub open spec fn spec_second(s: Seq<u8>) -> int {
    digits_val(s.subrange(17, 19))
}

/// The shape `YYYY:MM:DD HH:MM:SS`, with the clock fields in range and the
/// day valid for the month of that year.
pub open spec fn valid_naive_head(s: Seq<u8>) -> bool {
    &&& s.len() >= 19
    &&& all_digit_bytes(s.subrange(0, 4))
    &&& s[4] == 58
    &&& all_digit_bytes(s.subrange(5, 7))
    &&& s[7] == 58
    &&& all_digit_bytes(s.subrange(8, 10))
    &&& s[10] == 32
    &&& all_digit_bytes(s.subrange(11, 13))
    &&& s[13] == 58
    &&& all_digit_bytes(s.subrange(14, 16))
    &&& s[16] == 58
    &&& all_digit_bytes(s.subrange(17, 19))
    &&& 1 <= spec_month(s) <= 12
    &&& 1 <= spec_day(s) <= days_in_month(spec_year(s), spec_month(s))
    &&& spec_hour(s) <= 23
    &&& spec_minute(s) <= 59
    &&& spec_second(s) <= 59
}

/// After the clock comes either nothing or a dot and one to nine fraction
/// digits.
pub open spec fn valid_fraction_tail(s: Seq<u8>) -> bool {
    ||| s.len() == 19
    ||| {
        &&& 21 <= s.len() <= 29
        &&& s[19] == 46
        &&& all_digit_bytes(s.subrange(20, s.len() as int))
    }
}

/// The fraction of a second in milliseconds; digits beyond the third are cut.
pub open spec fn spec_fraction_millis(s: Seq<u8>) -> int {
    if s.len() <= 19 {
        0
    } else if s.len() >= 23 {
        digits_val(s.subrange(20, 23))
    } else if s.len() == 22 {
        digits_val(s.subrange(20, 22)) * 10
    } else {
        digits_val(s.subrange(20, 21)) * 100
    }
}

/// A date-time without offset: `YYYY:MM:DD HH:MM:SS[.fraction]`.
pub open spec fn valid_naive(s: Seq<u8>) -> bool {
    valid_naive_head(s) && valid_fraction_tail(s)
}

/// An offset of the form `+HH:MM` or `-HH:MM`, below twenty-four hours.
pub open spec fn valid_offset(s: Seq<u8>) -> bool {
    &&& s.len() == 6
    &&& (s[0] == 43 || s[0] == 45)
    &&& all_digit_bytes(s.subrange(1, 3))
    &&& s[3] == 58
    &&& all_digit_bytes(s.subrange(4, 6))
    &&& digits_val(s.subrange(1, 3)) <= 23
    &&& digits_val(s.subrange(4, 6)) <= 59
}

/// Seconds east of UTC named by a valid offset text.
pub open spec fn spec_offset_seconds(s: Seq<u8>) -> int {
    let magnitude = digits_val(s.subrange(1, 3)) * 3600 + digits_val(s.subrange(4, 6)) * 60;
    if s[0] == 45 {
        -magnitude
    } else {
        magnitude
    }
}

/// Whether the text is long enough to end in an offset and has a sign where
/// the offset would start.
pub open spec fn has_offset_shape(s: Seq<u8>) -> bool {
    s.len() >= 25 && (s[s.len() - 6] == 43 || s[s.len() - 6] == 45)
}

/// The date-time part of a text ending in an offset; one space may separate
/// the two.
pub open spec fn naive_prefix(s: Seq<u8>) -> Seq<u8> {
    let head = s.subrange(0, s.len() - 6);
    if head.len() > 0 && head[head.len() - 1] == 32 {
        head.subrange(0, head.len() - 1)
    } else {
        head
    }
}

/// The offset part of a text ending in an offset.
pub open spec fn offset_suffix(s: Seq<u8>) -> Seq<u8> {
    s.subrange(s.len() - 6, s.len() as int)
}

/// A date-time carrying its own offset.
pub open spec fn valid_with_offset(s: Seq<u8>) -> bool {
    has_offset_shape(s) && valid_naive(naive_prefix(s)) && valid_offset(offset_suffix(s))
}

/// The timestamp named by a valid date-time text, its offset still unset.
pub open spec fn spec_naive_timestamp(naive: Seq<u8>) -> CaptureTimestamp {
    CaptureTimestamp {
        year: spec_year(naive) as u16,
        month: spec_month(naive) as u8,
        day: spec_day(naive) as u8,
        hour: spec_hour(naive) as u8,
        minute: spec_minute(naive) as u8,
        second: spec_second(naive) as u8,
        millisecond: spec_fraction_millis(naive) as u16,
        offset_seconds: 0,
    }
}

/// The timestamp named by a valid date-time text and a valid offset text.
pub open spec fn spec_timestamp(naive: Seq<u8>, offset: Seq<u8>) -> CaptureTimestamp {
    CaptureTimestamp {
        offset_seconds: spec_offset_seconds(offset) as i32,
        ..spec_naive_timestamp(naive)
    }
}

/// Parse a date-time without offset; the result carries offset zero.
fn parse_naive(s: &[u8]) -> (r: Option<CaptureTimestamp>)
    ensures
        (r is Some) <==> valid_naive(s@),
        r matches Some(t) ==> t == spec_naive_timestamp(s@) && t.well_formed(),
{
    let n = s.len();
    if n < 19 {
        return None;
    }
    if !(n == 19 || (n >= 21 && n <= 29)) {
        return None;
    }
    if s[4] != 58 || s[7] != 58 || s[10] != 32 || s[13] != 58 || s[16] != 58 {
        return None;
    }
    let year = match parse_digits(s, 0, 4) {
        Some(v) => v,
        None => {
            return None;
        },
    };
    let month = match parse_digits(s, 5, 7) {
        Some(v) => v,
        None => {
            return None;
        },
    };
    let day = match parse_digits(s, 8, 10) {
        Some(v) => v,
        None => {
            return None;
        },
    };
    let hour = match parse_digits(s, 11, 13) {
        Some(v) => v,
        None => {
            return None;
        },
    };
    let minute = match parse_digits(s, 14, 16) {
        Some(v) => v,
        None => {
            return None;
        },
    };
    let second = match parse_digits(s, 17, 19) {
        Some(v) => v,
        None => {
            return None;
        },
    };
    proof {
        reveal_with_fuel(pow10, 5);
        lemma_digits_val_bound(s@.subrange(0, 4));
        lemma_digits_val_bound(s@.subrange(5, 7));
        lemma_digits_val_bound(s@.subrange(8, 10));
        lemma_digits_val_bound(s@.subrange(11, 13));
        lemma_digits_val_bound(s@.subrange(14, 16));
        lemma_digits_val_bound(s@.subrange(17, 19));
    }
    if month < 1 || month > 12 {
        return None;
    }
    if day < 1 || day > month_days(year as u16, month as u8) as u32 {
        return None;
    }
    if hour > 23 || minute > 59 || second > 59 {
        return None;
    }
    let mut millisecond: u32 = 0;
    if n > 19 {
        if s[19] != 46 {
            return None;
        }
        match parse_digits(s, 20, n) {
            None => {
                return None;
            },
            Some(_) => {},
        }
        proof {
            let whole = s@.subrange(20, n as int);
            assert(forall|j: int|
                0 <= j < whole.len() ==> whole[j] == #[trigger] s@[20 + j]);
        }
        if n >= 23 {
            proof {
                let part = s@.subrange(20, 23);
                assert(forall|j: int|
                    0 <= j < part.len() ==> part[j] == #[trigger] s@[20 + j]);
                reveal_with_fuel(pow10, 4);
                lemma_digits_val_bound(part);
            }
            millisecond = parse_digits(s, 20, 23).unwrap();
        } else if n == 22 {
            proof {
                let part = s@.subrange(20, 22);
                assert(forall|j: int|
                    0 <= j < part.len() ==> part[j] == #[trigger] s@[20 + j]);
                reveal_with_fuel(pow10, 3);
                lemma_digits_val_bound(part);
            }
            millisecond = parse_digits(s, 20, 22).unwrap() * 10;
        } else {
            proof {
                let part = s@.subrange(20, 21);
                assert(forall|j: int|
                    0 <= j < part.len() ==> part[j] == #[trigger] s@[20 + j]);
                reveal_with_fuel(pow10, 2);
                lemma_digits_val_bound(part);
            }
            millisecond = parse_digits(s, 20, 21).unwrap() * 100;
        }
    }
    Some(
        CaptureTimestamp {
            year: year as u16,
            month: month as u8,
            day: day as u8,
            hour: hour as u8,
            minute: minute as u8,
            second: second as u8,
            millisecond: millisecond as u16,
            offset_seconds: 0,
        },
    )
}

/// Parse an offset text into seconds east of UTC.
fn parse_offset(s: &[u8]) -> (r: Option<i32>)
    ensures
        (r is Some) <==> valid_offset(s@),
        r matches Some(v) ==> v == spec_offset_seconds(s@) && -86340 <= v <= 86340,
{
    if s.len() != 6 {
        return None;
    }
    let sign = s[0];
    if sign != 43 && sign != 45 {
        return None;
    }
    if s[3] != 58 {
        return None;
    }
    let hh = match parse_digits(s, 1, 3) {
        Some(v) => v,
        None => {
            return None;
        },
    };
    let mm = match parse_digits(s, 4, 6) {
        Some(v) => v,
        None => {
            return None;
        },
    };
    if hh > 23 || mm > 59 {
        return None;
    }
    let magnitude = (hh * 3600 + mm * 60) as i32;
    if sign == 45 {
        Some(-magnitude)
    } else {
        Some(magnitude)
    }
}

// ---------------------------------------------------------------------------
// Resolution from metadata records.
// ---------------------------------------------------------------------------

/// One metadata record: the primary sub-second date-time text and the two
/// auxiliary offset texts that may reconstruct a missing offset.
pub struct ExifRecord {
    pub sub_sec_date_time_original: Vec<u8>,
    pub offset_time_original: Option<Vec<u8>>,
    pub time_zone: Option<Vec<u8>>,
}

/// The offset text `+00:00`.
pub open spec fn utc_offset_bytes() -> Seq<u8> {
    seq![43u8, 48u8, 48u8, 58u8, 48u8, 48u8]
}

proof fn lemma_utc_offset_bytes()
    ensures
        valid_offset(utc_offset_bytes()),
        spec_offset_seconds(utc_offset_bytes()) == 0,
{
    let s = utc_offset_bytes();
    assert(s.subrange(1, 3) =~= seq![48u8, 48u8]);
    assert(s.subrange(4, 6) =~= seq![48u8, 48u8]);
    assert(seq![48u8, 48u8].drop_last() =~= seq![48u8]);
    assert(seq![48u8].drop_last() =~= Seq::<u8>::empty());
    assert(digits_val(Seq::<u8>::empty()) == 0);
    assert(digits_val(seq![48u8]) == 0);
    assert(digits_val(seq![48u8, 48u8]) == 0);
}

impl ExifRecord {
    pub open spec fn date_field(self) -> Seq<u8> {
        self.sub_sec_date_time_original@
    }

    /// The offset text that reconstruction uses when the date itself carries
    /// none: the offset-time-original field first, else the time-zone field,
    /// else `+00:00`.
    pub open spec fn chosen_offset(self) -> Seq<u8> {
        match self.offset_time_original {
            Some(o) => o@,
            None => match self.time_zone {
                Some(t) => t@,
                None => utc_offset_bytes(),
            },
        }
    }

    /// Whether resolution succeeds on this record.
    pub open spec fn resolvable(self) -> bool {
        ||| valid_with_offset(self.date_field())
        ||| (valid_naive(self.date_field()) && valid_offset(self.chosen_offset()))
    }

    /// The timestamp that resolution yields on a resolvable record.
    pub open spec fn spec_resolve(self) -> CaptureTimestamp {
        if valid_with_offset(self.date_field()) {
            spec_timestamp(naive_prefix(self.date_field()), offset_suffix(self.date_field()))
        } else {
            spec_timestamp(self.date_field(), self.chosen_offset())
        }
    }
}

/// Resolve the capture timestamp of one metadata record.
///
/// The primary field is first read as a date-time carrying its own offset;
/// the auxiliary fields are then ignored. Otherwise it must be a date-time
/// without offset, and the offset is reconstructed by priority: the
/// offset-time-original field, else the time-zone field, else UTC.
pub fn resolve_from_record(record: &ExifRecord) -> (r: Result<CaptureTimestamp, IdError>)
    ensures
        (r is Ok) <==> record.resolvable(),
        r matches Ok(t) ==> t == record.spec_resolve() && t.well_formed(),
        !valid_with_offset(record.date_field()) && !valid_naive(record.date_field()) ==> (
        r matches Err(e) && (e matches IdError::UnparseableDate { raw } && raw@
            == record.date_field())),
        !valid_with_offset(record.date_field()) && valid_naive(record.date_field())
            && !valid_offset(record.chosen_offset()) ==> (r matches Err(e) && (e matches
        IdError::UnparseableOffset { raw } && raw@ == record.chosen_offset())),
{
    let date = record.sub_sec_date_time_original.as_slice();
    let n = date.len();
    // a date-time that carries its own offset
    if n >= 25 {
        let sign = date[n - 6];
        if sign == 43 || sign == 45 {
            let mut head_end = n - 6;
            if date[head_end - 1] == 32 {
                head_end = head_end - 1;
            }
            let head = &date[0..head_end];
            let tail = &date[n - 6..n];
            proof {
                assert(head@ =~= naive_prefix(date@));
                assert(tail@ =~= offset_suffix(date@));
            }
            if let Some(t) = parse_naive(head) {
                if let Some(off) = parse_offset(tail) {
                    return Ok(CaptureTimestamp { offset_seconds: off, ..t });
                }
            }
        }
    }
    // a date-time without offset; reconstruct the offset
    match parse_naive(date) {
        Some(t) => {
            let off = match (&record.offset_time_original, &record.time_zone) {
                (Some(o), _) => parse_offset(o.as_slice()),
                (None, Some(tz)) => parse_offset(tz.as_slice()),
                (None, None) => {
                    proof {
                        lemma_utc_offset_bytes();
                    }
                    Some(0)
                },
            };
            match off {
                Some(offset_seconds) => Ok(CaptureTimestamp { offset_seconds, ..t }),
                None => {
                    let raw = match (&record.offset_time_original, &record.time_zone) {
                        (Some(o), _) => slice_to_vec(o.as_slice()),
                        (_, Some(tz)) => slice_to_vec(tz.as_slice()),
                        // without an auxiliary field the offset above is UTC
                        _ => Vec::new(),
                    };
                    Err(IdError::UnparseableOffset { raw })
                },
            }
        },
        None => Err(
            IdError::UnparseableDate { raw: slice_to_vec(record.sub_sec_date_time_original.as_slice()) },
        ),
    }
}

/// Resolve the capture timestamp from a metadata response, which must hold
/// exactly one record.
pub fn resolve_capture_timestamp(records: &Vec<ExifRecord>) -> (r: Result<
    CaptureTimestamp,
    IdError,
>)
    ensures
        records@.len() != 1 ==> (r matches Err(e) && (e matches IdError::AmbiguousRecords {
            count,
        } && count == records@.len())),
        records@.len() == 1 ==> ((r is Ok) <==> records@[0].resolvable()),
        records@.len() == 1 ==> (r matches Ok(t) ==> t == records@[0].spec_resolve()
            && t.well_formed()),
        records@.len() == 1 && !valid_with_offset(records@[0].date_field()) && !valid_naive(
            records@[0].date_field(),
        ) ==> (r matches Err(e) && (e matches IdError::UnparseableDate { raw } && raw@
            == records@[0].date_field())),
        records@.len() == 1 && !valid_with_offset(records@[0].date_field()) && valid_naive(
            records@[0].date_field(),
        ) && !valid_offset(records@[0].chosen_offset()) ==> (r matches Err(e) && (e matches
        IdError::UnparseableOffset { raw } && raw@ == records@[0].chosen_offset())),
{
    if records.len() != 1 {
        return Err(IdError::AmbiguousRecords { count: records.len() });
    }
    resolve_from_record(&records[0])
}

} // verus!
