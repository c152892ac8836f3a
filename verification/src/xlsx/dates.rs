//! Date and time number formats: serial day numbers of the 1900 and 1904
//! workbook epochs rendered as calendar dates and clock times.
use super::decimal::{units_spec, Decimal};
use crate::digits::{decimal, padded, push_all, push_padded};
use crate::text::bytes_eq;
use vstd::prelude::*;
use vstd::string::StringSliceAdditionalSpecFns;

verus! {

broadcast use vstd::seq::group_seq_axioms;

/// The date part of a supported format code.
#[derive(PartialEq, Eq, Structural, Clone, Copy, Debug)]
pub enum DateCode {
    /// `yyyy-mm-dd`
    IsoDate,
    /// `m/d/yy`
    MonthDayShortYear,
    /// `mm/dd/yy`
    PaddedMonthDayShortYear,
    /// `m/d/yyyy`
    MonthDayYear,
    /// `mm/dd/yyyy`
    PaddedMonthDayYear,
    /// `mm-dd-yy`
    DashedMonthDayShortYear,
    /// `d-mmm-yy`
    DayMonthNameShortYear,
    /// `d-mmm`
    DayMonthName,
    /// `mmm-yy`
    MonthNameShortYear,
}

/// The time part of a supported format code.
#[derive(PartialEq, Eq, Structural, Clone, Copy, Debug)]
pub enum TimeCode {
    /// `h:mm`
    HourMinute,
    /// `hh:mm`
    PaddedHourMinute,
    /// `h:mm:ss`
    HourMinuteSecond,
    /// `hh:mm:ss`
    PaddedHourMinuteSecond,
    /// `h:mm am/pm`
    MeridiemHourMinute,
    /// `h:mm:ss am/pm`
    MeridiemHourMinuteSecond,
    /// `mm:ss`
    MinuteSecond,
    /// `[h]:mm:ss`
    ElapsedHours,
}

/// The date and time parts named by a lower-cased format code.
pub open spec fn date_time_codes(lc: Seq<u8>) -> Option<(Option<DateCode>, Option<TimeCode>)> {
    if lc == "yyyy-mm-dd".spec_bytes() {
        Some((Some(DateCode::IsoDate), None))
    } else if lc == "m/d/yy".spec_bytes() {
        Some((Some(DateCode::MonthDayShortYear), None))
    } else if lc == "mm/dd/yy".spec_bytes() {
        Some((Some(DateCode::PaddedMonthDayShortYear), None))
    } else if lc == "m/d/yyyy".spec_bytes() {
        Some((Some(DateCode::MonthDayYear), None))
    } else if lc == "mm/dd/yyyy".spec_bytes() {
        Some((Some(DateCode::PaddedMonthDayYear), None))
    } else if lc == "mm-dd-yy".spec_bytes() {
        Some((Some(DateCode::DashedMonthDayShortYear), None))
    } else if lc == "d-mmm-yy".spec_bytes() {
        Some((Some(DateCode::DayMonthNameShortYear), None))
    } else if lc == "d-mmm".spec_bytes() {
        Some((Some(DateCode::DayMonthName), None))
    } else if lc == "mmm-yy".spec_bytes() {
        Some((Some(DateCode::MonthNameShortYear), None))
    } else if lc == "m/d/yy h:mm".spec_bytes() {
        Some((Some(DateCode::MonthDayShortYear), Some(TimeCode::HourMinute)))
    } else if lc == "m/d/yyyy h:mm".spec_bytes() {
        Some((Some(DateCode::MonthDayYear), Some(TimeCode::HourMinute)))
    } else if lc == "yyyy-mm-dd h:mm:ss".spec_bytes() {
        Some((Some(DateCode::IsoDate), Some(TimeCode::HourMinuteSecond)))
    } else if lc == "h:mm".spec_bytes() {
        Some((None, Some(TimeCode::HourMinute)))
    } else if lc == "hh:mm".spec_bytes() {
        Some((None, Some(TimeCode::PaddedHourMinute)))
    } else if lc == "h:mm:ss".spec_bytes() {
        Some((None, Some(TimeCode::HourMinuteSecond)))
    } else if lc == "hh:mm:ss".spec_bytes() {
        Some((None, Some(TimeCode::PaddedHourMinuteSecond)))
    } else if lc == "h:mm am/pm".spec_bytes() {
        Some((None, Some(TimeCode::MeridiemHourMinute)))
    } else if lc == "h:mm:ss am/pm".spec_bytes() {
        Some((None, Some(TimeCode::MeridiemHourMinuteSecond)))
    } else if lc == "mm:ss".spec_bytes() {
        Some((None, Some(TimeCode::MinuteSecond)))
    } else if lc == "[h]:mm:ss".spec_bytes() {
        Some((None, Some(TimeCode::ElapsedHours)))
    } else {
        None
    }
}

/// Recognises a lower-cased date or time format code.
pub fn date_time_codes_exec(lc: &[u8]) -> (r: Option<(Option<DateCode>, Option<TimeCode>)>)
    ensures
        r == date_time_codes(lc@),
{
    if bytes_eq(lc, "yyyy-mm-dd".as_bytes()) {
        Some((Some(DateCode::IsoDate), None))
    } else if bytes_eq(lc, "m/d/yy".as_bytes()) {
        Some((Some(DateCode::MonthDayShortYear), None))
    } else if bytes_eq(lc, "mm/dd/yy".as_bytes()) {
        Some((Some(DateCode::PaddedMonthDayShortYear), None))
    } else if bytes_eq(lc, "m/d/yyyy".as_bytes()) {
        Some((Some(DateCode::MonthDayYear), None))
    } else if bytes_eq(lc, "mm/dd/yyyy".as_bytes()) {
        Some((Some(DateCode::PaddedMonthDayYear), None))
    } else if bytes_eq(lc, "mm-dd-yy".as_bytes()) {
        Some((Some(DateCode::DashedMonthDayShortYear), None))
    } else if bytes_eq(lc, "d-mmm-yy".as_bytes()) {
        Some((Some(DateCode::DayMonthNameShortYear), None))
    } else if bytes_eq(lc, "d-mmm".as_bytes()) {
        Some((Some(DateCode::DayMonthName), None))
    } else if bytes_eq(lc, "mmm-yy".as_bytes()) {
        Some((Some(DateCode::MonthNameShortYear), None))
    } else if bytes_eq(lc, "m/d/yy h:mm".as_bytes()) {
        Some((Some(DateCode::MonthDayShortYear), Some(TimeCode::HourMinute)))
    } else if bytes_eq(lc, "m/d/yyyy h:mm".as_bytes()) {
        Some((Some(DateCode::MonthDayYear), Some(TimeCode::HourMinute)))
    } else if bytes_eq(lc, "yyyy-mm-dd h:mm:ss".as_bytes()) {
        Some((Some(DateCode::IsoDate), Some(TimeCode::HourMinuteSecond)))
    } else if bytes_eq(lc, "h:mm".as_bytes()) {
        Some((None, Some(TimeCode::HourMinute)))
    } else if bytes_eq(lc, "hh:mm".as_bytes()) {
        Some((None, Some(TimeCode::PaddedHourMinute)))
    } else if bytes_eq(lc, "h:mm:ss".as_bytes()) {
        Some((None, Some(TimeCode::HourMinuteSecond)))
    } else if bytes_eq(lc, "hh:mm:ss".as_bytes()) {
        Some((None, Some(TimeCode::PaddedHourMinuteSecond)))
    } else if bytes_eq(lc, "h:mm am/pm".as_bytes()) {
        Some((None, Some(TimeCode::MeridiemHourMinute)))
    } else if bytes_eq(lc, "h:mm:ss am/pm".as_bytes()) {
        Some((None, Some(TimeCode::MeridiemHourMinuteSecond)))
    } else if bytes_eq(lc, "mm:ss".as_bytes()) {
        Some((None, Some(TimeCode::MinuteSecond)))
    } else if bytes_eq(lc, "[h]:mm:ss".as_bytes()) {
        Some((None, Some(TimeCode::ElapsedHours)))
    } else {
        None
    }
}

/// Gregorian leap year.
pub open spec fn leap_spec(year: int) -> bool {
    year % 4 == 0 && (year % 100 != 0 || year % 400 == 0)
}

/// Days in the proleptic Gregorian calendar before the first of `year`.
pub open spec fn days_before_year_spec(year: int) -> int {
    let p = year - 1;
    365 * p + p / 4 - p / 100 + p / 400
}

pub open spec fn year_length(year: int) -> int {
    if leap_spec(year) {
        366
    } else {
        365
    }
}

pub open spec fn month_length(year: int, month: int) -> int {
    if month == 2 {
        if leap_spec(year) {
            29
        } else {
            28
        }
    } else if month == 4 || month == 6 || month == 9 || month == 11 {
        30
    } else {
        31
    }
}

/// The year holding day `ordinal` counted from the first of `year`, and the
/// day's offset within that year.
pub open spec fn locate_year(ordinal: int, year: int) -> (int, int)
    decreases ordinal,
{
    if ordinal < year_length(year) || ordinal < 0 {
        (year, ordinal)
    } else {
        locate_year(ordinal - year_length(year), year + 1)
    }
}

/// The month holding day `offset` counted from the first of `month`, and
/// the day's offset within it (December takes whatever remains).
pub open spec fn locate_month(offset: int, year: int, month: int) -> (int, int)
    decreases 12 - month,
{
    if month >= 12 || offset < month_length(year, month) {
        (month, offset)
    } else {
        locate_month(offset - month_length(year, month), year, month + 1)
    }
}

/// The calendar date of a serial day number: day 1 is 1900-01-01 in the
/// 1900 system, which also counts the nonexistent 1900-02-29 as day 60; day
/// 0 is 1904-01-01 in the 1904 system.
pub open spec fn calendar_spec(serial: int, date1904: bool) -> Option<(int, int, int)> {
    if !date1904 && serial == 60 {
        Some((1900, 2, 29))
    } else if !date1904 && serial < 1 {
        None
    } else {
        let epoch = if date1904 {
            1904
        } else {
            1900
        };
        let ordinal = if date1904 {
            serial
        } else if serial > 60 {
            serial - 2
        } else {
            serial - 1
        };
        let (year, offset) = locate_year(ordinal, epoch);
        let (month, day0) = locate_month(offset, year, 1);
        Some((year, month, day0 + 1))
    }
}

/// English month abbreviations.
pub open spec fn month_name(month: int) -> Seq<u8> {
    if month == 1 {
        "Jan".spec_bytes()
    } else if month == 2 {
        "Feb".spec_bytes()
    } else if month == 3 {
        "Mar".spec_bytes()
    } else if month == 4 {
        "Apr".spec_bytes()
    } else if month == 5 {
        "May".spec_bytes()
    } else if month == 6 {
        "Jun".spec_bytes()
    } else if month == 7 {
        "Jul".spec_bytes()
    } else if month == 8 {
        "Aug".spec_bytes()
    } else if month == 9 {
        "Sep".spec_bytes()
    } else if month == 10 {
        "Oct".spec_bytes()
    } else if month == 11 {
        "Nov".spec_bytes()
    } else {
        "Dec".spec_bytes()
    }
}

/// The twelve month abbreviations in calendar order.
pub const MONTH_ABBREVIATIONS: &'static str = "JanFebMarAprMayJunJulAugSepOctNovDec";

proof fn lemma_ascii_literal(s: &str)
    requires
        vstd::string::is_ascii(s),
    ensures
        s.spec_bytes() == Seq::new(s@.len(), |i: int| s@[i] as u8),
{
    vstd::string::is_ascii_spec_bytes(s);
}

/// The abbreviation of month `m` is the `m`-th three-letter slice of the
/// months in calendar order, so a date in month `m` written with a
/// month-name code shows that slice after its day.
pub proof fn law_month_abbreviation(year: nat, month: nat, day: nat)
    requires
        1 <= month <= 12,
    ensures
        month_name(month as int) == MONTH_ABBREVIATIONS.spec_bytes().subrange(
            3 * (month - 1),
            (3 * month) as int,
        ),
        render_spec(year, month, day, DateCode::DayMonthName) == Some(
            decimal(day) + seq![45u8] + MONTH_ABBREVIATIONS.spec_bytes().subrange(3 * (month - 1), (3 * month) as int),
        ),
{
    reveal_strlit("JanFebMarAprMayJunJulAugSepOctNovDec");
    reveal_strlit("Jan");
    reveal_strlit("Feb");
    reveal_strlit("Mar");
    reveal_strlit("Apr");
    reveal_strlit("May");
    reveal_strlit("Jun");
    reveal_strlit("Jul");
    reveal_strlit("Aug");
    reveal_strlit("Sep");
    reveal_strlit("Oct");
    reveal_strlit("Nov");
    reveal_strlit("Dec");
    lemma_ascii_literal(MONTH_ABBREVIATIONS);
    let all = MONTH_ABBREVIATIONS.spec_bytes();
    let slice = all.subrange(3 * (month - 1), (3 * month) as int);
    if month == 1 {
        lemma_ascii_literal("Jan");
    } else if month == 2 {
        lemma_ascii_literal("Feb");
    } else if month == 3 {
        lemma_ascii_literal("Mar");
    } else if month == 4 {
        lemma_ascii_literal("Apr");
    } else if month == 5 {
        lemma_ascii_literal("May");
    } else if month == 6 {
        lemma_ascii_literal("Jun");
    } else if month == 7 {
        lemma_ascii_literal("Jul");
    } else if month == 8 {
        lemma_ascii_literal("Aug");
    } else if month == 9 {
        lemma_ascii_literal("Sep");
    } else if month == 10 {
        lemma_ascii_literal("Oct");
    } else if month == 11 {
        lemma_ascii_literal("Nov");
    } else {
        lemma_ascii_literal("Dec");
    }
    assert(month_name(month as int) =~= slice);
}

pub open spec fn sep(c: u8) -> Seq<u8> {
    seq![c]
}

/// A calendar date written in one of the date codes; `None` for a month
/// outside 1..=12.
pub open spec fn render_spec(year: nat, month: nat, day: nat, code: DateCode) -> Option<Seq<u8>> {
    let short_year = year % 100;
    if month < 1 || month > 12 {
        None
    } else {
        Some(
            match code {
                DateCode::IsoDate => padded(year, 4) + sep(45) + padded(month, 2) + sep(45) + padded(
                    day,
                    2,
                ),
                DateCode::MonthDayShortYear => decimal(month) + sep(47) + decimal(day) + sep(47)
                    + padded(short_year, 2),
                DateCode::PaddedMonthDayShortYear => padded(month, 2) + sep(47) + padded(day, 2)
                    + sep(47) + padded(short_year, 2),
                DateCode::MonthDayYear => decimal(month) + sep(47) + decimal(day) + sep(47) + padded(
                    year,
                    4,
                ),
                DateCode::PaddedMonthDayYear => padded(month, 2) + sep(47) + padded(day, 2) + sep(47)
                    + padded(year, 4),
                DateCode::DashedMonthDayShortYear => padded(month, 2) + sep(45) + padded(day, 2)
                    + sep(45) + padded(short_year, 2),
                DateCode::DayMonthNameShortYear => decimal(day) + sep(45) + month_name(month as int)
                    + sep(45) + padded(short_year, 2),
                DateCode::DayMonthName => decimal(day) + sep(45) + month_name(month as int),
                DateCode::MonthNameShortYear => month_name(month as int) + sep(45) + padded(
                    short_year,
                    2,
                ),
            },
        )
    }
}

/// A number of seconds written as a clock time or an elapsed time.
pub open spec fn time_spec(seconds: nat, code: TimeCode) -> Seq<u8> {
    let hour = seconds / 3600 % 24;
    let minute = seconds / 60 % 60;
    let second = seconds % 60;
    let meridiem = code == TimeCode::MeridiemHourMinute || code == TimeCode::MeridiemHourMinuteSecond;
    let shown = if meridiem {
        (hour + 11) % 12 + 1
    } else {
        hour
    };
    let width: nat = if code == TimeCode::PaddedHourMinute || code == TimeCode::PaddedHourMinuteSecond {
        2
    } else {
        1
    };
    let with_seconds = code == TimeCode::HourMinuteSecond || code == TimeCode::PaddedHourMinuteSecond
        || code == TimeCode::MeridiemHourMinuteSecond;
    match code {
        TimeCode::MinuteSecond => padded(minute, 2) + sep(58) + padded(second, 2),
        TimeCode::ElapsedHours => decimal(seconds / 3600) + sep(58) + padded(minute, 2) + sep(58)
            + padded(second, 2),
        _ => {
            let clock = if with_seconds {
                padded(shown, width) + sep(58) + padded(minute, 2) + sep(58) + padded(second, 2)
            } else {
                padded(shown, width) + sep(58) + padded(minute, 2)
            };
            if !meridiem {
                clock
            } else if hour < 12 {
                clock + " AM".spec_bytes()
            } else {
                clock + " PM".spec_bytes()
            }
        },
    }
}

/// Formats a non-negative decimal as a date, a time or both: the whole day
/// number gives the date, the value in seconds (rounded half up) the time;
/// `None` beyond 9999-12-31 or for codes that are not date or time codes.
pub open spec fn display_spec(d: (bool, Seq<u8>, int), lc: Seq<u8>, date1904: bool) -> Option<Seq<u8>> {
    let max_day: nat = if date1904 {
        2957003
    } else {
        2958465
    };
    match date_time_codes(lc) {
        None => None,
        Some((date_code, time_code)) => match units_spec(d, 1, false) {
            None => None,
            Some(whole_day) => if whole_day > max_day {
                None
            } else {
                match units_spec(d, 86400, true) {
                    None => None,
                    Some(seconds) => {
                        let day = if time_code is None {
                            whole_day
                        } else {
                            seconds / 86400
                        };
                        if day > max_day {
                            None
                        } else {
                            let date_part = match date_code {
                                None => Some(Seq::<u8>::empty()),
                                Some(code) => match calendar_spec(day as int, date1904) {
                                    None => None,
                                    Some((y, m, dd)) => render_spec(y as nat, m as nat, dd as nat, code),
                                },
                            };
                            match date_part {
                                None => None,
                                Some(text) => Some(
                                    match time_code {
                                        None => text,
                                        Some(t) => (if text.len() > 0 {
                                            text + sep(32)
                                        } else {
                                            text
                                        }) + time_spec(seconds, t),
                                    },
                                ),
                            }
                        }
                    },
                }
            },
        },
    }
}

/// Gregorian leap year.
pub fn leap(year: u32) -> (r: bool)
    ensures
        r == leap_spec(year as int),
{
    year % 4 == 0 && (year % 100 != 0 || year % 400 == 0)
}

/// Days before the first of `year`.
pub fn days_before_year(year: u32) -> (r: u32)
    requires
        1 <= year <= 100_000,
    ensures
        r == days_before_year_spec(year as int),
{
    let preceding = year - 1;
    365 * preceding + preceding / 4 - preceding / 100 + preceding / 400
}

proof fn lemma_div_step(p: int, d: int)
    requires
        p >= 0,
        d > 0,
    ensures
        (p + 1) / d == p / d + (if (p + 1) % d == 0 { 1int } else { 0int }),
{
    vstd::arithmetic::div_mod::lemma_fundamental_div_mod(p, d);
    vstd::arithmetic::div_mod::lemma_fundamental_div_mod(p + 1, d);
    vstd::arithmetic::div_mod::lemma_mod_bound(p, d);
    vstd::arithmetic::div_mod::lemma_mod_bound(p + 1, d);
    let q = p / d;
    let r = p % d;
    if r + 1 == d {
        assert(p + 1 == (q + 1) * d) by (nonlinear_arith)
            requires p == d * q + r, r + 1 == d;
        vstd::arithmetic::div_mod::lemma_div_multiples_vanish(q + 1, d);
        vstd::arithmetic::div_mod::lemma_mod_multiples_basic(q + 1, d);
    } else {
        assert(p + 1 == q * d + (r + 1)) by (nonlinear_arith)
            requires p == d * q + r;
        vstd::arithmetic::div_mod::lemma_fundamental_div_mod_converse(p + 1, d, q, r + 1);
    }
}

/// One year further on is one year length further on.
pub proof fn lemma_days_before_next_year(year: int)
    requires
        year >= 1,
    ensures
        days_before_year_spec(year + 1) == days_before_year_spec(year) + year_length(year),
{
    let p = year - 1;
    lemma_div_step(p, 4);
    lemma_div_step(p, 100);
    lemma_div_step(p, 400);
}

/// Jumping `k` whole years ahead leaves the located day unchanged.
proof fn lemma_locate_year_skip(ordinal: int, epoch: int, k: nat)
    requires
        epoch >= 1,
        days_before_year_spec(epoch + k) - days_before_year_spec(epoch) <= ordinal,
    ensures
        locate_year(ordinal, epoch) == locate_year(
            ordinal - (days_before_year_spec(epoch + k) - days_before_year_spec(epoch)),
            epoch + k,
        ),
    decreases k,
{
    if k > 0 {
        let j = (k - 1) as nat;
        lemma_days_before_next_year(epoch + j);
        lemma_locate_year_skip(ordinal, epoch, j);
        let rest = ordinal - (days_before_year_spec(epoch + j) - days_before_year_spec(epoch));
        assert(rest >= year_length(epoch + j));
        assert(epoch + j + 1 == epoch + k);
    }
}

/// `k` years hold at most `366·k` days.
proof fn lemma_years_bound(epoch: int, k: nat)
    requires
        epoch >= 1,
    ensures
        days_before_year_spec(epoch + k) - days_before_year_spec(epoch) <= 366 * k,
        days_before_year_spec(epoch + k) - days_before_year_spec(epoch) >= 365 * k,
    decreases k,
{
    if k > 0 {
        lemma_years_bound(epoch, (k - 1) as nat);
        lemma_days_before_next_year(epoch + k - 1);
    }
}

/// Days in `year`.
pub fn year_days(year: u32) -> (r: u32)
    ensures
        r == year_length(year as int),
{
    if leap(year) {
        366
    } else {
        365
    }
}

/// Days in `month` of `year`.
pub fn month_days(year: u32, month: u32) -> (r: u32)
    ensures
        r == month_length(year as int, month as int),
{
    if month == 2 {
        if leap(year) {
            29
        } else {
            28
        }
    } else if month == 4 || month == 6 || month == 9 || month == 11 {
        30
    } else {
        31
    }
}

/// Days from the first of `month` to the end of the year.
pub open spec fn days_from_month(year: int, month: int) -> int
    decreases 13 - month,
{
    if month >= 13 {
        0
    } else {
        month_length(year, month) + days_from_month(year, month + 1)
    }
}

proof fn lemma_days_from_january(year: int)
    ensures
        days_from_month(year, 1) == year_length(year),
{
    reveal_with_fuel(days_from_month, 13);
}

/// A date (year, month, day) with a month of the year and a day of that
/// month.
pub open spec fn valid_date(d: (int, int, int)) -> bool {
    1 <= d.1 <= 12 && 1 <= d.2 <= month_length(d.0, d.1)
}

/// The calendar day after `d`.
pub open spec fn next_day(d: (int, int, int)) -> (int, int, int) {
    if d.2 < month_length(d.0, d.1) {
        (d.0, d.1, d.2 + 1)
    } else if d.1 < 12 {
        (d.0, d.1 + 1, 1)
    } else {
        (d.0 + 1, 1, 1)
    }
}

proof fn lemma_locate_year_step(o: int, y: int)
    requires
        o >= 0,
    ensures
        0 <= locate_year(o, y).1 < year_length(locate_year(o, y).0),
        locate_year(o + 1, y) == (if locate_year(o, y).1 + 1 < year_length(locate_year(o, y).0) {
            (locate_year(o, y).0, locate_year(o, y).1 + 1)
        } else {
            (locate_year(o, y).0 + 1, 0)
        }),
    decreases o,
{
    if o >= year_length(y) {
        lemma_locate_year_step(o - year_length(y), y + 1);
        assert(locate_year(o + 1, y) == locate_year(o + 1 - year_length(y), y + 1));
    } else if o + 1 == year_length(y) {
        assert(locate_year(o + 1, y) == locate_year(0, y + 1));
        assert(locate_year(0, y + 1) == (y + 1, 0int));
    }
}

proof fn lemma_days_from_positive(y: int, k: int)
    requires
        k <= 12,
    ensures
        days_from_month(y, k) > 0,
    decreases 13 - k,
{
    reveal_with_fuel(days_from_month, 2);
    if k < 12 {
        lemma_days_from_positive(y, k + 1);
    }
}

proof fn lemma_locate_month_step(off: int, y: int, k: int)
    requires
        1 <= k <= 12,
        0 <= off < days_from_month(y, k),
    ensures
        k <= locate_month(off, y, k).0 <= 12,
        0 <= locate_month(off, y, k).1 < month_length(y, locate_month(off, y, k).0),
        off + 1 < days_from_month(y, k) ==> locate_month(off + 1, y, k) == (if locate_month(off, y, k).1
            + 1 < month_length(y, locate_month(off, y, k).0) {
            (locate_month(off, y, k).0, locate_month(off, y, k).1 + 1)
        } else {
            (locate_month(off, y, k).0 + 1, 0)
        }),
        off + 1 == days_from_month(y, k) ==> locate_month(off, y, k).0 == 12 && locate_month(off, y, k).1
            + 1 == month_length(y, 12),
    decreases 12 - k,
{
    reveal_with_fuel(days_from_month, 2);
    if k == 12 {
    } else if off < month_length(y, k) {
        lemma_days_from_positive(y, k + 1);
        if off + 1 == month_length(y, k) {
            assert(locate_month(off + 1, y, k) == locate_month(0, y, k + 1));
        }
    } else {
        lemma_locate_month_step(off - month_length(y, k), y, k + 1);
        assert(locate_month(off + 1, y, k) == locate_month(off + 1 - month_length(y, k), y, k + 1));
    }
}

/// Consecutive serial day numbers (away from the 1900 system's
/// nonexistent 29 February) give valid dates, the second the day after the
/// first.
pub proof fn law_calendar_next_day(s: int, date1904: bool)
    requires
        (date1904 && s >= 0) || (!date1904 && ((1 <= s < 59) || 61 <= s)),
    ensures
        calendar_spec(s, date1904) matches Some(a) && calendar_spec(s + 1, date1904) matches Some(b)
            && valid_date(a) && valid_date(b) && b == next_day(a),
{
    let epoch: int = if date1904 {
        1904
    } else {
        1900
    };
    let o: int = if date1904 {
        s
    } else if s > 60 {
        s - 2
    } else {
        s - 1
    };
    lemma_locate_year_step(o, epoch);
    let (y, off) = locate_year(o, epoch);
    lemma_days_from_january(y);
    lemma_days_from_january(y + 1);
    lemma_locate_month_step(off, y, 1);
    if off + 1 < year_length(y) {
        lemma_locate_month_step(off + 1, y, 1);
    } else {
        lemma_days_from_positive(y + 1, 1);
        lemma_locate_month_step(0, y + 1, 1);
        assert(locate_month(0, y + 1, 1) == (1int, 0int));
    }
}

/// A calendar date.
pub struct Calendar {
    pub year: u32,
    pub month: u32,
    pub day: u32,
}

/// The calendar date of a serial day number (see `calendar_spec`).
pub fn calendar(serial: u32, date1904: bool) -> (r: Option<Calendar>)
    requires
        serial <= 3_000_000,
    ensures
        match r {
            Some(c) => calendar_spec(serial as int, date1904) == Some(
                (c.year as int, c.month as int, c.day as int),
            ),
            None => calendar_spec(serial as int, date1904) is None,
        },
{
    if !date1904 && serial == 60 {
        return Some(Calendar { year: 1900, month: 2, day: 29 });
    }
    if !date1904 && serial < 1 {
        return None;
    }
    let epoch: u32 = if date1904 {
        1904
    } else {
        1900
    };
    let ordinal: u32 = if date1904 {
        serial
    } else if serial > 60 {
        serial - 2
    } else {
        serial - 1
    };
    let mut year = epoch + ordinal / 366;
    proof {
        lemma_years_bound(epoch as int, (ordinal / 366) as nat);
        lemma_locate_year_skip(ordinal as int, epoch as int, (ordinal / 366) as nat);
    }
    let mut remaining = ordinal - (days_before_year(year) - days_before_year(epoch));
    assert(year - epoch <= ordinal / 365) by {
        assert(ordinal / 366 <= ordinal / 365);
    }
    while remaining >= year_days(year)
        invariant
            epoch == 1900 || epoch == 1904,
            epoch <= year,
            year - epoch <= ordinal / 365,
            ordinal <= 3_000_000,
            remaining + days_before_year_spec(year as int) - days_before_year_spec(epoch as int)
                == ordinal,
            locate_year(remaining as int, year as int) == locate_year(ordinal as int, epoch as int),
        decreases remaining,
    {
        proof {
            lemma_days_before_next_year(year as int);
            lemma_years_bound(epoch as int, (year + 1 - epoch) as nat);
        }
        remaining = remaining - year_days(year);
        year = year + 1;
    }
    let ghost offset = remaining as int;
    assert(locate_year(ordinal as int, epoch as int) == (year as int, offset));
    assert(offset < year_length(year as int));
    let mut month: u32 = 1;
    proof {
        lemma_days_from_january(year as int);
    }
    let ghost expected = {
        let (m, d0) = locate_month(offset, year as int, 1);
        Some((year as int, m, d0 + 1))
    };
    assert(calendar_spec(serial as int, date1904) == expected);
    while month <= 12
        invariant
            1 <= month <= 13,
            1900 <= year <= 20_000,
            calendar_spec(serial as int, date1904) == expected,
            expected == {
                let (m, d0) = locate_month(offset, year as int, 1);
                Some((year as int, m, d0 + 1))
            },
            locate_month(remaining as int, year as int, month as int) == locate_month(
                offset,
                year as int,
                1,
            ),
            remaining < days_from_month(year as int, month as int),
        decreases 13 - month,
    {
        let days = month_days(year, month);
        proof {
            reveal_with_fuel(days_from_month, 2);
        }
        if remaining < days {
            return Some(Calendar { year, month, day: remaining + 1 });
        }
        remaining = remaining - days;
        month = month + 1;
    }
    None
}

impl Calendar {
    /// The date written in `code`.
    pub fn render(&self, code: DateCode) -> (r: Option<Vec<u8>>)
        ensures
            match r {
                Some(t) => render_spec(self.year as nat, self.month as nat, self.day as nat, code)
                    == Some(t@),
                None => render_spec(self.year as nat, self.month as nat, self.day as nat, code) is None,
            },
    {
        if self.month < 1 || self.month > 12 {
            return None;
        }
        let year = self.year as u64;
        let month = self.month as u64;
        let day = self.day as u64;
        let short_year = year % 100;
        let name = month_name_exec(self.month);
        let mut out: Vec<u8> = Vec::new();
        match code {
            DateCode::IsoDate => {
                push_padded(&mut out, year, 4);
                out.push(45);
                push_padded(&mut out, month, 2);
                out.push(45);
                push_padded(&mut out, day, 2);
            },
            DateCode::MonthDayShortYear => {
                push_padded(&mut out, month, 1);
                out.push(47);
                push_padded(&mut out, day, 1);
                out.push(47);
                push_padded(&mut out, short_year, 2);
            },
            DateCode::PaddedMonthDayShortYear => {
                push_padded(&mut out, month, 2);
                out.push(47);
                push_padded(&mut out, day, 2);
                out.push(47);
                push_padded(&mut out, short_year, 2);
            },
            DateCode::MonthDayYear => {
                push_padded(&mut out, month, 1);
                out.push(47);
                push_padded(&mut out, day, 1);
                out.push(47);
                push_padded(&mut out, year, 4);
            },
            DateCode::PaddedMonthDayYear => {
                push_padded(&mut out, month, 2);
                out.push(47);
                push_padded(&mut out, day, 2);
                out.push(47);
                push_padded(&mut out, year, 4);
            },
            DateCode::DashedMonthDayShortYear => {
                push_padded(&mut out, month, 2);
                out.push(45);
                push_padded(&mut out, day, 2);
                out.push(45);
                push_padded(&mut out, short_year, 2);
            },
            DateCode::DayMonthNameShortYear => {
                push_padded(&mut out, day, 1);
                out.push(45);
                push_all(&mut out, name.as_bytes());
                out.push(45);
                push_padded(&mut out, short_year, 2);
            },
            DateCode::DayMonthName => {
                push_padded(&mut out, day, 1);
                out.push(45);
                push_all(&mut out, name.as_bytes());
            },
            DateCode::MonthNameShortYear => {
                push_all(&mut out, name.as_bytes());
                out.push(45);
                push_padded(&mut out, short_year, 2);
            },
        }
        proof {
            lemma_padded_one(month as nat);
            lemma_padded_one(day as nat);
            assert(out@ =~= render_spec(self.year as nat, self.month as nat, self.day as nat, code).unwrap());
        }
        Some(out)
    }
}

/// Width one never pads.
pub proof fn lemma_padded_one(n: nat)
    ensures
        padded(n, 1) == decimal(n),
{
    if n > 0 {
        crate::digits::lemma_canonical_digits(n);
        assert(crate::digits::canonical(n).len() > 0);
    }
}

/// English month abbreviation.
pub fn month_name_exec(month: u32) -> (r: &'static str)
    requires
        1 <= month <= 12,
    ensures
        r.spec_bytes() == month_name(month as int),
{
    if month == 1 {
        "Jan"
    } else if month == 2 {
        "Feb"
    } else if month == 3 {
        "Mar"
    } else if month == 4 {
        "Apr"
    } else if month == 5 {
        "May"
    } else if month == 6 {
        "Jun"
    } else if month == 7 {
        "Jul"
    } else if month == 8 {
        "Aug"
    } else if month == 9 {
        "Sep"
    } else if month == 10 {
        "Oct"
    } else if month == 11 {
        "Nov"
    } else {
        "Dec"
    }
}

/// A number of seconds written in a time code.
pub fn time(seconds: u64, code: TimeCode) -> (r: Vec<u8>)
    ensures
        r@ == time_spec(seconds as nat, code),
{
    let hour = seconds / 3_600 % 24;
    let minute = seconds / 60 % 60;
    let second = seconds % 60;
    let mut out: Vec<u8> = Vec::new();
    match code {
        TimeCode::MinuteSecond => {
            push_padded(&mut out, minute, 2);
            out.push(58);
            push_padded(&mut out, second, 2);
        },
        TimeCode::ElapsedHours => {
            push_padded(&mut out, seconds / 3_600, 1);
            out.push(58);
            push_padded(&mut out, minute, 2);
            out.push(58);
            push_padded(&mut out, second, 2);
            proof {
                lemma_padded_one((seconds / 3600) as nat);
            }
        },
        _ => {
            let meridiem = code == TimeCode::MeridiemHourMinute || code
                == TimeCode::MeridiemHourMinuteSecond;
            let shown = if meridiem {
                (hour + 11) % 12 + 1
            } else {
                hour
            };
            let width: usize = if code == TimeCode::PaddedHourMinute || code
                == TimeCode::PaddedHourMinuteSecond {
                2
            } else {
                1
            };
            let with_seconds = code == TimeCode::HourMinuteSecond || code
                == TimeCode::PaddedHourMinuteSecond || code == TimeCode::MeridiemHourMinuteSecond;
            push_padded(&mut out, shown, width);
            out.push(58);
            push_padded(&mut out, minute, 2);
            if with_seconds {
                out.push(58);
                push_padded(&mut out, second, 2);
            }
            if meridiem {
                if hour < 12 {
                    push_all(&mut out, " AM".as_bytes());
                } else {
                    push_all(&mut out, " PM".as_bytes());
                }
            }
        },
    }
    assert(out@ =~= time_spec(seconds as nat, code));
    out
}

/// Formats a decimal with a lower-cased date or time code (see `display_spec`).
pub fn display(value: &Decimal, lc: &[u8], date1904: bool) -> (r: Option<Vec<u8>>)
    requires
        value.wf(),
        -1000 <= value.point <= 1000,
        value.digits@.len() <= 1000,
    ensures
        match r {
            Some(t) => display_spec(value.model(), lc@, date1904) == Some(t@),
            None => display_spec(value.model(), lc@, date1904) is None,
        },
{
    let (date_code, time_code) = match date_time_codes_exec(lc) {
        Some(codes) => codes,
        None => return None,
    };
    let max_day: u64 = if date1904 {
        2_957_003
    } else {
        2_958_465
    };
    let whole_day = match value.units(1, false) {
        Some(v) => v,
        None => return None,
    };
    if whole_day > max_day {
        return None;
    }
    let seconds = match value.units(86_400, true) {
        Some(v) => v,
        None => return None,
    };
    let day = if time_code.is_none() {
        whole_day
    } else {
        seconds / 86_400
    };
    if day > max_day {
        return None;
    }
    let mut result: Vec<u8> = match date_code {
        None => Vec::new(),
        Some(code) => match calendar(day as u32, date1904) {
            None => return None,
            Some(c) => match c.render(code) {
                None => return None,
                Some(text) => text,
            },
        },
    };
    let ghost date_part = result@;
    match time_code {
        None => {},
        Some(t) => {
            if result.len() > 0 {
                result.push(32);
            }
            let clock = time(seconds, t);
            push_all(&mut result, &clock);
        },
    }
    proof {
        if time_code is Some && date_part.len() > 0 {
            assert(result@ =~= date_part + sep(32) + time_spec(seconds as nat, time_code.unwrap()));
        }
    }
    Some(result)
}

} // verus!
