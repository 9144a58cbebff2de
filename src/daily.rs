//! Decoding of the daily-observation format: one line holds a station, a
//! month and an element, followed by 31 day slots of eight characters each.

use vstd::prelude::*;
use crate::calendar::{is_valid_date, spec_is_valid_date, spec_days_in_month, spec_is_leap_year};
use crate::columns::{column_text, char_at_or_space, spec_column};
use crate::errors::{Field, MalformedField, MalformedFieldView};
use crate::numbers::{parse_int, spec_parse_int};

verus! {

pub const ID_OFFSET: usize = 0;
pub const ID_LEN: usize = 11;
pub const YEAR_OFFSET: usize = 11;
pub const YEAR_LEN: usize = 4;
pub const MONTH_OFFSET: usize = 15;
pub const MONTH_LEN: usize = 2;
pub const ELEMENT_OFFSET: usize = 17;
pub const ELEMENT_LEN: usize = 4;
/// Position of the first day slot.
pub const DAYS_OFFSET: usize = 21;
/// Width of one day slot: value, then three flags.
pub const SLOT_LEN: usize = 8;
pub const VALUE_LEN: usize = 5;
pub const DAY_SLOTS: i32 = 31;
/// The value that stands for a missing observation.
pub const MISSING_VALUE: i32 = -9999;

/// One observation of one day.
#[derive(Clone, Debug)]
pub struct DailyRecord {
    pub id: Vec<char>,
    pub year: i32,
    pub month: i32,
    pub day: i32,
    pub element: Vec<char>,
    pub value: i32,
    pub mflag: char,
    pub qflag: char,
    pub sflag: char,
}

pub struct DailyRecordView {
    pub id: Seq<char>,
    pub year: int,
    pub month: int,
    pub day: int,
    pub element: Seq<char>,
    pub value: int,
    pub mflag: char,
    pub qflag: char,
    pub sflag: char,
}

impl View for DailyRecord {
    type V = DailyRecordView;

    open spec fn view(&self) -> DailyRecordView {
        DailyRecordView {
            id: self.id@,
            year: self.year as int,
            month: self.month as int,
            day: self.day as int,
            element: self.element@,
            value: self.value as int,
            mflag: self.mflag,
            qflag: self.qflag,
            sflag: self.sflag,
        }
    }
}

pub open spec fn spec_views(v: Seq<DailyRecord>) -> Seq<DailyRecordView> {
    v.map_values(|r: DailyRecord| r@)
}

/// Position of the slot of `day` (1-based).
pub open spec fn spec_slot_start(day: int) -> int {
    DAYS_OFFSET + SLOT_LEN * (day - 1)
}

pub open spec fn spec_flag(line: Seq<char>, pos: int) -> char {
    if pos < line.len() { line[pos] } else { ' ' }
}

pub open spec fn spec_station_id(line: Seq<char>) -> Seq<char> {
    spec_column(line, ID_OFFSET as int, ID_LEN as int)
}

pub open spec fn spec_value_text(line: Seq<char>, day: int) -> Seq<char> {
    spec_column(line, spec_slot_start(day), VALUE_LEN as int)
}

/// The record for `day`, whose value text reads as `value`.
pub open spec fn spec_day_record(line: Seq<char>, year: int, month: int, day: int, value: int) -> DailyRecordView {
    let s = spec_slot_start(day);
    DailyRecordView {
        id: spec_station_id(line),
        year,
        month,
        day,
        element: spec_column(line, ELEMENT_OFFSET as int, ELEMENT_LEN as int),
        value,
        mflag: spec_flag(line, s + 5),
        qflag: spec_flag(line, s + 6),
        sflag: spec_flag(line, s + 7),
    }
}

pub open spec fn spec_malformed(line: Seq<char>, field: Field, text: Seq<char>) -> MalformedFieldView {
    MalformedFieldView { station: spec_station_id(line), field, text }
}

/// The records of day slots 1..=n, in day order: slots that are no real date are
/// skipped; the first real date whose value is not a number is an error.
pub open spec fn spec_decode_days(line: Seq<char>, year: int, month: int, n: int) -> Result<Seq<DailyRecordView>, MalformedFieldView>
    decreases n,
{
    if n <= 0 {
        Ok(Seq::empty())
    } else {
        match spec_decode_days(line, year, month, n - 1) {
            Err(e) => Err(e),
            Ok(rs) => {
                if !spec_is_valid_date(year, month, n) {
                    Ok(rs)
                } else {
                    match spec_parse_int(spec_value_text(line, n)) {
                        None => Err(spec_malformed(line, Field::Value(n as i32), spec_value_text(line, n))),
                        Some(v) => Ok(rs.push(spec_day_record(line, year, month, n, v))),
                    }
                }
            },
        }
    }
}

/// What one line decodes to: the records of its real dates, in day order, or
/// the first field that is not a number.
pub open spec fn spec_decode_daily_line(line: Seq<char>) -> Result<Seq<DailyRecordView>, MalformedFieldView> {
    let year_text = spec_column(line, YEAR_OFFSET as int, YEAR_LEN as int);
    let month_text = spec_column(line, MONTH_OFFSET as int, MONTH_LEN as int);
    match spec_parse_int(year_text) {
        None => Err(spec_malformed(line, Field::Year, year_text)),
        Some(year) => match spec_parse_int(month_text) {
            None => Err(spec_malformed(line, Field::Month, month_text)),
            Some(month) => spec_decode_days(line, year, month, DAY_SLOTS as int),
        },
    }
}

/// Once a slot fails, the later slots do not change the outcome.
proof fn lemma_decode_days_error_persists(line: Seq<char>, year: int, month: int, n: int, k: int)
    requires
        n <= k,
        spec_decode_days(line, year, month, n) is Err,
    ensures
        spec_decode_days(line, year, month, k) == spec_decode_days(line, year, month, n),
    decreases k - n,
{
    if n < k {
        lemma_decode_days_error_persists(line, year, month, n, k - 1);
    }
}

/// Decodes one line into its per-day records (at most 31, ascending by day),
/// dropping the slots that are no real calendar date.
pub fn decode_daily_line(line: &Vec<char>) -> (r: Result<Vec<DailyRecord>, MalformedField>)
    ensures
        match r {
            Ok(v) => spec_decode_daily_line(line@) == Ok::<_, MalformedFieldView>(spec_views(v@)),
            Err(e) => spec_decode_daily_line(line@) == Err::<Seq<DailyRecordView>, _>(e@),
        },
{
    let id = column_text(line, ID_OFFSET, ID_LEN);
    let year_text = column_text(line, YEAR_OFFSET, YEAR_LEN);
    let year = match parse_int(&year_text) {
        None => {
            return Err(MalformedField { station: id, field: Field::Year, text: year_text });
        },
        Some(y) => y,
    };
    let month_text = column_text(line, MONTH_OFFSET, MONTH_LEN);
    let month = match parse_int(&month_text) {
        None => {
            return Err(MalformedField { station: id, field: Field::Month, text: month_text });
        },
        Some(m) => m,
    };
    let element = column_text(line, ELEMENT_OFFSET, ELEMENT_LEN);
    let mut records: Vec<DailyRecord> = Vec::new();
    let mut day: i32 = 1;
    assert(spec_views(records@) =~= Seq::<DailyRecordView>::empty());
    while day <= DAY_SLOTS
        invariant
            1 <= day <= DAY_SLOTS + 1,
            spec_parse_int(spec_column(line@, YEAR_OFFSET as int, YEAR_LEN as int)) == Some(year as int),
            spec_parse_int(spec_column(line@, MONTH_OFFSET as int, MONTH_LEN as int)) == Some(month as int),
            id@ == spec_station_id(line@),
            element@ == spec_column(line@, ELEMENT_OFFSET as int, ELEMENT_LEN as int),
            spec_decode_days(line@, year as int, month as int, day - 1) == Ok::<_, MalformedFieldView>(spec_views(records@)),
        decreases DAY_SLOTS + 1 - day,
    {
        if is_valid_date(year, month, day) {
            let start: usize = DAYS_OFFSET + SLOT_LEN * ((day - 1) as usize);
            let text = column_text(line, start, VALUE_LEN);
            match parse_int(&text) {
                None => {
                    proof {
                        lemma_decode_days_error_persists(line@, year as int, month as int, day as int, DAY_SLOTS as int);
                    }
                    return Err(MalformedField { station: id, field: Field::Value(day), text });
                },
                Some(value) => {
                    let rec = DailyRecord {
                        id: id.clone(),
                        year,
                        month,
                        day,
                        element: element.clone(),
                        value,
                        mflag: char_at_or_space(line, start + 5),
                        qflag: char_at_or_space(line, start + 6),
                        sflag: char_at_or_space(line, start + 7),
                    };
                    assert(rec.id@ =~= id@);
                    assert(rec.element@ =~= element@);
                    let ghost old_records = records@;
                    records.push(rec);
                    assert(spec_views(records@) =~= spec_views(old_records).push(rec@));
                },
            }
        }
        day = day + 1;
    }
    Ok(records)
}

} // verus!

verus! {

/// What the day slots 1..=n produce on success: one record per real date, in
/// ascending day order, each carrying the header's year and month and the
/// number that its value text reads as.
proof fn lemma_decode_days_shape(line: Seq<char>, year: int, month: int, n: int)
    requires
        0 <= n,
        spec_decode_days(line, year, month, n) is Ok,
    ensures
        ({
            let rs = spec_decode_days(line, year, month, n)->Ok_0;
            &&& rs.len() <= n
            &&& forall|i: int| 0 <= i < rs.len() ==> {
                &&& 1 <= (#[trigger] rs[i]).day <= n
                &&& spec_is_valid_date(year, month, rs[i].day)
                &&& spec_parse_int(spec_value_text(line, rs[i].day)) == Some(rs[i].value)
                &&& rs[i] == spec_day_record(line, year, month, rs[i].day, rs[i].value)
            }
            &&& forall|i: int, j: int| 0 <= i < j < rs.len() ==> rs[i].day < rs[j].day
            &&& forall|d: int| 1 <= d <= n && spec_is_valid_date(year, month, d) ==> exists|i: int|
                0 <= i < rs.len() && (#[trigger] rs[i]).day == d
        }),
    decreases n,
{
    if n > 0 {
        lemma_decode_days_shape(line, year, month, n - 1);
        let prev = spec_decode_days(line, year, month, n - 1)->Ok_0;
        let rs = spec_decode_days(line, year, month, n)->Ok_0;
        if spec_is_valid_date(year, month, n) {
            assert(rs.len() == prev.len() + 1);
            assert(rs[prev.len() as int].day == n);
            assert forall|d: int| 1 <= d <= n && spec_is_valid_date(year, month, d) implies exists|i: int|
                0 <= i < rs.len() && (#[trigger] rs[i]).day == d by {
                if d < n {
                    let i = choose|i: int| 0 <= i < prev.len() && (#[trigger] prev[i]).day == d;
                    assert(rs[i] == prev[i]);
                } else {
                    assert(rs[prev.len() as int].day == d);
                }
            }
        } else {
            assert forall|d: int| 1 <= d <= n && spec_is_valid_date(year, month, d) implies exists|i: int|
                0 <= i < rs.len() && (#[trigger] rs[i]).day == d by {
                assert(d < n);
            }
        }
    }
}

/// Every record that a line decodes to is a real calendar date of the line's
/// month, there are at most 31 of them, they ascend by day, and each value is
/// the number its slot's text reads as (the missing-value sentinel included).
pub proof fn lemma_daily_records_are_real_dates(line: Seq<char>)
    requires
        spec_decode_daily_line(line) is Ok,
    ensures
        ({
            let rs = spec_decode_daily_line(line)->Ok_0;
            &&& rs.len() <= DAY_SLOTS
            &&& forall|i: int| 0 <= i < rs.len() ==> {
                &&& 1 <= (#[trigger] rs[i]).month <= 12
                &&& 1 <= rs[i].day <= spec_days_in_month(rs[i].year, rs[i].month)
                &&& spec_parse_int(spec_value_text(line, rs[i].day)) == Some(rs[i].value)
            }
            &&& forall|i: int, j: int| 0 <= i < j < rs.len() ==> rs[i].day < rs[j].day
        }),
{
    let year = spec_parse_int(spec_column(line, YEAR_OFFSET as int, YEAR_LEN as int))->Some_0;
    let month = spec_parse_int(spec_column(line, MONTH_OFFSET as int, MONTH_LEN as int))->Some_0;
    lemma_decode_days_shape(line, year, month, DAY_SLOTS as int);
}

/// In February, the slots for days 30 and 31 never produce a record, and the
/// slot for day 29 produces one exactly in leap years.
pub proof fn lemma_february_filtering(line: Seq<char>)
    requires
        spec_decode_daily_line(line) is Ok,
        spec_parse_int(spec_column(line, MONTH_OFFSET as int, MONTH_LEN as int)) == Some(2int),
    ensures
        ({
            let rs = spec_decode_daily_line(line)->Ok_0;
            let year = spec_parse_int(spec_column(line, YEAR_OFFSET as int, YEAR_LEN as int))->Some_0;
            &&& forall|i: int| 0 <= i < rs.len() ==> (#[trigger] rs[i]).day != 30 && rs[i].day != 31
            &&& (exists|i: int| 0 <= i < rs.len() && (#[trigger] rs[i]).day == 29) <==> spec_is_leap_year(year)
        }),
{
    let year = spec_parse_int(spec_column(line, YEAR_OFFSET as int, YEAR_LEN as int))->Some_0;
    lemma_decode_days_shape(line, year, 2, DAY_SLOTS as int);
    let rs = spec_decode_daily_line(line)->Ok_0;
    assert(spec_is_valid_date(year, 2, 29) == spec_is_leap_year(year));
    if exists|i: int| 0 <= i < rs.len() && (#[trigger] rs[i]).day == 29 {
        let i = choose|i: int| 0 <= i < rs.len() && (#[trigger] rs[i]).day == 29;
        assert(spec_is_valid_date(year, 2, rs[i].day));
    }
}

} // verus!
