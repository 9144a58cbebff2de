use noaa_cdo::calendar::{days_in_month, is_leap_year, is_valid_date};
use noaa_cdo::daily::{decode_daily_line, DailyRecord, MISSING_VALUE};
use noaa_cdo::dispatch::{decode_daily_file, merge_in_file_order};
use noaa_cdo::errors::Field;

fn chars(s: &str) -> Vec<char> {
    s.chars().collect()
}

/// A full-width daily line whose slots all hold `slot`, except day 1 which holds `first`.
fn daily_line(id: &str, year: &str, month: &str, element: &str, first: &str, slot: &str) -> Vec<char> {
    let mut s = format!("{}{}{}{}", id, year, month, element);
    s.push_str(first);
    for _ in 1..31 {
        s.push_str(slot);
    }
    chars(&s)
}

fn days(records: &[DailyRecord]) -> Vec<i32> {
    records.iter().map(|r| r.day).collect()
}

#[test]
fn example_tmax_february_2020() {
    let line = daily_line("USW00094728", "2020", "02", "TMAX", "  150   ", "-9999   ");
    assert_eq!(line.len(), 269);
    let records = decode_daily_line(&line).unwrap();
    let r = &records[0];
    assert_eq!(r.id, chars("USW00094728"));
    assert_eq!(r.year, 2020);
    assert_eq!(r.month, 2);
    assert_eq!(r.day, 1);
    assert_eq!(r.element, chars("TMAX"));
    assert_eq!(r.value, 150);
}

#[test]
fn flags_are_kept_per_day() {
    let line = daily_line("USW00094728", "2021", "01", "PRCP", "   12TXS", "    0  7");
    let records = decode_daily_line(&line).unwrap();
    assert_eq!((records[0].mflag, records[0].qflag, records[0].sflag), ('T', 'X', 'S'));
    assert_eq!((records[1].mflag, records[1].qflag, records[1].sflag), (' ', ' ', '7'));
    assert_eq!(records[1].value, 0);
}

#[test]
fn at_most_31_records_in_day_order() {
    let line = daily_line("USW00094728", "2021", "07", "TMIN", "  -12   ", "   33   ");
    let records = decode_daily_line(&line).unwrap();
    assert_eq!(records.len(), 31);
    assert_eq!(days(&records), (1..=31).collect::<Vec<i32>>());
    assert_eq!(records[0].value, -12);
    assert_eq!(records[30].value, 33);
}

#[test]
fn missing_value_is_preserved() {
    let line = daily_line("USW00094728", "2021", "04", "SNOW", "-9999   ", "-9999   ");
    let records = decode_daily_line(&line).unwrap();
    assert_eq!(records.len(), 30);
    assert!(records.iter().all(|r| r.value == MISSING_VALUE));
}

#[test]
fn february_non_leap_year_drops_29_to_31() {
    let line = daily_line("USW00094728", "2019", "02", "TMAX", "    1   ", "    2   ");
    let records = decode_daily_line(&line).unwrap();
    assert_eq!(days(&records), (1..=28).collect::<Vec<i32>>());
}

#[test]
fn february_leap_year_keeps_29_drops_30() {
    for year in ["2020", "2000"] {
        let line = daily_line("USW00094728", year, "02", "TMAX", "    1   ", "    2   ");
        let records = decode_daily_line(&line).unwrap();
        assert_eq!(days(&records), (1..=29).collect::<Vec<i32>>());
    }
    let line = daily_line("USW00094728", "1900", "02", "TMAX", "    1   ", "    2   ");
    assert_eq!(decode_daily_line(&line).unwrap().len(), 28);
}

#[test]
fn short_line_slots_past_the_end_of_a_short_month() {
    // February 2019 needs 28 slots: 21 + 28 * 8 characters
    let full = daily_line("USW00094728", "2019", "02", "TMAX", "    5   ", "    6   ");
    let short: Vec<char> = full[..21 + 28 * 8].to_vec();
    let records = decode_daily_line(&short).unwrap();
    assert_eq!(records.len(), 28);
}

#[test]
fn malformed_value_is_an_error() {
    let mut line = daily_line("USW00094728", "2020", "03", "TMAX", "    1   ", "    2   ");
    // day 5 starts at 21 + 4 * 8
    line[21 + 32 + 2] = 'x';
    let e = decode_daily_line(&line).unwrap_err();
    assert_eq!(e.field, Field::Value(5));
    assert_eq!(e.station, chars("USW00094728"));
    assert_eq!(e.text, chars("x 2"));
}

#[test]
fn malformed_value_on_an_impossible_date_is_skipped() {
    let mut line = daily_line("USW00094728", "2019", "02", "TMAX", "    1   ", "    2   ");
    // day 30 starts at 21 + 29 * 8
    line[21 + 29 * 8 + 4] = '?';
    assert_eq!(decode_daily_line(&line).unwrap().len(), 28);
}

#[test]
fn malformed_year_and_month_are_errors() {
    let line = daily_line("USW00094728", "20x0", "02", "TMAX", "    1   ", "    2   ");
    let e = decode_daily_line(&line).unwrap_err();
    assert_eq!(e.field, Field::Year);
    assert_eq!(e.text, chars("20x0"));
    let line = daily_line("USW00094728", "2020", "b2", "TMAX", "    1   ", "    2   ");
    assert_eq!(decode_daily_line(&line).unwrap_err().field, Field::Month);
}

#[test]
fn month_out_of_range_gives_no_records() {
    let line = daily_line("USW00094728", "2020", "13", "TMAX", "    1   ", "    2   ");
    assert_eq!(decode_daily_line(&line).unwrap().len(), 0);
}

#[test]
fn malformed_line_keeps_other_lines_of_the_file() {
    let good1 = daily_line("USW00094728", "2021", "04", "TMAX", "    1   ", "    2   ");
    let mut bad = daily_line("USW00094728", "2021", "05", "TMAX", "    1   ", "    2   ");
    bad[21 + 8 * 2 + 4] = '*';
    let good2 = daily_line("USW00094728", "2021", "06", "TMAX", "    3   ", "    4   ");
    let decoded = decode_daily_file(&vec![good1, bad, good2]);
    assert_eq!(decoded.records.len(), 60);
    assert!(decoded.records[..30].iter().all(|r| r.month == 4));
    assert!(decoded.records[30..].iter().all(|r| r.month == 6));
    assert_eq!(decoded.errors.len(), 1);
    assert_eq!(decoded.errors[0].line_no, 2);
    assert_eq!(decoded.errors[0].error.field, Field::Value(3));
}

#[test]
fn decoding_twice_gives_the_same_output() {
    let lines = vec![
        daily_line("USW00094728", "2020", "02", "TMAX", "  150 X ", "  -31   "),
        daily_line("USC00011084", "1999", "12", "PRCP", "    0   ", "   25   "),
    ];
    let a = decode_daily_file(&lines);
    let b = decode_daily_file(&lines);
    let key = |r: &DailyRecord| (r.id.clone(), r.year, r.month, r.day, r.element.clone(), r.value, r.mflag, r.qflag, r.sflag);
    assert_eq!(a.records.iter().map(key).collect::<Vec<_>>(), b.records.iter().map(key).collect::<Vec<_>>());
}

#[test]
fn merge_follows_file_positions_not_arrival() {
    let arrived = vec![(2usize, vec![7, 8]), (0usize, vec![1]), (1usize, vec![4, 5])];
    assert_eq!(merge_in_file_order(3, arrived), vec![1, 4, 5, 7, 8]);
    let other_order = vec![(1usize, vec![4, 5]), (2usize, vec![7, 8]), (0usize, vec![1])];
    assert_eq!(merge_in_file_order(3, other_order), vec![1, 4, 5, 7, 8]);
}

#[test]
fn merge_of_missing_position_is_empty() {
    let arrived = vec![(3usize, vec!['d']), (0usize, vec!['a'])];
    assert_eq!(merge_in_file_order(4, arrived), vec!['a', 'd']);
    assert_eq!(merge_in_file_order::<u8>(0, vec![]), Vec::<u8>::new());
}

#[test]
fn calendar_rules() {
    assert!(is_leap_year(2024));
    assert!(is_leap_year(2000));
    assert!(!is_leap_year(1900));
    assert!(!is_leap_year(2023));
    assert_eq!(days_in_month(2023, 2), 28);
    assert_eq!(days_in_month(2024, 2), 29);
    assert_eq!(days_in_month(2024, 4), 30);
    assert_eq!(days_in_month(2024, 12), 31);
    assert!(is_valid_date(2024, 2, 29));
    assert!(!is_valid_date(2023, 2, 29));
    assert!(!is_valid_date(2024, 2, 30));
    assert!(!is_valid_date(2024, 0, 1));
    assert!(!is_valid_date(2024, 13, 1));
    assert!(!is_valid_date(2024, 1, 0));
    assert!(!is_valid_date(2024, 6, 31));
}
