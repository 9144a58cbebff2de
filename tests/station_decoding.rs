use noaa_cdo::errors::Field;
use noaa_cdo::numbers::Decimal;
use noaa_cdo::station::{decode_station_file, decode_station_line, is_code};

fn chars(s: &str) -> Vec<char> {
    s.chars().collect()
}

fn station_line(id: &str, lat: &str, lon: &str, elev: &str, state: &str, name: &str, gsn: &str, net: &str, wmo: &str) -> Vec<char> {
    chars(&format!("{:<11} {:>8} {:>9} {:>6} {:<2} {:<30} {:<3} {:<3} {:<5}", id, lat, lon, elev, state, name, gsn, net, wmo))
}

fn degrees(d: Decimal) -> f64 {
    d.units as f64 / 10f64.powi(d.scale as i32)
}

#[test]
fn example_latitude() {
    let line = station_line("AGE00135039", "36.7000", "3.0700", "50.0", "", "ALGER-PORT", "GSN", "", "60369");
    assert_eq!(line.len(), 85);
    let s = decode_station_line(&line).unwrap();
    assert_eq!(s.id, chars("AGE00135039"));
    assert_eq!(s.lat, Decimal { units: 367000, scale: 4 });
    assert!((degrees(s.lat) - 36.7).abs() < 1e-9);
    assert_eq!(s.lon, Decimal { units: 30700, scale: 4 });
    assert_eq!(s.elevation, Decimal { units: 500, scale: 1 });
    assert_eq!(s.state, Vec::<char>::new());
    assert_eq!(s.name, chars("ALGER-PORT"));
    assert!(s.gsn);
    assert!(!s.hcn);
    assert!(!s.crn);
    assert_eq!(s.wmo, chars("60369"));
}

#[test]
fn network_markers() {
    let hcn = decode_station_line(&station_line("USC00011084", "31.0581", "-87.0547", "25.9", "AL", "BREWTON 3 SSE", "", "HCN", "")).unwrap();
    assert!(hcn.hcn && !hcn.crn && !hcn.gsn);
    assert_eq!(hcn.state, chars("AL"));
    assert_eq!(hcn.lon, Decimal { units: -870547, scale: 4 });
    let crn = decode_station_line(&station_line("USW00003047", "31.0", "-102.0", "1000.0", "TX", "X", "", "CRN", "")).unwrap();
    assert!(!crn.hcn && crn.crn);
    let neither = decode_station_line(&station_line("USW00003047", "31.0", "-102.0", "1000.0", "TX", "X", "", "ABC", "")).unwrap();
    assert!(!neither.hcn && !neither.crn);
}

#[test]
fn short_station_line() {
    let line = chars("ACW00011604  17.1167  -61.7833   10.1    ST JOHNS COOLIDGE FLD");
    let s = decode_station_line(&line).unwrap();
    assert_eq!(s.name, chars("ST JOHNS COOLIDGE FLD"));
    assert!(!s.gsn && !s.hcn && !s.crn);
    assert_eq!(s.wmo, Vec::<char>::new());
}

#[test]
fn malformed_numeric_station_fields() {
    let e = decode_station_line(&station_line("AGE00135039", "north", "3.0", "50.0", "", "A", "", "", "")).unwrap_err();
    assert_eq!(e.field, Field::Latitude);
    assert_eq!(e.text, chars("north"));
    let e = decode_station_line(&station_line("AGE00135039", "36.7", "3,07", "50.0", "", "A", "", "", "")).unwrap_err();
    assert_eq!(e.field, Field::Longitude);
    let e = decode_station_line(&station_line("AGE00135039", "36.7", "3.07", "", "", "A", "", "", "")).unwrap_err();
    assert_eq!(e.field, Field::Elevation);
}

#[test]
fn station_file_one_record_per_good_line() {
    let lines = vec![
        station_line("AGE00135039", "36.7000", "3.0700", "50.0", "", "ALGER-PORT", "GSN", "", "60369"),
        station_line("AGE00147708", "x", "4.05", "222.0", "", "TIZI OUZOU", "", "", ""),
        station_line("USC00011084", "31.0581", "-87.0547", "25.9", "AL", "BREWTON", "", "HCN", ""),
    ];
    let decoded = decode_station_file(&lines);
    assert_eq!(decoded.records.len(), 2);
    assert_eq!(decoded.records[1].id, chars("USC00011084"));
    assert_eq!(decoded.errors.len(), 1);
    assert_eq!(decoded.errors[0].line_no, 2);
}

#[test]
fn three_letter_codes() {
    assert!(is_code(&chars("GSN"), 'G', 'S', 'N'));
    assert!(!is_code(&chars("GS"), 'G', 'S', 'N'));
    assert!(!is_code(&chars("GSNX"), 'G', 'S', 'N'));
}
