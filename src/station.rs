//! Decoding of the station-metadata format: one flat record per line.

use vstd::prelude::*;
use crate::columns::{column_text, spec_column};
use crate::errors::{Field, LineError, LineErrorView, MalformedField, MalformedFieldView};
use crate::numbers::{Decimal, parse_decimal, spec_parse_decimal};

verus! {

pub const STATION_ID: (usize, usize) = (0, 11);
pub const LATITUDE: (usize, usize) = (12, 8);
pub const LONGITUDE: (usize, usize) = (21, 9);
pub const ELEVATION: (usize, usize) = (31, 6);
pub const STATE: (usize, usize) = (38, 2);
pub const NAME: (usize, usize) = (41, 30);
pub const GSN_FLAG: (usize, usize) = (72, 3);
pub const HCN_CRN_FLAG: (usize, usize) = (76, 3);
pub const WMO_ID: (usize, usize) = (80, 5);

/// One station: position in degrees, elevation in meters, and its network
/// memberships.
#[derive(Clone, Debug)]
pub struct StationRecord {
    pub id: Vec<char>,
    pub lat: Decimal,
    pub lon: Decimal,
    pub elevation: Decimal,
    pub state: Vec<char>,
    pub name: Vec<char>,
    pub gsn: bool,
    pub hcn: bool,
    pub crn: bool,
    pub wmo: Vec<char>,
}

pub struct StationRecordView {
    pub id: Seq<char>,
    pub lat: Decimal,
    pub lon: Decimal,
    pub elevation: Decimal,
    pub state: Seq<char>,
    pub name: Seq<char>,
    pub gsn: bool,
    pub hcn: bool,
    pub crn: bool,
    pub wmo: Seq<char>,
}

impl View for StationRecord {
    type V = StationRecordView;

    open spec fn view(&self) -> StationRecordView {
        StationRecordView {
            id: self.id@,
            lat: self.lat,
            lon: self.lon,
            elevation: self.elevation,
            state: self.state@,
            name: self.name@,
            gsn: self.gsn,
            hcn: self.hcn,
            crn: self.crn,
            wmo: self.wmo@,
        }
    }
}

pub open spec fn spec_field(line: Seq<char>, f: (usize, usize)) -> Seq<char> {
    spec_column(line, f.0 as int, f.1 as int)
}

pub open spec fn spec_code(a: char, b: char, c: char) -> Seq<char> {
    seq![a, b, c]
}

/// What one station line decodes to; the numeric fields are read in the order
/// latitude, longitude, elevation, and the first that is no number is the error.
pub open spec fn spec_decode_station_line(line: Seq<char>) -> Result<StationRecordView, MalformedFieldView> {
    let id = spec_field(line, STATION_ID);
    let lat_text = spec_field(line, LATITUDE);
    let lon_text = spec_field(line, LONGITUDE);
    let elev_text = spec_field(line, ELEVATION);
    let network = spec_field(line, HCN_CRN_FLAG);
    match (spec_parse_decimal(lat_text), spec_parse_decimal(lon_text), spec_parse_decimal(elev_text)) {
        (None, _, _) => Err(MalformedFieldView { station: id, field: Field::Latitude, text: lat_text }),
        (Some(_), None, _) => Err(MalformedFieldView { station: id, field: Field::Longitude, text: lon_text }),
        (Some(_), Some(_), None) => Err(MalformedFieldView { station: id, field: Field::Elevation, text: elev_text }),
        (Some(lat), Some(lon), Some(elevation)) => Ok(StationRecordView {
            id,
            lat,
            lon,
            elevation,
            state: spec_field(line, STATE),
            name: spec_field(line, NAME),
            gsn: spec_field(line, GSN_FLAG) == spec_code('G', 'S', 'N'),
            hcn: network == spec_code('H', 'C', 'N'),
            crn: network == spec_code('C', 'R', 'N'),
            wmo: spec_field(line, WMO_ID),
        }),
    }
}

/// Whether the text is exactly the three given characters.
pub fn is_code(v: &Vec<char>, a: char, b: char, c: char) -> (r: bool)
    ensures
        r == (v@ == spec_code(a, b, c)),
{
    if v.len() == 3 && v[0] == a && v[1] == b && v[2] == c {
        assert(v@ =~= spec_code(a, b, c));
        true
    } else {
        proof {
            if v@ == spec_code(a, b, c) {
                assert(v@[0] == a && v@[1] == b && v@[2] == c);
            }
        }
        false
    }
}

fn malformed(id: Vec<char>, field: Field, text: Vec<char>) -> (r: MalformedField)
    ensures
        r@ == (MalformedFieldView { station: id@, field, text: text@ }),
{
    MalformedField { station: id, field, text }
}

/// Decodes one station line into exactly one record, or the first numeric
/// field that is not a number.
pub fn decode_station_line(line: &Vec<char>) -> (r: Result<StationRecord, MalformedField>)
    ensures
        match r {
            Ok(s) => spec_decode_station_line(line@) == Ok::<_, MalformedFieldView>(s@),
            Err(e) => spec_decode_station_line(line@) == Err::<StationRecordView, _>(e@),
        },
{
    let id = column_text(line, STATION_ID.0, STATION_ID.1);
    let lat_text = column_text(line, LATITUDE.0, LATITUDE.1);
    let lon_text = column_text(line, LONGITUDE.0, LONGITUDE.1);
    let elev_text = column_text(line, ELEVATION.0, ELEVATION.1);
    let lat = match parse_decimal(&lat_text) {
        None => {
            return Err(malformed(id, Field::Latitude, lat_text));
        },
        Some(d) => d,
    };
    let lon = match parse_decimal(&lon_text) {
        None => {
            return Err(malformed(id, Field::Longitude, lon_text));
        },
        Some(d) => d,
    };
    let elevation = match parse_decimal(&elev_text) {
        None => {
            return Err(malformed(id, Field::Elevation, elev_text));
        },
        Some(d) => d,
    };
    let gsn_text = column_text(line, GSN_FLAG.0, GSN_FLAG.1);
    let network = column_text(line, HCN_CRN_FLAG.0, HCN_CRN_FLAG.1);
    Ok(StationRecord {
        id,
        lat,
        lon,
        elevation,
        state: column_text(line, STATE.0, STATE.1),
        name: column_text(line, NAME.0, NAME.1),
        gsn: is_code(&gsn_text, 'G', 'S', 'N'),
        hcn: is_code(&network, 'H', 'C', 'N'),
        crn: is_code(&network, 'C', 'R', 'N'),
        wmo: column_text(line, WMO_ID.0, WMO_ID.1),
    })
}

/// A station is never in both the HCN and the CRN network, and a marker that
/// is neither "HCN" nor "CRN" puts it in neither.
pub proof fn lemma_network_flags_exclusive(line: Seq<char>)
    requires
        spec_decode_station_line(line) is Ok,
    ensures
        !(spec_decode_station_line(line)->Ok_0.hcn && spec_decode_station_line(line)->Ok_0.crn),
        spec_field(line, HCN_CRN_FLAG) != spec_code('H', 'C', 'N') && spec_field(line, HCN_CRN_FLAG)
            != spec_code('C', 'R', 'N') ==> !spec_decode_station_line(line)->Ok_0.hcn
            && !spec_decode_station_line(line)->Ok_0.crn,
{
    assert(spec_code('H', 'C', 'N')[0] != spec_code('C', 'R', 'N')[0]);
}

/// The stations and the per-line errors of one decoded station file.
pub struct StationFileDecode {
    pub records: Vec<StationRecord>,
    pub errors: Vec<LineError>,
}

/// The stations of a file's lines, in line order; a malformed line adds none.
pub open spec fn spec_station_records(lines: Seq<Seq<char>>) -> Seq<StationRecordView>
    decreases lines.len(),
{
    if lines.len() == 0 {
        Seq::empty()
    } else {
        let prev = spec_station_records(lines.drop_last());
        match spec_decode_station_line(lines.last()) {
            Ok(s) => prev.push(s),
            Err(_) => prev,
        }
    }
}

/// One error per malformed station line, in line order, with 1-based numbers.
pub open spec fn spec_station_errors(lines: Seq<Seq<char>>) -> Seq<LineErrorView>
    decreases lines.len(),
{
    if lines.len() == 0 {
        Seq::empty()
    } else {
        let prev = spec_station_errors(lines.drop_last());
        match spec_decode_station_line(lines.last()) {
            Ok(_) => prev,
            Err(e) => prev.push(LineErrorView { line_no: lines.len() as int, error: e }),
        }
    }
}

/// Decodes every line of a station file in order; a malformed line is
/// reported and the others are decoded as usual.
pub fn decode_station_file(lines: &Vec<Vec<char>>) -> (r: StationFileDecode)
    requires
        lines@.len() < usize::MAX,
    ensures
        r.records@.map_values(|s: StationRecord| s@) == spec_station_records(
            lines@.map_values(|l: Vec<char>| l@),
        ),
        r.errors@.map_values(|e: LineError| e@) == spec_station_errors(
            lines@.map_values(|l: Vec<char>| l@),
        ),
{
    let ghost texts = lines@.map_values(|l: Vec<char>| l@);
    let mut records: Vec<StationRecord> = Vec::new();
    let mut errors: Vec<LineError> = Vec::new();
    let mut i: usize = 0;
    assert(texts.take(0) =~= Seq::<Seq<char>>::empty());
    assert(records@.map_values(|s: StationRecord| s@) =~= Seq::<StationRecordView>::empty());
    assert(errors@.map_values(|e: LineError| e@) =~= Seq::<LineErrorView>::empty());
    while i < lines.len()
        invariant
            i <= lines@.len() < usize::MAX,
            texts == lines@.map_values(|l: Vec<char>| l@),
            records@.map_values(|s: StationRecord| s@) == spec_station_records(texts.take(i as int)),
            errors@.map_values(|e: LineError| e@) == spec_station_errors(texts.take(i as int)),
        decreases lines@.len() - i,
    {
        let ghost prefix = texts.take(i + 1);
        assert(prefix.drop_last() =~= texts.take(i as int));
        assert(prefix.last() == lines@[i as int]@);
        match decode_station_line(&lines[i]) {
            Ok(s) => {
                let ghost old_records = records@;
                records.push(s);
                assert(records@.map_values(|s: StationRecord| s@) =~= old_records.map_values(
                    |s: StationRecord| s@,
                ).push(s@));
            },
            Err(e) => {
                let ghost old_errors = errors@;
                let le = LineError { line_no: i + 1, error: e };
                errors.push(le);
                assert(errors@.map_values(|e: LineError| e@) =~= old_errors.map_values(
                    |e: LineError| e@,
                ).push(le@));
            },
        }
        i = i + 1;
    }
    assert(texts.take(i as int) =~= texts);
    StationFileDecode { records, errors }
}

} // verus!
