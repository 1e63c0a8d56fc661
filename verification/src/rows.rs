//! The rows of the five tables, read from the records of their CSV files.
//!
//! Each cell goes into its column as the loader puts
//! it: text as it stands, an optional cell as `None` (SQL `NULL`) when it
//! is blank and trimmed otherwise, an integer read as a decimal with 0 in
//! place of anything else, a timestamp rewritten for MySQL. Cells that the
//! database receives as floating-point numbers (coordinates, weather
//! measures, and the integer columns that are read through a float) are
//! kept as their text here; the code that talks to the database reads them.

use vstd::prelude::*;
use crate::csv_input::{csv_read, read_csv_records, records_of};
use crate::number::{parse_i64_or_zero, parse_i64_spec};
use crate::sql_script::strings_of;
use crate::text::{cell_spec, datetime_cell_spec, opt, opt_datetime};

verus! {

/// Why a CSV file cannot be loaded.
#[derive(Debug)]
pub enum LoadError {
    /// The `csv` crate could not read the file.
    Csv(csv::Error),
    /// The record at `index` (0 for the first one after the header) has
    /// fewer than `width` fields.
    ShortRecord { index: usize, width: usize },
}

/// The value of an optional cell.
pub open spec fn cell_of(o: Option<String>) -> Option<Seq<char>> {
    match o {
        Some(s) => Some(s@),
        None => None,
    }
}

/// A text cell read as an integer, 0 when it is not one.
pub open spec fn int_or_zero(s: Seq<char>) -> i64 {
    match parse_i64_spec(s) {
        Some(v) => v,
        None => 0,
    }
}

/// A row of `airports` (`faa,name,lat,lon,alt,tz,dst,tzone`).
#[derive(Debug, PartialEq)]
pub struct AirportRow {
    pub faa: String,
    pub name: String,
    /// Latitude, as written in the file.
    pub lat: String,
    /// Longitude, as written in the file.
    pub lon: String,
    pub alt: i64,
    pub tz: i64,
    pub dst: String,
    pub tzone: Option<String>,
}

/// A row of `airlines` (`carrier,name`).
#[derive(Debug, PartialEq)]
pub struct AirlineRow {
    pub carrier: String,
    pub name: String,
}

/// A row of `planes`
/// (`tailnum,year,type,manufacturer,model,engines,seats,speed,engine`).
#[derive(Debug, PartialEq)]
pub struct PlaneRow {
    pub tailnum: String,
    pub year: Option<String>,
    pub plane_type: String,
    pub manufacturer: String,
    pub model: String,
    pub engines: Option<String>,
    pub seats: Option<String>,
    pub speed: Option<String>,
    pub engine: String,
}

/// A row of `weather` (`origin,year,month,day,hour,temp,dewp,humid,
/// wind_dir,wind_speed,wind_gust,precip,pressure,visib,time_hour`).
#[derive(Debug, PartialEq)]
pub struct WeatherRow {
    pub origin: String,
    pub year: i64,
    pub month: i64,
    pub day: i64,
    pub hour: i64,
    pub temp: Option<String>,
    pub dewp: Option<String>,
    pub humid: Option<String>,
    pub wind_dir: Option<String>,
    pub wind_speed: Option<String>,
    pub wind_gust: Option<String>,
    pub precip: Option<String>,
    pub pressure: Option<String>,
    pub visib: Option<String>,
    pub time_hour: Option<String>,
}

/// A row of `flights` (`year,month,day,dep_time,sched_dep_time,dep_delay,
/// arr_time,sched_arr_time,arr_delay,carrier,flight,tailnum,origin,dest,
/// air_time,distance,hour,minute,time_hour`).
#[derive(Debug, PartialEq)]
pub struct FlightRow {
    pub year: i64,
    pub month: i64,
    pub day: i64,
    pub dep_time: Option<String>,
    pub sched_dep_time: Option<String>,
    pub dep_delay: Option<String>,
    pub arr_time: Option<String>,
    pub sched_arr_time: Option<String>,
    pub arr_delay: Option<String>,
    pub carrier: String,
    pub flight: i64,
    pub tailnum: Option<String>,
    pub origin: String,
    pub dest: String,
    pub air_time: Option<String>,
    pub distance: Option<String>,
    pub hour: Option<String>,
    pub minute: Option<String>,
    pub time_hour: Option<String>,
}

/// Number of fields of an `airports` record.
pub const AIRPORT_WIDTH: usize = 8;

/// Number of fields of an `airlines` record.
pub const AIRLINE_WIDTH: usize = 2;

/// Number of fields of a `planes` record.
pub const PLANE_WIDTH: usize = 9;

/// Number of fields of a `weather` record.
pub const WEATHER_WIDTH: usize = 15;

/// Number of fields of a `flights` record.
pub const FLIGHT_WIDTH: usize = 19;

/// `row` holds the record `rec` of `airports.csv`.
pub open spec fn airport_row_of(row: AirportRow, rec: Seq<Seq<char>>) -> bool {
    &&& row.faa@ == rec[0]
    &&& row.name@ == rec[1]
    &&& row.lat@ == rec[2]
    &&& row.lon@ == rec[3]
    &&& row.alt == int_or_zero(rec[4])
    &&& row.tz == int_or_zero(rec[5])
    &&& row.dst@ == rec[6]
    &&& cell_of(row.tzone) == cell_spec(rec[7])
}

/// `row` holds the record `rec` of `airlines.csv`.
pub open spec fn airline_row_of(row: AirlineRow, rec: Seq<Seq<char>>) -> bool {
    &&& row.carrier@ == rec[0]
    &&& row.name@ == rec[1]
}

/// `row` holds the record `rec` of `planes.csv`.
pub open spec fn plane_row_of(row: PlaneRow, rec: Seq<Seq<char>>) -> bool {
    &&& row.tailnum@ == rec[0]
    &&& cell_of(row.year) == cell_spec(rec[1])
    &&& row.plane_type@ == rec[2]
    &&& row.manufacturer@ == rec[3]
    &&& row.model@ == rec[4]
    &&& cell_of(row.engines) == cell_spec(rec[5])
    &&& cell_of(row.seats) == cell_spec(rec[6])
    &&& cell_of(row.speed) == cell_spec(rec[7])
    &&& row.engine@ == rec[8]
}

/// `row` holds the record `rec` of `weather.csv`.
pub open spec fn weather_row_of(row: WeatherRow, rec: Seq<Seq<char>>) -> bool {
    &&& row.origin@ == rec[0]
    &&& row.year == int_or_zero(rec[1])
    &&& row.month == int_or_zero(rec[2])
    &&& row.day == int_or_zero(rec[3])
    &&& row.hour == int_or_zero(rec[4])
    &&& cell_of(row.temp) == cell_spec(rec[5])
    &&& cell_of(row.dewp) == cell_spec(rec[6])
    &&& cell_of(row.humid) == cell_spec(rec[7])
    &&& cell_of(row.wind_dir) == cell_spec(rec[8])
    &&& cell_of(row.wind_speed) == cell_spec(rec[9])
    &&& cell_of(row.wind_gust) == cell_spec(rec[10])
    &&& cell_of(row.precip) == cell_spec(rec[11])
    &&& cell_of(row.pressure) == cell_spec(rec[12])
    &&& cell_of(row.visib) == cell_spec(rec[13])
    &&& cell_of(row.time_hour) == datetime_cell_spec(rec[14])
}

/// `row` holds the record `rec` of `flights.csv`.
pub open spec fn flight_row_of(row: FlightRow, rec: Seq<Seq<char>>) -> bool {
    &&& row.year == int_or_zero(rec[0])
    &&& row.month == int_or_zero(rec[1])
    &&& row.day == int_or_zero(rec[2])
    &&& cell_of(row.dep_time) == cell_spec(rec[3])
    &&& cell_of(row.sched_dep_time) == cell_spec(rec[4])
    &&& cell_of(row.dep_delay) == cell_spec(rec[5])
    &&& cell_of(row.arr_time) == cell_spec(rec[6])
    &&& cell_of(row.sched_arr_time) == cell_spec(rec[7])
    &&& cell_of(row.arr_delay) == cell_spec(rec[8])
    &&& row.carrier@ == rec[9]
    &&& row.flight == int_or_zero(rec[10])
    &&& cell_of(row.tailnum) == cell_spec(rec[11])
    &&& row.origin@ == rec[12]
    &&& row.dest@ == rec[13]
    &&& cell_of(row.air_time) == cell_spec(rec[14])
    &&& cell_of(row.distance) == cell_spec(rec[15])
    &&& cell_of(row.hour) == cell_spec(rec[16])
    &&& cell_of(row.minute) == cell_spec(rec[17])
    &&& cell_of(row.time_hour) == datetime_cell_spec(rec[18])
}

/// The row of `airports` that the record `rec` holds.
pub fn airport_row(rec: &Vec<String>) -> (r: AirportRow)
    requires
        rec.len() >= AIRPORT_WIDTH,
    ensures
        airport_row_of(r, strings_of(rec@)),
{
    AirportRow {
        faa: rec[0].clone(),
        name: rec[1].clone(),
        lat: rec[2].clone(),
        lon: rec[3].clone(),
        alt: parse_i64_or_zero(rec[4].as_str()),
        tz: parse_i64_or_zero(rec[5].as_str()),
        dst: rec[6].clone(),
        tzone: opt(rec[7].as_str()),
    }
}

/// The row of `airlines` that the record `rec` holds.
pub fn airline_row(rec: &Vec<String>) -> (r: AirlineRow)
    requires
        rec.len() >= AIRLINE_WIDTH,
    ensures
        airline_row_of(r, strings_of(rec@)),
{
    AirlineRow { carrier: rec[0].clone(), name: rec[1].clone() }
}

/// The row of `planes` that the record `rec` holds.
pub fn plane_row(rec: &Vec<String>) -> (r: PlaneRow)
    requires
        rec.len() >= PLANE_WIDTH,
    ensures
        plane_row_of(r, strings_of(rec@)),
{
    PlaneRow {
        tailnum: rec[0].clone(),
        year: opt(rec[1].as_str()),
        plane_type: rec[2].clone(),
        manufacturer: rec[3].clone(),
        model: rec[4].clone(),
        engines: opt(rec[5].as_str()),
        seats: opt(rec[6].as_str()),
        speed: opt(rec[7].as_str()),
        engine: rec[8].clone(),
    }
}

/// The row of `weather` that the record `rec` holds.
pub fn weather_row(rec: &Vec<String>) -> (r: WeatherRow)
    requires
        rec.len() >= WEATHER_WIDTH,
    ensures
        weather_row_of(r, strings_of(rec@)),
{
    WeatherRow {
        origin: rec[0].clone(),
        year: parse_i64_or_zero(rec[1].as_str()),
        month: parse_i64_or_zero(rec[2].as_str()),
        day: parse_i64_or_zero(rec[3].as_str()),
        hour: parse_i64_or_zero(rec[4].as_str()),
        temp: opt(rec[5].as_str()),
        dewp: opt(rec[6].as_str()),
        humid: opt(rec[7].as_str()),
        wind_dir: opt(rec[8].as_str()),
        wind_speed: opt(rec[9].as_str()),
        wind_gust: opt(rec[10].as_str()),
        precip: opt(rec[11].as_str()),
        pressure: opt(rec[12].as_str()),
        visib: opt(rec[13].as_str()),
        time_hour: opt_datetime(rec[14].as_str()),
    }
}

/// The row of `flights` that the record `rec` holds.
pub fn flight_row(rec: &Vec<String>) -> (r: FlightRow)
    requires
        rec.len() >= FLIGHT_WIDTH,
    ensures
        flight_row_of(r, strings_of(rec@)),
{
    FlightRow {
        year: parse_i64_or_zero(rec[0].as_str()),
        month: parse_i64_or_zero(rec[1].as_str()),
        day: parse_i64_or_zero(rec[2].as_str()),
        dep_time: opt(rec[3].as_str()),
        sched_dep_time: opt(rec[4].as_str()),
        dep_delay: opt(rec[5].as_str()),
        arr_time: opt(rec[6].as_str()),
        sched_arr_time: opt(rec[7].as_str()),
        arr_delay: opt(rec[8].as_str()),
        carrier: rec[9].clone(),
        flight: parse_i64_or_zero(rec[10].as_str()),
        tailnum: opt(rec[11].as_str()),
        origin: rec[12].clone(),
        dest: rec[13].clone(),
        air_time: opt(rec[14].as_str()),
        distance: opt(rec[15].as_str()),
        hour: opt(rec[16].as_str()),
        minute: opt(rec[17].as_str()),
        time_hour: opt_datetime(rec[18].as_str()),
    }
}

/// The position of the first record with fewer than `width` fields.
pub open spec fn first_short_from(recs: Seq<Seq<Seq<char>>>, width: int, i: int) -> Option<int>
    decreases recs.len() - i,
{
    if i < 0 || i >= recs.len() {
        None
    } else if recs[i].len() < width {
        Some(i)
    } else {
        first_short_from(recs, width, i + 1)
    }
}

/// The position of the first record of `recs` with fewer than `width` fields.
pub open spec fn first_short(recs: Seq<Seq<Seq<char>>>, width: int) -> Option<int> {
    first_short_from(recs, width, 0)
}

/// What loading records into rows gives: the rows when every record is
/// wide enough, else the first short record.
pub open spec fn rows_result<R>(
    r: Result<Vec<R>, LoadError>,
    recs: Seq<Seq<Seq<char>>>,
    width: int,
    row_of: spec_fn(R, Seq<Seq<char>>) -> bool,
) -> bool {
    match first_short(recs, width) {
        Some(i) => r matches Err(LoadError::ShortRecord { index, width: w }) && index == i && w
            == width,
        None => r matches Ok(rows) && rows.len() == recs.len() && forall|k: int|
            0 <= k < rows.len() ==> #[trigger] row_of(rows@[k], recs[k]),
    }
}

proof fn lemma_first_short_none(recs: Seq<Seq<Seq<char>>>, width: int, i: int)
    requires
        0 <= i <= recs.len(),
        first_short_from(recs, width, i) is None,
    ensures
        forall|k: int| i <= k < recs.len() ==> #[trigger] recs[k].len() >= width,
    decreases recs.len() - i,
{
    if i < recs.len() {
        lemma_first_short_none(recs, width, i + 1);
    }
}

/// The position of the first record with fewer than `width` fields.
pub fn find_short_record(recs: &Vec<Vec<String>>, width: usize) -> (r: Option<usize>)
    ensures
        r matches Some(i) ==> first_short(records_of(recs@), width as int) == Some(i as int),
        r is None ==> first_short(records_of(recs@), width as int) is None,
        r is None ==> forall|k: int| 0 <= k < recs.len() ==> #[trigger] recs@[k].len() >= width,
{
    let ghost rs = records_of(recs@);
    let mut i: usize = 0;
    while i < recs.len()
        invariant
            i <= recs.len(),
            rs == records_of(recs@),
            first_short(rs, width as int) == first_short_from(rs, width as int, i as int),
        decreases recs.len() - i,
    {
        assert(rs[i as int] == strings_of(recs@[i as int]@));
        if recs[i].len() < width {
            return Some(i);
        }
        i = i + 1;
    }
    proof {
        lemma_first_short_none(rs, width as int, 0);
        assert forall|k: int| 0 <= k < recs.len() implies #[trigger] recs@[k].len() >= width by {
            assert(rs[k] == strings_of(recs@[k]@));
        }
    }
    None
}

/// The rows of `airports` held by the records `recs`.
pub fn airport_rows(recs: &Vec<Vec<String>>) -> (r: Result<Vec<AirportRow>, LoadError>)
    ensures
        rows_result(
            r,
            records_of(recs@),
            AIRPORT_WIDTH as int,
            |row: AirportRow, rec: Seq<Seq<char>>| airport_row_of(row, rec),
        ),
{
    if let Some(index) = find_short_record(recs, AIRPORT_WIDTH) {
        return Err(LoadError::ShortRecord { index, width: AIRPORT_WIDTH });
    }
    let mut rows: Vec<AirportRow> = Vec::new();
    let mut i: usize = 0;
    while i < recs.len()
        invariant
            i <= recs.len(),
            rows.len() == i,
            forall|k: int| 0 <= k < recs.len() ==> #[trigger] recs@[k].len() >= AIRPORT_WIDTH,
            forall|k: int|
                0 <= k < i ==> #[trigger] airport_row_of(rows@[k], records_of(recs@)[k]),
        decreases recs.len() - i,
    {
        let row = airport_row(&recs[i]);
        assert(records_of(recs@)[i as int] == strings_of(recs@[i as int]@));
        rows.push(row);
        i = i + 1;
    }
    Ok(rows)
}

/// The rows of `airlines` held by the records `recs`.
pub fn airline_rows(recs: &Vec<Vec<String>>) -> (r: Result<Vec<AirlineRow>, LoadError>)
    ensures
        rows_result(
            r,
            records_of(recs@),
            AIRLINE_WIDTH as int,
            |row: AirlineRow, rec: Seq<Seq<char>>| airline_row_of(row, rec),
        ),
{
    if let Some(index) = find_short_record(recs, AIRLINE_WIDTH) {
        return Err(LoadError::ShortRecord { index, width: AIRLINE_WIDTH });
    }
    let mut rows: Vec<AirlineRow> = Vec::new();
    let mut i: usize = 0;
    while i < recs.len()
        invariant
            i <= recs.len(),
            rows.len() == i,
            forall|k: int| 0 <= k < recs.len() ==> #[trigger] recs@[k].len() >= AIRLINE_WIDTH,
            forall|k: int|
                0 <= k < i ==> #[trigger] airline_row_of(rows@[k], records_of(recs@)[k]),
        decreases recs.len() - i,
    {
        let row = airline_row(&recs[i]);
        assert(records_of(recs@)[i as int] == strings_of(recs@[i as int]@));
        rows.push(row);
        i = i + 1;
    }
    Ok(rows)
}

/// The rows of `planes` held by the records `recs`.
pub fn plane_rows(recs: &Vec<Vec<String>>) -> (r: Result<Vec<PlaneRow>, LoadError>)
    ensures
        rows_result(
            r,
            records_of(recs@),
            PLANE_WIDTH as int,
            |row: PlaneRow, rec: Seq<Seq<char>>| plane_row_of(row, rec),
        ),
{
    if let Some(index) = find_short_record(recs, PLANE_WIDTH) {
        return Err(LoadError::ShortRecord { index, width: PLANE_WIDTH });
    }
    let mut rows: Vec<PlaneRow> = Vec::new();
    let mut i: usize = 0;
    while i < recs.len()
        invariant
            i <= recs.len(),
            rows.len() == i,
            forall|k: int| 0 <= k < recs.len() ==> #[trigger] recs@[k].len() >= PLANE_WIDTH,
            forall|k: int| 0 <= k < i ==> #[trigger] plane_row_of(rows@[k], records_of(recs@)[k]),
        decreases recs.len() - i,
    {
        let row = plane_row(&recs[i]);
        assert(records_of(recs@)[i as int] == strings_of(recs@[i as int]@));
        rows.push(row);
        i = i + 1;
    }
    Ok(rows)
}

/// The rows of `weather` held by the records `recs`.
pub fn weather_rows(recs: &Vec<Vec<String>>) -> (r: Result<Vec<WeatherRow>, LoadError>)
    ensures
        rows_result(
            r,
            records_of(recs@),
            WEATHER_WIDTH as int,
            |row: WeatherRow, rec: Seq<Seq<char>>| weather_row_of(row, rec),
        ),
{
    if let Some(index) = find_short_record(recs, WEATHER_WIDTH) {
        return Err(LoadError::ShortRecord { index, width: WEATHER_WIDTH });
    }
    let mut rows: Vec<WeatherRow> = Vec::new();
    let mut i: usize = 0;
    while i < recs.len()
        invariant
            i <= recs.len(),
            rows.len() == i,
            forall|k: int| 0 <= k < recs.len() ==> #[trigger] recs@[k].len() >= WEATHER_WIDTH,
            forall|k: int|
                0 <= k < i ==> #[trigger] weather_row_of(rows@[k], records_of(recs@)[k]),
        decreases recs.len() - i,
    {
        let row = weather_row(&recs[i]);
        assert(records_of(recs@)[i as int] == strings_of(recs@[i as int]@));
        rows.push(row);
        i = i + 1;
    }
    Ok(rows)
}

/// The rows that `recs` hold before its first record with fewer than
/// `width` fields (all of them when there is none).
pub open spec fn prefix_rows<R>(
    rows: Seq<R>,
    recs: Seq<Seq<Seq<char>>>,
    width: int,
    row_of: spec_fn(R, Seq<Seq<char>>) -> bool,
) -> bool {
    &&& rows.len() == match first_short(recs, width) {
        Some(i) => i,
        None => recs.len() as int,
    }
    &&& forall|k: int| 0 <= k < rows.len() ==> #[trigger] row_of(rows[k], recs[k])
}

proof fn lemma_first_short_some(recs: Seq<Seq<Seq<char>>>, width: int, i: int, j: int)
    requires
        0 <= i <= recs.len(),
        first_short_from(recs, width, i) == Some(j),
    ensures
        i <= j < recs.len(),
        recs[j].len() < width,
        forall|k: int| i <= k < j ==> #[trigger] recs[k].len() >= width,
    decreases recs.len() - i,
{
    if recs[i].len() >= width {
        lemma_first_short_from_bounds(recs, width, i + 1, j);
        lemma_first_short_some(recs, width, i + 1, j);
    }
}

proof fn lemma_first_short_from_bounds(recs: Seq<Seq<Seq<char>>>, width: int, i: int, j: int)
    requires
        0 <= i,
        first_short_from(recs, width, i) == Some(j),
    ensures
        i <= recs.len(),
    decreases recs.len() - i,
{
}

/// The rows of `flights` held by the records `recs` up to the first one
/// with fewer than `FLIGHT_WIDTH` fields, and the position of that one.
pub fn flight_rows(recs: &Vec<Vec<String>>) -> (r: (Vec<FlightRow>, Option<usize>))
    ensures
        prefix_rows(
            r.0@,
            records_of(recs@),
            FLIGHT_WIDTH as int,
            |row: FlightRow, rec: Seq<Seq<char>>| flight_row_of(row, rec),
        ),
        r.1 matches Some(i) ==> first_short(records_of(recs@), FLIGHT_WIDTH as int) == Some(
            i as int,
        ),
        r.1 is None ==> first_short(records_of(recs@), FLIGHT_WIDTH as int) is None,
{
    let short = find_short_record(recs, FLIGHT_WIDTH);
    let end: usize = match short {
        Some(i) => i,
        None => recs.len(),
    };
    proof {
        if let Some(i) = short {
            lemma_first_short_some(records_of(recs@), FLIGHT_WIDTH as int, 0, i as int);
        } else {
            assert forall|k: int| 0 <= k < end implies #[trigger] records_of(recs@)[k].len()
                >= FLIGHT_WIDTH by {
                assert(records_of(recs@)[k] == strings_of(recs@[k]@));
                assert(recs@[k].len() >= FLIGHT_WIDTH);
                assert(strings_of(recs@[k]@).len() == recs@[k]@.len());
            }
        }
    }
    let mut rows: Vec<FlightRow> = Vec::new();
    let mut i: usize = 0;
    while i < end
        invariant
            i <= end <= recs.len(),
            rows.len() == i,
            forall|k: int| 0 <= k < end ==> #[trigger] records_of(recs@)[k].len() >= FLIGHT_WIDTH,
            forall|k: int| 0 <= k < i ==> #[trigger] flight_row_of(rows@[k], records_of(recs@)[k]),
        decreases end - i,
    {
        assert(records_of(recs@)[i as int] == strings_of(recs@[i as int]@));
        assert(records_of(recs@)[i as int].len() >= FLIGHT_WIDTH);
        let row = flight_row(&recs[i]);
        rows.push(row);
        i = i + 1;
    }
    (rows, short)
}

/// What reading a CSV file into rows gives, in the order of the file: the
/// first record that is too short, else the `csv` crate's error, else the
/// rows.
pub open spec fn parsed_rows<R>(
    r: Result<Vec<R>, LoadError>,
    bytes: Seq<u8>,
    width: int,
    row_of: spec_fn(R, Seq<Seq<char>>) -> bool,
) -> bool {
    let (recs, failed) = csv_read(bytes);
    if first_short(recs, width) is None && failed {
        r matches Err(LoadError::Csv(_))
    } else {
        rows_result(r, recs, width, row_of)
    }
}

/// The rows of a table from the records the `csv` crate read and the
/// error it stopped on, if any.
fn rows_or_error<R>(rows: Result<Vec<R>, LoadError>, error: Option<csv::Error>) -> (r: Result<
    Vec<R>,
    LoadError,
>)
    ensures
        rows is Err ==> r == rows,
        rows is Ok && error is Some ==> r matches Err(LoadError::Csv(_)),
        rows is Ok && error is None ==> r == rows,
{
    match (rows, error) {
        (Err(e), _) => Err(e),
        (Ok(_), Some(e)) => Err(LoadError::Csv(e)),
        (Ok(v), None) => Ok(v),
    }
}

/// The rows of `airports` in the contents of `airports.csv`.
pub fn parse_airports(bytes: &[u8]) -> (r: Result<Vec<AirportRow>, LoadError>)
    ensures
        parsed_rows(
            r,
            bytes@,
            AIRPORT_WIDTH as int,
            |row: AirportRow, rec: Seq<Seq<char>>| airport_row_of(row, rec),
        ),
{
    let (recs, error) = read_csv_records(bytes);
    rows_or_error(airport_rows(&recs), error)
}

/// The rows of `airlines` in the contents of `airlines.csv`.
pub fn parse_airlines(bytes: &[u8]) -> (r: Result<Vec<AirlineRow>, LoadError>)
    ensures
        parsed_rows(
            r,
            bytes@,
            AIRLINE_WIDTH as int,
            |row: AirlineRow, rec: Seq<Seq<char>>| airline_row_of(row, rec),
        ),
{
    let (recs, error) = read_csv_records(bytes);
    rows_or_error(airline_rows(&recs), error)
}

/// The rows of `planes` in the contents of `planes.csv`.
pub fn parse_planes(bytes: &[u8]) -> (r: Result<Vec<PlaneRow>, LoadError>)
    ensures
        parsed_rows(
            r,
            bytes@,
            PLANE_WIDTH as int,
            |row: PlaneRow, rec: Seq<Seq<char>>| plane_row_of(row, rec),
        ),
{
    let (recs, error) = read_csv_records(bytes);
    rows_or_error(plane_rows(&recs), error)
}

/// The rows of `weather` in the contents of `weather.csv`.
pub fn parse_weather(bytes: &[u8]) -> (r: Result<Vec<WeatherRow>, LoadError>)
    ensures
        parsed_rows(
            r,
            bytes@,
            WEATHER_WIDTH as int,
            |row: WeatherRow, rec: Seq<Seq<char>>| weather_row_of(row, rec),
        ),
{
    let (recs, error) = read_csv_records(bytes);
    rows_or_error(weather_rows(&recs), error)
}

/// The rows of `flights` in the contents of `flights.csv`, record by
/// record until the first one that cannot be read: the rows read before
/// it, and the error that stopped the reading (a record that is too
/// short, else the `csv` crate's error), if any.
pub fn parse_flights(bytes: &[u8]) -> (r: (Vec<FlightRow>, Option<LoadError>))
    ensures
        ({
            let (recs, failed) = csv_read(bytes@);
            &&& prefix_rows(
                r.0@,
                recs,
                FLIGHT_WIDTH as int,
                |row: FlightRow, rec: Seq<Seq<char>>| flight_row_of(row, rec),
            )
            &&& match first_short(recs, FLIGHT_WIDTH as int) {
                Some(i) => r.1 matches Some(LoadError::ShortRecord { index, width }) && index == i
                    && width == FLIGHT_WIDTH,
                None => (r.1 is Some <==> failed) && (r.1 is Some ==> r.1 matches Some(
                    LoadError::Csv(_),
                )),
            }
        }),
{
    let (recs, error) = read_csv_records(bytes);
    let (rows, short) = flight_rows(&recs);
    let stop = match short {
        Some(index) => Some(LoadError::ShortRecord { index, width: FLIGHT_WIDTH }),
        None => match error {
            Some(e) => Some(LoadError::Csv(e)),
            None => None,
        },
    };
    (rows, stop)
}

} // verus!
