use adp_trafic_aerien::rows::{
    parse_airlines, parse_airports, parse_flights, parse_planes, parse_weather, AirlineRow, AirportRow,
    LoadError,
};

#[test]
fn airlines_file() {
    let rows = parse_airlines(b"carrier,name\n9E,Endeavor Air Inc.\nAA,American Airlines Inc.\n").unwrap();
    assert_eq!(
        rows,
        vec![
            AirlineRow { carrier: "9E".to_string(), name: "Endeavor Air Inc.".to_string() },
            AirlineRow { carrier: "AA".to_string(), name: "American Airlines Inc.".to_string() },
        ]
    );
}

#[test]
fn airports_file() {
    let data = b"faa,name,lat,lon,alt,tz,dst,tzone\nJFK,John F Kennedy Intl,40.639751,-73.778925,13,-5,A,America/New_York\nBQN,Rafael Hernandez,18.49,-67.12,x,-4,N, \n";
    let rows = parse_airports(data).unwrap();
    assert_eq!(rows.len(), 2);
    assert_eq!(
        rows[0],
        AirportRow {
            faa: "JFK".to_string(),
            name: "John F Kennedy Intl".to_string(),
            lat: "40.639751".to_string(),
            lon: "-73.778925".to_string(),
            alt: 13,
            tz: -5,
            dst: "A".to_string(),
            tzone: Some("America/New_York".to_string()),
        }
    );
    assert_eq!(rows[1].alt, 0);
    assert_eq!(rows[1].tzone, None);
}

#[test]
fn planes_file_blank_cells_are_null() {
    let data = b"tailnum,year,type,manufacturer,model,engines,seats,speed,engine\nN10156,2004,Fixed wing multi engine,EMBRAER,EMB-145XR,2,55,,Turbo-fan\n";
    let rows = parse_planes(data).unwrap();
    assert_eq!(rows[0].year, Some("2004".to_string()));
    assert_eq!(rows[0].speed, None);
    assert_eq!(rows[0].seats, Some("55".to_string()));
    assert_eq!(rows[0].engine, "Turbo-fan");
}

#[test]
fn weather_file() {
    let data = b"origin,year,month,day,hour,temp,dewp,humid,wind_dir,wind_speed,wind_gust,precip,pressure,visib,time_hour\nEWR,2013,1,1,1,39.02,26.06,59.37,270,10.35702,,0,1012,10,2013-01-01T06:00:00Z\n";
    let rows = parse_weather(data).unwrap();
    let w = &rows[0];
    assert_eq!((w.year, w.month, w.day, w.hour), (2013, 1, 1, 1));
    assert_eq!(w.temp, Some("39.02".to_string()));
    assert_eq!(w.wind_gust, None);
    assert_eq!(w.time_hour, Some("2013-01-01 06:00:00".to_string()));
}

#[test]
fn flights_file() {
    let data = b"year,month,day,dep_time,sched_dep_time,dep_delay,arr_time,sched_arr_time,arr_delay,carrier,flight,tailnum,origin,dest,air_time,distance,hour,minute,time_hour\n2013,1,1,517,515,2,830,819,11,UA,1545,N14228,EWR,IAH,227,1400,5,15,2013-01-01T10:00:00Z\n2013,1,1,,1630,,,1815,,EV,4308,,EWR,RDU,,416,16,30,2013-01-01T21:00:00Z\n";
    let (rows, stop) = parse_flights(data);
    assert!(stop.is_none());
    assert_eq!(rows.len(), 2);
    assert_eq!(rows[0].flight, 1545);
    assert_eq!(rows[0].carrier, "UA");
    assert_eq!(rows[0].tailnum, Some("N14228".to_string()));
    assert_eq!(rows[0].dest, "IAH");
    assert_eq!(rows[0].dep_time, Some("517".to_string()));
    assert_eq!(rows[0].time_hour, Some("2013-01-01 10:00:00".to_string()));
    assert_eq!(rows[1].dep_time, None);
    assert_eq!(rows[1].tailnum, None);
    assert_eq!(rows[1].hour, Some("16".to_string()));
}

#[test]
fn header_only_file_has_no_rows() {
    assert!(parse_airlines(b"carrier,name\n").unwrap().is_empty());
    assert!(parse_airlines(b"").unwrap().is_empty());
}

#[test]
fn short_records_are_refused() {
    match parse_airports(b"faa,name\nJFK,Kennedy\n") {
        Err(LoadError::ShortRecord { index, width }) => {
            assert_eq!(index, 0);
            assert_eq!(width, 8);
        }
        other => panic!("unexpected {:?}", other),
    }
}

#[test]
fn unequal_records_are_a_csv_error() {
    assert!(matches!(parse_airlines(b"carrier,name\n9E\n"), Err(LoadError::Csv(_))));
}

#[test]
fn invalid_utf8_is_a_csv_error() {
    assert!(matches!(parse_airlines(b"carrier,name\n9E,\xff\xfe\n"), Err(LoadError::Csv(_))));
}

const FLIGHTS_HEADER: &str = "year,month,day,dep_time,sched_dep_time,dep_delay,arr_time,sched_arr_time,arr_delay,carrier,flight,tailnum,origin,dest,air_time,distance,hour,minute,time_hour\n";
const FLIGHT_LINE: &str = "2013,1,1,517,515,2,830,819,11,UA,1545,N14228,EWR,IAH,227,1400,5,15,2013-01-01T10:00:00Z\n";

#[test]
fn flights_rows_before_a_bad_record_are_kept() {
    let mut data = String::from(FLIGHTS_HEADER);
    for _ in 0..3 {
        data.push_str(FLIGHT_LINE);
    }
    data.push_str("2013,1,1\n");
    data.push_str(FLIGHT_LINE);
    let (rows, stop) = parse_flights(data.as_bytes());
    assert_eq!(rows.len(), 3);
    assert_eq!(rows[2].flight, 1545);
    assert!(matches!(stop, Some(LoadError::Csv(_))));
}

#[test]
fn flights_short_header_stops_at_the_first_record() {
    let (rows, stop) = parse_flights(b"year,month\n2013,1\n2013,2\n");
    assert!(rows.is_empty());
    assert!(matches!(stop, Some(LoadError::ShortRecord { index: 0, width: 19 })));
}

#[test]
fn a_short_record_comes_before_a_later_csv_error() {
    match parse_airlines(b"carrier\n9E\nAA,extra\n") {
        Err(LoadError::ShortRecord { index, width }) => {
            assert_eq!((index, width), (0, 2));
        }
        other => panic!("unexpected {:?}", other),
    }
}
