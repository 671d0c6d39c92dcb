use chrono::NaiveDate;
use satfire::satellite::{Satellite, Sector};
use satfire::scan_time::{
    end_time_from_file_name, parse_satellite_description_from_file_name, start_time_from_file_name,
    time_stamps_sliceable,
};

fn utc(year: i32, doy: u32, h: u32, m: u32, s: u32) -> i64 {
    NaiveDate::from_yo_opt(year, doy)
        .and_then(|d| d.and_hms_opt(h, m, s))
        .unwrap()
        .and_utc()
        .timestamp()
}

#[test]
fn test_start_time_from_file_name() {
    const CASE1: &str =
        "OR_ABI-L2-FDCF-M6_G17_s20212130100319_e20212130109386_c20212130109511.nc.zip";

    let case1_start = start_time_from_file_name(CASE1).unwrap();
    assert_eq!(case1_start, utc(2021, 213, 1, 0, 31));

    let case1_end = end_time_from_file_name(CASE1).unwrap();
    assert_eq!(case1_end, utc(2021, 213, 1, 9, 38));
}

#[test]
fn description_from_file_name() {
    const NAME: &str =
        "OR_ABI-L2-FDCC-M6_G16_s20202381501139_e20202381503512_c20202381504121.nc";
    assert!(time_stamps_sliceable(NAME));
    let (sat, sector, start, end) = parse_satellite_description_from_file_name(NAME).unwrap();
    assert_eq!(sat, Satellite::G16);
    assert_eq!(sector, Sector::CONUS);
    assert_eq!(start, utc(2020, 238, 15, 1, 13));
    assert_eq!(end, utc(2020, 238, 15, 3, 51));
}

#[test]
fn description_needs_every_part() {
    // No satellite name.
    assert!(parse_satellite_description_from_file_name(
        "OR_ABI-L2-FDCC-M6_s20202381501139_e20202381503512_c20202381504121.nc"
    )
    .is_none());
    // No end time.
    assert!(parse_satellite_description_from_file_name("OR_ABI-L2-FDCC-M6_G16_s20202381501139").is_none());
    // A time stamp needs more than 13 bytes after the marker.
    assert!(start_time_from_file_name("G16_s2020238150113").is_none());
    // A time stamp that does not parse.
    assert!(start_time_from_file_name("G16_sABCDEFGHIJKLMN_e").is_none());
}
