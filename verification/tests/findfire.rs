use satfire::findfire::{
    directory_verdict, is_data_file, keep_directory, meets_mask_criteria, DirectoryVerdict,
    MostRecentScans, ScanHour,
};
use satfire::satellite::{MaskCode, Satellite, Sector};

fn components(path: &str) -> Vec<String> {
    let mut out = vec!["/".to_string()];
    out.extend(path.split('/').filter(|c| !c.is_empty()).map(|c| c.to_string()));
    out
}

fn recent() -> MostRecentScans {
    let mut recent = MostRecentScans::new();
    recent.insert(Satellite::G17, Sector::FULL, ScanHour { year: 2021, day_of_year: 213, hour: 5 });
    recent
}

fn verdict(path: &str, recent: &MostRecentScans) -> DirectoryVerdict {
    directory_verdict(path, &components(path), recent)
}

#[test]
fn newest_scan_falls_back_on_operational_hour() {
    let mut recent = recent();
    assert_eq!(
        recent.newest(Satellite::G17, Sector::FULL),
        ScanHour { year: 2021, day_of_year: 213, hour: 5 }
    );
    assert_eq!(
        recent.newest(Satellite::G17, Sector::CONUS),
        ScanHour { year: 2019, day_of_year: 43, hour: 12 }
    );
    assert_eq!(
        recent.newest(Satellite::G16, Sector::FULL),
        ScanHour { year: 2017, day_of_year: 352, hour: 12 }
    );
    // A later record replaces an earlier one.
    recent.insert(Satellite::G17, Sector::FULL, ScanHour { year: 2022, day_of_year: 1, hour: 0 });
    assert_eq!(
        recent.newest(Satellite::G17, Sector::FULL),
        ScanHour { year: 2022, day_of_year: 1, hour: 0 }
    );
}

#[test]
fn directories_older_than_the_database_are_skipped() {
    let r = recent();
    assert_eq!(verdict("/data/G17/ABI-L2-FDCF/2020", &r), DirectoryVerdict::Skip);
    assert_eq!(verdict("/data/G17/ABI-L2-FDCF/2021/212", &r), DirectoryVerdict::Skip);
    assert_eq!(verdict("/data/G17/ABI-L2-FDCF/2021/213/04", &r), DirectoryVerdict::Skip);
    assert!(!keep_directory("/data/G17/ABI-L2-FDCF/2021/213/04", &components("/data/G17/ABI-L2-FDCF/2021/213/04"), &r));
}

#[test]
fn directories_that_may_hold_new_data_are_kept() {
    let r = recent();
    assert_eq!(verdict("/data/G17/ABI-L2-FDCF/2022", &r), DirectoryVerdict::Keep);
    assert_eq!(verdict("/data/G17/ABI-L2-FDCF/2021/214", &r), DirectoryVerdict::Keep);
    assert_eq!(verdict("/data/G17/ABI-L2-FDCF/2021/213/05", &r), DirectoryVerdict::Keep);
    assert_eq!(verdict("/data/G17/ABI-L2-FDCF/2021/213", &r), DirectoryVerdict::Keep);
    // Without a satellite or a sector the walk must go deeper.
    assert_eq!(verdict("/data/2010", &r), DirectoryVerdict::Keep);
    assert_eq!(verdict("/data/G17/2010", &r), DirectoryVerdict::Keep);
    // Other sectors use the operational hour of the satellite.
    assert_eq!(verdict("/data/G17/ABI-L2-FDCC/2019/043/11", &r), DirectoryVerdict::Skip);
    assert_eq!(verdict("/data/G17/ABI-L2-FDCC/2019/043/12", &r), DirectoryVerdict::Keep);
    assert!(keep_directory("/data/G17/ABI-L2-FDCF/2022", &components("/data/G17/ABI-L2-FDCF/2022"), &r));
}

#[test]
fn a_field_cut_inside_a_character_cannot_be_read() {
    let r = recent();
    assert_eq!(verdict("/data/G17/ABI-L2-FDCF/202\u{e9}", &r), DirectoryVerdict::SplitsChar);
    // Cut at a character boundary, the field just does not parse.
    assert_eq!(verdict("/data/G17/ABI-L2-FDCF/20\u{e9}", &r), DirectoryVerdict::Keep);
}

#[test]
fn signed_years_and_short_fields() {
    let r = recent();
    // "+202" reads as 202, which is no year; the next field is the year.
    assert_eq!(verdict("/data/G17/ABI-L2-FDCF/+202/2020", &r), DirectoryVerdict::Skip);
    // Only the first four bytes are read.
    assert_eq!(verdict("/data/G17/ABI-L2-FDCF/2022_extra", &r), DirectoryVerdict::Keep);
}

#[test]
fn fire_masks_keep_clusters() {
    assert!(meets_mask_criteria(&[MaskCode(100), MaskCode(10)]));
    assert!(meets_mask_criteria(&[MaskCode(34)]));
    assert!(!meets_mask_criteria(&[MaskCode(15), MaskCode(35), MaskCode(0)]));
    assert!(!meets_mask_criteria(&[]));
}

#[test]
fn data_file_names() {
    assert!(is_data_file("OR_ABI-L2-FDCF-M6_G17_s2021.nc"));
    assert!(is_data_file("OR_ABI-L2-FDCF-M6_G17_s2021.nc.zip"));
    assert!(!is_data_file("notes.txt"));
    assert!(!is_data_file(".nc"));
    assert!(!is_data_file("nc"));
    assert!(!is_data_file("file.NC"));
}

#[test]
fn scans_recorded_by_their_hour() {
    let mut recent = MostRecentScans::new();
    // 2021-08-01 01:10:00 UTC, day 213 of the year.
    assert!(recent.record_scan(Satellite::G16, Sector::CONUS, 1627780200));
    assert_eq!(
        recent.newest(Satellite::G16, Sector::CONUS),
        ScanHour { year: 2021, day_of_year: 213, hour: 1 }
    );
    assert!(!recent.record_scan(Satellite::G16, Sector::CONUS, i64::MAX));
    assert_eq!(
        recent.newest(Satellite::G16, Sector::CONUS),
        ScanHour { year: 2021, day_of_year: 213, hour: 1 }
    );
}
