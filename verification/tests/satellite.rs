use satfire::satellite::{DataQualityFlagCode, MaskCode, Satellite, Sector};

#[test]
fn satellite_and_sector_names() {
    assert_eq!(Satellite::G16.name(), "G16");
    assert_eq!(Satellite::G17.name(), "G17");
    assert_eq!(Sector::FULL.name(), "FDCF");
    assert_eq!(Sector::CONUS.name(), "FDCC");
    assert_eq!(Sector::MESO1.name(), "FDCM1");
    assert_eq!(Sector::MESO2.name(), "FDCM2");
}

#[test]
fn names_found_in_paths() {
    assert_eq!(
        Satellite::string_contains_satellite("/data/G17/ABI-L2-FDCF/2021"),
        Some(Satellite::G17)
    );
    assert_eq!(Satellite::string_contains_satellite("G16 and G17"), Some(Satellite::G16));
    assert_eq!(Satellite::string_contains_satellite("/data/G18/"), None);
    assert_eq!(Sector::string_contains_sector("ABI-L2-FDCF-M6"), Some(Sector::FULL));
    assert_eq!(Sector::string_contains_sector("ABI-L2-FDCC-M6"), Some(Sector::CONUS));
    assert_eq!(Sector::string_contains_sector("ABI-L2-FDCM2-M6"), Some(Sector::MESO2));
    // The meso-sector directory holds both meso-sectors.
    assert_eq!(Sector::string_contains_sector("/G17/ABI-L2-FDCM/2021"), Some(Sector::MESO1));
    assert_eq!(Sector::string_contains_sector("/G17/ABI-L2-ACHA/2021"), None);
}

#[test]
fn operational_times() {
    // 2017-12-18 12:00:00 UTC and 2019-02-12 12:00:00 UTC.
    assert_eq!(Satellite::G16.operational(), 1513598400);
    assert_eq!(Satellite::G17.operational(), 1549972800);
}

#[test]
fn code_descriptions() {
    assert_eq!(MaskCode(10).as_str(), "good_fire_pixel");
    assert_eq!(MaskCode(34).as_str(), "temporally_filtered_medium_probability_fire_pixel");
    assert_eq!(MaskCode(-99).as_str(), "missing");
    assert_eq!(MaskCode(7).as_str(), "unknown code");
    assert_eq!(DataQualityFlagCode(0).as_str(), "good_quality_fire_pixel_qf ");
    assert_eq!(DataQualityFlagCode(5).as_str(), "invalid_due_to_algorithm_failure_qf");
    assert_eq!(DataQualityFlagCode(255).as_str(), "missing");
    assert_eq!(DataQualityFlagCode(-1).as_str(), "missing");
    assert_eq!(DataQualityFlagCode(6).as_str(), "unknown");
}
