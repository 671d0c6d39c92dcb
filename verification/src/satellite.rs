//! Satellites and scan sectors, and the quality codes of the fire product.

use crate::text::{ascii_bytes, contains, contains_bytes, lemma_ascii_str_bytes, occurs_at};
use vstd::prelude::*;
use vstd::string::StringSliceAdditionalSpecFns;

verus! {

/// The GOES satellites this library works with.
#[derive(Debug, Clone, Copy, PartialEq, Eq, Structural, Hash)]
pub enum Satellite {
    /// GOES-16 (formerly GOES-R), or commonly known as GOES East
    G16,
    /// GOES-17 (formerly GOES-S), or commonly known as GOES West
    G17,
}

/// The name of a satellite, as used in the NOAA Big Data file names.
pub open spec fn satellite_name(sat: Satellite) -> Seq<char> {
    match sat {
        Satellite::G16 => seq!['G', '1', '6'],
        Satellite::G17 => seq!['G', '1', '7'],
    }
}

/// The satellite found by scanning `text` (its UTF-8 bytes): the first of G16, G17 whose name
/// occurs in it.
pub open spec fn satellite_in_text(text: Seq<u8>) -> Option<Satellite> {
    if contains_bytes(text, ascii_bytes(satellite_name(Satellite::G16))) {
        Some(Satellite::G16)
    } else if contains_bytes(text, ascii_bytes(satellite_name(Satellite::G17))) {
        Some(Satellite::G17)
    } else {
        None
    }
}

impl Satellite {
    /// Get a string representing the name of the satellite.
    pub fn name(&self) -> (r: &'static str)
        ensures
            r@ == satellite_name(*self),
            vstd::utf8::is_ascii_chars(r@),
    {
        match self {
            Satellite::G16 => {
                proof {
                    reveal_strlit("G16");
                }
                "G16"
            },
            Satellite::G17 => {
                proof {
                    reveal_strlit("G17");
                }
                "G17"
            },
        }
    }

    /// Scan the string for the occurence of a satellite name.
    pub fn string_contains_satellite(string: &str) -> (r: Option<Satellite>)
        ensures
            r == satellite_in_text(string.spec_bytes()),
    {
        let bytes = string.as_bytes();
        let all_sats = [Satellite::G16, Satellite::G17];
        let mut k: usize = 0;
        while k < 2
            invariant
                bytes@ == string.spec_bytes(),
                all_sats@ == seq![Satellite::G16, Satellite::G17],
                k <= 2,
                k >= 1 ==> !contains_bytes(bytes@, ascii_bytes(satellite_name(Satellite::G16))),
                k >= 2 ==> !contains_bytes(bytes@, ascii_bytes(satellite_name(Satellite::G17))),
            decreases 2 - k,
        {
            let sat = all_sats[k];
            let name = sat.name();
            proof {
                lemma_ascii_str_bytes(name);
            }
            if contains(bytes, name.as_bytes()) {
                return Some(sat);
            }
            k += 1;
        }
        None
    }

    /// The date and time (UTC) that the satellite became operational, in seconds since the Unix
    /// epoch.
    ///
    /// This is the time that the satellite was officially declared operational after all
    /// checkouts and operational testing (2017-12-18 12:00:00 for GOES-16 and 2019-02-12 12:00:00
    /// for GOES-17).
    pub fn operational(&self) -> (r: i64)
        ensures
            r == operational_time(*self),
    {
        match self {
            Satellite::G16 => 1513598400,
            Satellite::G17 => 1549972800,
        }
    }
}

/// A text contains itself.
proof fn lemma_contains_itself(t: Seq<u8>)
    ensures
        contains_bytes(t, t),
{
    assert(t.subrange(0, t.len() as int) =~= t);
    assert(occurs_at(t, t, 0));
}

/// A name of three bytes occurs in a text of three bytes only if they are equal.
proof fn lemma_three_bytes(t: Seq<u8>, p: Seq<u8>)
    requires
        t.len() == 3,
        p.len() == 3,
        t != p,
    ensures
        !contains_bytes(t, p),
{
    assert forall|i: int| !occurs_at(t, p, i) by {
        if occurs_at(t, p, i) {
            assert(i == 0);
            assert(t.subrange(0, 3) =~= t);
        }
    }
}

/// Scanning the name of a satellite finds that satellite.
pub proof fn lemma_satellite_name_found(sat: Satellite)
    ensures
        satellite_in_text(ascii_bytes(satellite_name(sat))) == Some(sat),
{
    let g16 = ascii_bytes(satellite_name(Satellite::G16));
    let g17 = ascii_bytes(satellite_name(Satellite::G17));
    assert(g16[2] != g17[2]);
    lemma_contains_itself(ascii_bytes(satellite_name(sat)));
    if sat == Satellite::G17 {
        lemma_three_bytes(g17, g16);
    }
}

/// The time a satellite became operational, in seconds since the Unix epoch: 2017-12-18
/// 12:00:00 UTC for GOES-16 and 2019-02-12 12:00:00 UTC for GOES-17.
pub open spec fn operational_time(sat: Satellite) -> i64 {
    match sat {
        Satellite::G16 => 1513598400i64,
        Satellite::G17 => 1549972800i64,
    }
}

/// The satellite scan sectors this library recognizes.
#[derive(Debug, Clone, Copy, PartialEq, Eq, Structural, Hash)]
pub enum Sector {
    /// This is the full disk sector that includes the full viewable disk of the Earth.
    FULL,
    /// The Continental U.S. sector, which actually includes much of the U.S on both satellites.
    CONUS,
    /// Meso-sector 1, a floating sector with 1 minute imagery updates.
    MESO1,
    /// Meso-sector 2, a floating sector with 1 minute imagery updates.
    MESO2,
}

/// The abbreviation of a sector in the NOAA Big Data file naming scheme.
pub open spec fn sector_name(sector: Sector) -> Seq<char> {
    match sector {
        Sector::FULL => seq!['F', 'D', 'C', 'F'],
        Sector::CONUS => seq!['F', 'D', 'C', 'C'],
        Sector::MESO1 => seq!['F', 'D', 'C', 'M', '1'],
        Sector::MESO2 => seq!['F', 'D', 'C', 'M', '2'],
    }
}

/// The shared prefix of the two meso-sector names, "FDCM".
pub open spec fn meso_prefix() -> Seq<char> {
    seq!['F', 'D', 'C', 'M']
}

/// The sector found by scanning `text` (its UTF-8 bytes): the first of FULL, CONUS, MESO1, MESO2
/// whose name occurs in it, else MESO1 when "FDCM" occurs in it.
pub open spec fn sector_in_text(text: Seq<u8>) -> Option<Sector> {
    if contains_bytes(text, ascii_bytes(sector_name(Sector::FULL))) {
        Some(Sector::FULL)
    } else if contains_bytes(text, ascii_bytes(sector_name(Sector::CONUS))) {
        Some(Sector::CONUS)
    } else if contains_bytes(text, ascii_bytes(sector_name(Sector::MESO1))) {
        Some(Sector::MESO1)
    } else if contains_bytes(text, ascii_bytes(sector_name(Sector::MESO2))) {
        Some(Sector::MESO2)
    } else if contains_bytes(text, ascii_bytes(meso_prefix())) {
        Some(Sector::MESO1)
    } else {
        None
    }
}

impl Sector {
    /// Get a string representing the name of the sector.
    ///
    /// This is also the abbreviation used for the sector in the NOAA Big Data file naming scheme
    /// for GOES data.
    pub fn name(&self) -> (r: &'static str)
        ensures
            r@ == sector_name(*self),
            vstd::utf8::is_ascii_chars(r@),
    {
        match self {
            Sector::FULL => {
                proof {
                    reveal_strlit("FDCF");
                }
                "FDCF"
            },
            Sector::CONUS => {
                proof {
                    reveal_strlit("FDCC");
                }
                "FDCC"
            },
            Sector::MESO1 => {
                proof {
                    reveal_strlit("FDCM1");
                }
                "FDCM1"
            },
            Sector::MESO2 => {
                proof {
                    reveal_strlit("FDCM2");
                }
                "FDCM2"
            },
        }
    }

    /// Scan the string for the occurrence of a sector name and return first one found.
    ///
    /// Note that in some cases either of the meso-sectors can be represented by "FDCM", such as in
    /// the directory structure where both meso-sector files are stored in the same directory. So
    /// "FDCM" is the last string that the function will try to match and it will just return
    /// Sector::MESO1 in that case.
    pub fn string_contains_sector(string: &str) -> (r: Option<Sector>)
        ensures
            r == sector_in_text(string.spec_bytes()),
    {
        let bytes = string.as_bytes();
        let all_sectors = [Sector::FULL, Sector::CONUS, Sector::MESO1, Sector::MESO2];
        let ghost all = seq![Sector::FULL, Sector::CONUS, Sector::MESO1, Sector::MESO2];
        let mut k: usize = 0;
        while k < 4
            invariant
                bytes@ == string.spec_bytes(),
                all_sectors@ == all,
                all == seq![Sector::FULL, Sector::CONUS, Sector::MESO1, Sector::MESO2],
                k <= 4,
                forall|j: int| 0 <= j < k ==> !contains_bytes(bytes@, ascii_bytes(sector_name(#[trigger] all[j]))),
            decreases 4 - k,
        {
            let sector = all_sectors[k];
            let name = sector.name();
            proof {
                lemma_ascii_str_bytes(name);
            }
            if contains(bytes, name.as_bytes()) {
                proof {
                    assert(!contains_bytes(bytes@, ascii_bytes(sector_name(all[0]))) || k == 0);
                }
                return Some(sector);
            }
            k += 1;
        }
        proof {
            assert(!contains_bytes(bytes@, ascii_bytes(sector_name(all[0]))));
            assert(!contains_bytes(bytes@, ascii_bytes(sector_name(all[1]))));
            assert(!contains_bytes(bytes@, ascii_bytes(sector_name(all[2]))));
            assert(!contains_bytes(bytes@, ascii_bytes(sector_name(all[3]))));
            reveal_strlit("FDCM");
            lemma_ascii_str_bytes("FDCM");
            assert("FDCM"@ =~= meso_prefix());
        }
        if contains(bytes, "FDCM".as_bytes()) {
            Some(Sector::MESO1)
        } else {
            None
        }
    }
}

/// Where a pattern occurs, the text has its bytes.
proof fn lemma_occurs_bytes(t: Seq<u8>, p: Seq<u8>, i: int)
    requires
        occurs_at(t, p, i),
    ensures
        forall|k: int| 0 <= k < p.len() ==> t[i + k] == #[trigger] p[k],
{
    assert forall|k: int| 0 <= k < p.len() implies t[i + k] == #[trigger] p[k] by {
        assert(t.subrange(i, i + p.len())[k] == t[i + k]);
    }
}

/// The name of one sector does not occur in the name of another, but for the shared prefix of
/// the two meso-sectors.
proof fn lemma_sector_name_absent(a: Sector, b: Sector)
    requires
        a != b,
        !(a == Sector::MESO1 && b == Sector::MESO2),
        !(a == Sector::MESO2 && b == Sector::MESO1),
        (a == Sector::FULL || a == Sector::CONUS) ==> (b == Sector::FULL || b == Sector::CONUS),
    ensures
        !contains_bytes(ascii_bytes(sector_name(a)), ascii_bytes(sector_name(b))),
{
    let t = ascii_bytes(sector_name(a));
    let p = ascii_bytes(sector_name(b));
    assert forall|i: int| !occurs_at(t, p, i) by {
        if occurs_at(t, p, i) {
            lemma_occurs_bytes(t, p, i);
            assert(t[i + 0] == p[0]);
            assert(t[i + 3] == p[3]);
        }
    }
}

/// Scanning the name of a sector finds that sector.
pub proof fn lemma_sector_name_found(sector: Sector)
    ensures
        sector_in_text(ascii_bytes(sector_name(sector))) == Some(sector),
{
    lemma_contains_itself(ascii_bytes(sector_name(sector)));
    match sector {
        Sector::FULL => {},
        Sector::CONUS => {
            lemma_sector_name_absent(Sector::CONUS, Sector::FULL);
        },
        Sector::MESO1 => {
            lemma_sector_name_absent(Sector::MESO1, Sector::FULL);
            lemma_sector_name_absent(Sector::MESO1, Sector::CONUS);
        },
        Sector::MESO2 => {
            lemma_sector_name_absent(Sector::MESO2, Sector::FULL);
            lemma_sector_name_absent(Sector::MESO2, Sector::CONUS);
            let t = ascii_bytes(sector_name(Sector::MESO2));
            let p = ascii_bytes(sector_name(Sector::MESO1));
            assert forall|i: int| !occurs_at(t, p, i) by {
                if occurs_at(t, p, i) {
                    lemma_occurs_bytes(t, p, i);
                    assert(i == 0);
                    assert(t[4] == p[4]);
                }
            }
        },
    }
}

/// Represents a code from the Mask field of the NetCDF files.
#[derive(Debug, Clone, Copy, PartialEq, Eq, Structural)]
pub struct MaskCode(pub i16);

/// The description of a mask code, from table 5.19.6.1-1 of the GOES-R SERIES PRODUCT
/// DEFINITION AND USERS' GUIDE (PUG-L2+-vol5), retrieved December 10th, 2021.
pub open spec fn mask_code_description(code: i16) -> Seq<char> {
    match code {
        -99 => "missing"@,
        0 => "unprocessed_pixel"@,
        10 => "good_fire_pixel"@,
        11 => "saturated_fire_pixel"@,
        12 => "cloud_contaminated_fire_pixel"@,
        13 => "high_probability_fire_pixel"@,
        14 => "medium_probability_fire_pixel"@,
        15 => "low_probability_fire_pixel"@,
        30 => "temporally_filtered_good_fire_pixel"@,
        31 => "temporally_filtered_saturated_fire_pixel"@,
        32 => "temporally_filtered_cloud_contaminated_fire_pixel"@,
        33 => "temporally_filtered_high_probability_fire_pixel"@,
        34 => "temporally_filtered_medium_probability_fire_pixel"@,
        35 => "temporally_filtered_low_probability_fire_pixel"@,
        40 => "off_earth_pixel"@,
        50 => "LZA_block_out_zone"@,
        60 => "SZA_or_glint_angle_block_out_zone"@,
        100 => "processed_no_fire_pixel"@,
        120 => "missing_input_3.89um_pixel"@,
        121 => "missing_input_11.19um_pixel"@,
        123 => "saturated_input_3.89um_pixel"@,
        124 => "saturated_input_11.19um_pixel"@,
        125 => "invalid_input_radiance_value"@,
        126 => "below_threshold_input_3.89um_pixel"@,
        127 => "below_threshold_input_11.19um_pixel"@,
        150 => "invalid_ecosystem_UMD_land_cover_type_sea_water_or_MODIS_land_mask_types_or_framework_desert_mask_type_bright_desert"@,
        151 => "invalid_ecosystem_USGS_type_sea_water"@,
        152 => "invalid_ecosystem_USGS_types_coastline_fringe_or_compound_coastlines"@,
        153 => "invalid_ecosystem_USGS_types_inland_water_or_water_and_island_fringe_or_land_and_water_shore_or_land_and_water_rivers"@,
        170 => "no_background_value_could_be_computed"@,
        180 => "conversion_error_between_BT_and_radiance"@,
        182 => "conversion_error_radiance_to_adjusted_BT"@,
        185 => "modified_Dozier_technique_bisection_method_invalid_computed_BT"@,
        186 => "modifed_Dozier_technique_Newton_method_invalid_computed_radiance"@,
        187 => "modifed_Dozier_technique_Newton_method_invalid_computed_fire_brighness_temp"@,
        188 => "modifed_Dozier_technique_Newton_method_invalid_computed_fire_area"@,
        200 => "cloud_pixel_detected_by_11.19um_threshold_test"@,
        201 => "cloud_pixel_detected_by_3.89um_minus_11.19um_threshold_and_freezing_test"@,
        205 => "cloud_pixel_detected_by_negative_difference_3.89um_minus_11.19um_threshold_test"@,
        210 => "cloud_pixel_detected_by_positive_difference_3.89um_minus_11.19um_threshold_test"@,
        215 => "cloud_pixel_detected_by_albedo_threshold_test"@,
        220 => "cloud_pixel_detected_by_12.27um_threshold_test"@,
        225 => "cloud_pixel_detected_by_negative_difference_11.19um_minus_12.27um_threshold_test"@,
        230 => "cloud_pixel_detected_by_positive_difference_11.19um_minus_12.27um_threshold_test"@,
        240 => "cloud_edge_pixel_detected_by_along_scan_reflectivity_and_3.89um_threshold_test"@,
        245 => "cloud_edge_pixel_detected_by_along_scan_reflectivity_and_albedo_threshold_test"@,
        _ => "unknown code"@,
    }
}

impl MaskCode {
    /// Translate a mask code to a string.
    ///
    /// Mask codes are a form of metadata that describe each pixel's quality control
    /// characteristics. These codes were taken from table 5.19.6.1-1 of the GOES-R SERIES PRODUCT
    /// DEFINITION AND USERS' GUIDE (https://www.goes-r.gov/products/docs/PUG-L2+-vol5.pdf)
    /// retrieved December 10th, 2021.
    pub fn as_str(self) -> (r: &'static str)
        ensures
            r@ == mask_code_description(self.0),
    {
        match self.0 {
            -99 => "missing",
            0 => "unprocessed_pixel",
            10 => "good_fire_pixel",
            11 => "saturated_fire_pixel",
            12 => "cloud_contaminated_fire_pixel",
            13 => "high_probability_fire_pixel",
            14 => "medium_probability_fire_pixel",
            15 => "low_probability_fire_pixel",
            30 => "temporally_filtered_good_fire_pixel",
            31 => "temporally_filtered_saturated_fire_pixel",
            32 => "temporally_filtered_cloud_contaminated_fire_pixel",
            33 => "temporally_filtered_high_probability_fire_pixel",
            34 => "temporally_filtered_medium_probability_fire_pixel",
            35 => "temporally_filtered_low_probability_fire_pixel",
            40 => "off_earth_pixel",
            50 => "LZA_block_out_zone",
            60 => "SZA_or_glint_angle_block_out_zone",
            100 => "processed_no_fire_pixel",
            120 => "missing_input_3.89um_pixel",
            121 => "missing_input_11.19um_pixel",
            123 => "saturated_input_3.89um_pixel",
            124 => "saturated_input_11.19um_pixel",
            125 => "invalid_input_radiance_value",
            126 => "below_threshold_input_3.89um_pixel",
            127 => "below_threshold_input_11.19um_pixel",
            150 => "invalid_ecosystem_UMD_land_cover_type_sea_water_or_MODIS_land_mask_types_or_framework_desert_mask_type_bright_desert",
            151 => "invalid_ecosystem_USGS_type_sea_water",
            152 => "invalid_ecosystem_USGS_types_coastline_fringe_or_compound_coastlines",
            153 => "invalid_ecosystem_USGS_types_inland_water_or_water_and_island_fringe_or_land_and_water_shore_or_land_and_water_rivers",
            170 => "no_background_value_could_be_computed",
            180 => "conversion_error_between_BT_and_radiance",
            182 => "conversion_error_radiance_to_adjusted_BT",
            185 => "modified_Dozier_technique_bisection_method_invalid_computed_BT",
            186 => "modifed_Dozier_technique_Newton_method_invalid_computed_radiance",
            187 => "modifed_Dozier_technique_Newton_method_invalid_computed_fire_brighness_temp",
            188 => "modifed_Dozier_technique_Newton_method_invalid_computed_fire_area",
            200 => "cloud_pixel_detected_by_11.19um_threshold_test",
            201 => "cloud_pixel_detected_by_3.89um_minus_11.19um_threshold_and_freezing_test",
            205 => "cloud_pixel_detected_by_negative_difference_3.89um_minus_11.19um_threshold_test",
            210 => "cloud_pixel_detected_by_positive_difference_3.89um_minus_11.19um_threshold_test",
            215 => "cloud_pixel_detected_by_albedo_threshold_test",
            220 => "cloud_pixel_detected_by_12.27um_threshold_test",
            225 => "cloud_pixel_detected_by_negative_difference_11.19um_minus_12.27um_threshold_test",
            230 => "cloud_pixel_detected_by_positive_difference_11.19um_minus_12.27um_threshold_test",
            240 => "cloud_edge_pixel_detected_by_along_scan_reflectivity_and_3.89um_threshold_test",
            245 => "cloud_edge_pixel_detected_by_along_scan_reflectivity_and_albedo_threshold_test",
            _ => "unknown code",
        }
    }
}

/// Represents a code from the DQF (Data Quality Flag) field of the NetCDF file.
///
/// DQF codes are a simplified version of the mask codes that only tell the result of the quality
/// control analysis.
#[derive(Debug, Clone, Copy, PartialEq, Eq, Structural)]
pub struct DataQualityFlagCode(pub i16);

/// The description of a DQF code, from table 5.19.6.1-2 of the GOES-R SERIES PRODUCT DEFINITION
/// AND USERS' GUIDE (PUG-L2+-vol5), retrieved December 10th, 2021.
pub open spec fn dqf_code_description(code: i16) -> Seq<char> {
    match code {
        0 => "good_quality_fire_pixel_qf "@,
        1 => "good_quality_fire_free_land_pixel_qf "@,
        2 => "invalid_due_to_opaque_cloud_pixel_qf "@,
        3 => "invalid_due_to_surface_type_or_sunglint_or_LZA_threshold_exceeded_or_off_earth_or_missing_input_data_qf "@,
        4 => "invalid_due_to_bad_input_data_qf "@,
        5 => "invalid_due_to_algorithm_failure_qf"@,
        255 | -1 => "missing"@,
        _ => "unknown"@,
    }
}

impl DataQualityFlagCode {
    /// Translate a DQF code to a string.
    pub fn as_str(self) -> (r: &'static str)
        ensures
            r@ == dqf_code_description(self.0),
    {
        match self.0 {
            0 => "good_quality_fire_pixel_qf ",
            1 => "good_quality_fire_free_land_pixel_qf ",
            2 => "invalid_due_to_opaque_cloud_pixel_qf ",
            3 => "invalid_due_to_surface_type_or_sunglint_or_LZA_threshold_exceeded_or_off_earth_or_missing_input_data_qf ",
            4 => "invalid_due_to_bad_input_data_qf ",
            5 => "invalid_due_to_algorithm_failure_qf",
            255 | -1 => "missing",
            _ => "unknown",
        }
    }
}

} // verus!
