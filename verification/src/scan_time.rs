//! Scan start and end times from the NOAA Big Data file names, such as
//! `OR_ABI-L2-FDCF-M6_G17_s20212130100319_e20212130109386_c20212130109511.nc.zip`.
//!
//! Times are seconds since the Unix epoch (UTC).

use crate::satellite::{satellite_in_text, sector_in_text, Satellite, Sector};
use crate::utc::{parse_utc_time, parsed_utc_time};
use crate::text::{ascii_bytes, find_bytes, first_occurrence, lemma_ascii_str_bytes};
use vstd::prelude::*;
use vstd::string::StringSliceAdditionalSpecFns;
use vstd::utf8::{decode_utf8, encode_utf8, encode_utf8_decode_utf8, is_char_boundary};

verus! {

/// The format of the time stamps in the file names: year, day of the year, hour, minute and
/// second.
pub open spec fn stamp_format() -> Seq<char> {
    "%Y%j%H%M%S"@
}

/// The number of bytes of the time stamp that follows a marker in a file name.
pub open spec fn time_stamp_len() -> int {
    13
}

/// The bytes of the time stamp after the first `marker` (`_s` or `_e`) in the file name
/// `name`, when more than 13 bytes follow the marker; the 13 bytes that follow it.
pub open spec fn time_stamp_range(name: Seq<u8>, marker: Seq<u8>) -> Option<(int, int)> {
    match first_occurrence(name, marker) {
        None => None,
        Some(i) => {
            let start = i + marker.len();
            if name.len() - start > time_stamp_len() {
                Some((start, start + time_stamp_len()))
            } else {
                None
            }
        },
    }
}

/// Taking the time stamp out of `name` does not split a character: this holds of every file
/// name whose time stamp bytes are ASCII, and of every name without a time stamp.
pub open spec fn time_stamp_sliceable(name: Seq<u8>, marker: Seq<u8>) -> bool {
    time_stamp_range(name, marker) matches Some((a, b)) ==> is_char_boundary(name, a)
        && is_char_boundary(name, b)
}

/// The time after `marker` in the file name `name`, in seconds since the Unix epoch.
pub open spec fn time_in_file_name(name: Seq<u8>, marker: Seq<u8>) -> Option<i64> {
    match time_stamp_range(name, marker) {
        None => None,
        Some((a, b)) => parsed_utc_time(decode_utf8(name.subrange(a, b)), stamp_format()),
    }
}

/// The marker of the scan start time, `_s`.
pub open spec fn start_marker() -> Seq<u8> {
    ascii_bytes(seq!['_', 's'])
}

/// The marker of the scan end time, `_e`.
pub open spec fn end_marker() -> Seq<u8> {
    ascii_bytes(seq!['_', 'e'])
}

fn time_stamp_bounds(name: &str, marker: &str) -> (r: Option<(usize, usize)>)
    ensures
        r matches Some((a, b)) ==> time_stamp_range(name.spec_bytes(), marker.spec_bytes()) == Some((a as int, b as int)),
        r is None ==> time_stamp_range(name.spec_bytes(), marker.spec_bytes()) is None,
{
    let bytes = name.as_bytes();
    let pat = marker.as_bytes();
    match find_bytes(bytes, pat) {
        None => None,
        Some(i) => {
            let n = bytes.len();
            assert(i + pat@.len() <= n);
            let start = i + pat.len();
            if bytes.len() - start > 13 {
                Some((start, start + 13))
            } else {
                None
            }
        },
    }
}

fn time_from_file_name(name: &str, marker: &str) -> (r: Option<i64>)
    requires
        time_stamp_sliceable(name.spec_bytes(), marker.spec_bytes()),
    ensures
        r == time_in_file_name(name.spec_bytes(), marker.spec_bytes()),
{
    match time_stamp_bounds(name, marker) {
        None => None,
        Some((a, b)) => {
            proof {
                vstd::utf8::encode_utf8_valid_utf8(name@);
            }
            let (_, rest) = name.split_at(a);
            proof {
                vstd::utf8::encode_utf8_valid_utf8(rest@);
                assert(rest.spec_bytes() =~= name.spec_bytes().subrange(a as int, name.spec_bytes().len() as int));
                assert(is_char_boundary(rest.spec_bytes(), (b - a) as int)) by {
                    vstd::utf8::is_char_boundary_iff_not_is_continuation_byte(name.spec_bytes(), b as int);
                    vstd::utf8::is_char_boundary_iff_not_is_continuation_byte(rest.spec_bytes(), (b - a) as int);
                }
            }
            let (stamp, _) = rest.split_at(b - a);
            proof {
                assert(stamp.spec_bytes() =~= name.spec_bytes().subrange(a as int, b as int));
                encode_utf8_decode_utf8(stamp@);
            }
            parse_utc_time(stamp, "%Y%j%H%M%S")
        },
    }
}

fn marker_start() -> (r: &'static str)
    ensures
        r.spec_bytes() == start_marker(),
{
    proof {
        reveal_strlit("_s");
        lemma_ascii_str_bytes("_s");
        assert("_s"@ =~= seq!['_', 's']);
    }
    "_s"
}

fn marker_end() -> (r: &'static str)
    ensures
        r.spec_bytes() == end_marker(),
{
    proof {
        reveal_strlit("_e");
        lemma_ascii_str_bytes("_e");
        assert("_e"@ =~= seq!['_', 'e']);
    }
    "_e"
}

fn time_stamp_is_sliceable(name: &str, marker: &str) -> (r: bool)
    ensures
        r == time_stamp_sliceable(name.spec_bytes(), marker.spec_bytes()),
{
    match time_stamp_bounds(name, marker) {
        None => true,
        Some((a, b)) => name.is_char_boundary(a) && name.is_char_boundary(b),
    }
}

/// Whether the scan start and end time stamps can be taken out of the file name `fname`
/// without splitting a character (true of every ASCII file name). The time functions below
/// expect this of their argument.
pub fn time_stamps_sliceable(fname: &str) -> (r: bool)
    ensures
        r == (time_stamp_sliceable(fname.spec_bytes(), start_marker())
            && time_stamp_sliceable(fname.spec_bytes(), end_marker())),
{
    time_stamp_is_sliceable(fname, marker_start()) && time_stamp_is_sliceable(fname, marker_end())
}

/// Parse the file name and find the scan start time: the 13 bytes after the first `_s`, read as
/// `%Y%j%H%M%S`, when more than 13 bytes follow it.
pub fn start_time_from_file_name(fname: &str) -> (r: Option<i64>)
    requires
        time_stamp_sliceable(fname.spec_bytes(), start_marker()),
    ensures
        r == time_in_file_name(fname.spec_bytes(), start_marker()),
{
    time_from_file_name(fname, marker_start())
}

/// Parse the file name and find the scan end time: the 13 bytes after the first `_e`, read as
/// `%Y%j%H%M%S`, when more than 13 bytes follow it.
pub fn end_time_from_file_name(fname: &str) -> (r: Option<i64>)
    requires
        time_stamp_sliceable(fname.spec_bytes(), end_marker()),
    ensures
        r == time_in_file_name(fname.spec_bytes(), end_marker()),
{
    time_from_file_name(fname, marker_end())
}

/// The satellite, sector, scan start and scan end described by a file name.
pub open spec fn description_in_file_name(name: Seq<u8>) -> Option<(Satellite, Sector, i64, i64)> {
    match (satellite_in_text(name), sector_in_text(name), time_in_file_name(name, start_marker()),
        time_in_file_name(name, end_marker())) {
        (Some(sat), Some(sector), Some(start), Some(end)) => Some((sat, sector, start, end)),
        _ => None,
    }
}

/// Parse the satellite, sector, scan start time and scan end time out of a file name, if all of
/// them are in it.
pub fn parse_satellite_description_from_file_name(fname: &str) -> (r: Option<(Satellite, Sector, i64, i64)>)
    requires
        time_stamp_sliceable(fname.spec_bytes(), start_marker()),
        time_stamp_sliceable(fname.spec_bytes(), end_marker()),
    ensures
        r == description_in_file_name(fname.spec_bytes()),
{
    let sat = Satellite::string_contains_satellite(fname);
    let sector = Sector::string_contains_sector(fname);
    let start = start_time_from_file_name(fname);
    let end = end_time_from_file_name(fname);
    match (sat, sector, start, end) {
        (Some(sat), Some(sector), Some(start), Some(end)) => Some((sat, sector, start, end)),
        _ => None,
    }
}

} // verus!
