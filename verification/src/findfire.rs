//! The decisions of the program that finds clusters: which directories of the satellite data
//! archive can hold data newer than what the database already has, and which clusters are kept.

use crate::satellite::{satellite_in_text, sector_in_text, MaskCode, Satellite, Sector};
use crate::text::{extension_start, path_extension};
use crate::utc::{utc_hour, utc_hour_fields};
use vstd::slice::slice_subrange;
use vstd::prelude::*;
use vstd::string::StringSliceAdditionalSpecFns;
use vstd::utf8::{encode_utf8, is_char_boundary};

verus! {

/// The hour of a scan: year, day of the year (1 to 366) and hour of the day.
#[derive(Debug, Clone, Copy, PartialEq, Eq, Structural)]
pub struct ScanHour {
    /// The year.
    pub year: i32,
    /// The day of the year, 1 for January 1st.
    pub day_of_year: i32,
    /// The hour of the day, 0 to 23.
    pub hour: i32,
}

/// The hour at which a satellite was declared operational: 2017-12-18 12:00 UTC for GOES-16 and
/// 2019-02-12 12:00 UTC for GOES-17.
pub open spec fn operational_hour(sat: Satellite) -> ScanHour {
    match sat {
        Satellite::G16 => ScanHour { year: 2017, day_of_year: 352, hour: 12 },
        Satellite::G17 => ScanHour { year: 2019, day_of_year: 43, hour: 12 },
    }
}

/// The map that a list of records describes, a later record replacing an earlier one for the
/// same satellite and sector.
pub open spec fn records_map(s: Seq<(Satellite, Sector, ScanHour)>) -> Map<(Satellite, Sector), ScanHour>
    decreases s.len(),
{
    if s.len() == 0 {
        Map::empty()
    } else {
        records_map(s.drop_last()).insert((s.last().0, s.last().1), s.last().2)
    }
}

/// Records after position `k` that do not name `key` leave its entry as the first `k` records
/// have it.
proof fn lemma_records_tail(s: Seq<(Satellite, Sector, ScanHour)>, key: (Satellite, Sector), k: int)
    requires
        0 <= k <= s.len(),
        forall|m: int| k <= m < s.len() ==> !((#[trigger] s[m]).0 == key.0 && s[m].1 == key.1),
    ensures
        records_map(s).contains_key(key) == records_map(s.take(k)).contains_key(key),
        records_map(s).contains_key(key) ==> records_map(s)[key] == records_map(s.take(k))[key],
    decreases s.len(),
{
    if s.len() == k {
        assert(s.take(k) =~= s);
    } else {
        let t = s.drop_last();
        assert(t.take(k) =~= s.take(k));
        assert forall|m: int| k <= m < t.len() implies !((#[trigger] t[m]).0 == key.0 && t[m].1 == key.1) by {
            assert(t[m] == s[m]);
        }
        lemma_records_tail(t, key, k);
        assert(!(s[s.len() - 1].0 == key.0 && s[s.len() - 1].1 == key.1));
    }
}

/// The hour of the newest scan already in the database, for each satellite and sector.
pub struct MostRecentScans {
    records: Vec<(Satellite, Sector, ScanHour)>,
}

impl View for MostRecentScans {
    type V = Map<(Satellite, Sector), ScanHour>;

    closed spec fn view(&self) -> Map<(Satellite, Sector), ScanHour> {
        records_map(self.records@)
    }
}

impl MostRecentScans {
    /// No scans recorded yet.
    pub fn new() -> (r: Self)
        ensures
            r@ == Map::<(Satellite, Sector), ScanHour>::empty(),
    {
        MostRecentScans { records: Vec::new() }
    }

    /// Record the newest scan hour of a satellite and sector, replacing an earlier record.
    pub fn insert(&mut self, sat: Satellite, sector: Sector, newest: ScanHour)
        ensures
            final(self)@ == old(self)@.insert((sat, sector), newest),
    {
        self.records.push((sat, sector, newest));
        proof {
            assert(self.records@.drop_last() =~= old(self).records@);
        }
    }

    /// Record the time of the newest scan of a satellite and sector, in seconds since the Unix
    /// epoch, by its hour. A time chrono cannot represent is not recorded, and the result is
    /// false.
    pub fn record_scan(&mut self, sat: Satellite, sector: Sector, newest: i64) -> (r: bool)
        ensures
            match utc_hour_fields(newest) {
                Some((y, d, h)) => r && final(self)@ == old(self)@.insert(
                    (sat, sector),
                    ScanHour { year: y, day_of_year: d as i32, hour: h as i32 },
                ),
                None => !r && final(self)@ == old(self)@,
            },
    {
        match utc_hour(newest) {
            Some((y, d, h)) => {
                self.insert(sat, sector, ScanHour { year: y, day_of_year: d as i32, hour: h as i32 });
                true
            },
            None => false,
        }
    }

    /// The newest scan hour recorded for a satellite and sector, or the hour the satellite
    /// became operational when there is none.
    pub fn newest(&self, sat: Satellite, sector: Sector) -> (r: ScanHour)
        ensures
            r == (if self@.contains_key((sat, sector)) { self@[(sat, sector)] } else { operational_hour(sat) }),
    {
        let ghost s = self.records@;
        let mut k: usize = self.records.len();
        while k > 0
            invariant
                s == self.records@,
                k <= s.len(),
                forall|m: int| k <= m < s.len() ==> !((#[trigger] s[m]).0 == sat && s[m].1 == sector),
            decreases k,
        {
            let rec = self.records[k - 1];
            if rec.0 == sat && rec.1 == sector {
                proof {
                    lemma_records_tail(s, (sat, sector), k as int);
                    assert(s.take(k as int).drop_last() =~= s.take(k - 1));
                }
                return rec.2;
            }
            k -= 1;
        }
        proof {
            lemma_records_tail(s, (sat, sector), 0);
            assert(s.take(0) =~= Seq::<(Satellite, Sector, ScanHour)>::empty());
        }
        match sat {
            Satellite::G16 => ScanHour { year: 2017, day_of_year: 352, hour: 12 },
            Satellite::G17 => ScanHour { year: 2019, day_of_year: 43, hour: 12 },
        }
    }
}


/// An ASCII digit.
pub open spec fn is_digit(b: u8) -> bool {
    48 <= b <= 57
}

/// Every byte is an ASCII digit.
pub open spec fn all_digits(b: Seq<u8>) -> bool {
    forall|i: int| 0 <= i < b.len() ==> is_digit(#[trigger] b[i])
}

/// The number that a run of ASCII digits writes in decimal.
pub open spec fn digits_value(b: Seq<u8>) -> int
    decreases b.len(),
{
    if b.len() == 0 {
        0
    } else {
        digits_value(b.drop_last()) * 10 + (b.last() - 48)
    }
}

/// What `str::parse::<i32>` gives for a text of a few bytes: an optional sign followed by at
/// least one digit, and nothing else.
pub open spec fn parse_small_int(b: Seq<u8>) -> Option<int> {
    if b.len() >= 2 && b[0] == 43 && all_digits(b.drop_first()) {
        Some(digits_value(b.drop_first()))
    } else if b.len() >= 2 && b[0] == 45 && all_digits(b.drop_first()) {
        Some(-digits_value(b.drop_first()))
    } else if b.len() >= 1 && all_digits(b) {
        Some(digits_value(b))
    } else {
        None
    }
}

/// Ten to the power `k`, for the few powers that short numbers need.
pub open spec fn small_pow10(k: int) -> int {
    if k <= 0 {
        1
    } else if k == 1 {
        10
    } else if k == 2 {
        100
    } else if k == 3 {
        1000
    } else {
        10000
    }
}

/// Parse the first `n` bytes of `b` as `str::parse::<i32>` does.
fn parse_prefix(b: &[u8], n: usize) -> (r: Option<i32>)
    requires
        n <= 4,
        n <= b@.len(),
    ensures
        match parse_small_int(b@.take(n as int)) {
            Some(v) => r == Some(v as i32) && -9999 <= v <= 9999,
            None => r is None,
        },
{
    let ghost t = b@.take(n as int);
    let mut start: usize = 0;
    let mut negative = false;
    if n >= 2 && (b[0] == 43 || b[0] == 45) {
        start = 1;
        negative = b[0] == 45;
    }
    if start == n {
        return None;
    }
    let mut v: i32 = 0;
    let mut i: usize = start;
    while i < n
        invariant
            start <= i <= n <= 4,
            n <= b@.len(),
            t == b@.take(n as int),
            v == digits_value(b@.subrange(start as int, i as int)),
            0 <= v < small_pow10(i - start),
            all_digits(b@.subrange(start as int, i as int)),
            start == 1 ==> n >= 2 && (b@[0] == 43 || b@[0] == 45),
            start == 0 ==> !(n >= 2 && (b@[0] == 43 || b@[0] == 45)),
            start <= 1,
            negative == (start == 1 && b@[0] == 45),
        decreases n - i,
    {
        let c = b[i];
        if c < 48 || c > 57 {
            proof {
                assert(t[i as int] == c);
                if start == 1 {
                    assert(t.drop_first()[i - 1] == c);
                    assert(!is_digit(t[0]));
                }
            }
            return None;
        }
        proof {
            assert(b@.subrange(start as int, i + 1).drop_last() =~= b@.subrange(start as int, i as int));
            assert(b@.subrange(start as int, i + 1) =~= b@.subrange(start as int, i as int).push(c));
        }
        v = v * 10 + (c - 48) as i32;
        i += 1;
    }
    proof {
        if start == 1 {
            assert(t.drop_first() =~= b@.subrange(1, n as int));
            assert(!all_digits(t)) by {
                assert(!is_digit(t[0]));
            }
        } else {
            assert(t =~= b@.subrange(0, n as int));
        }
    }
    if negative {
        Some(-v)
    } else {
        Some(v)
    }
}

/// What the directory filter makes of a directory.
#[derive(Debug, Clone, Copy, PartialEq, Eq, Structural)]
pub enum DirectoryVerdict {
    /// The directory may hold data newer than the database has, or the path does not tell.
    Keep,
    /// Everything under the directory is older than the newest scan in the database.
    Skip,
    /// A component is cut inside a character where a date field is read from it; the
    /// filter cannot read that path.
    SplitsChar,
}

/// Walk the path components from position `i`, with the year and the day of the year found
/// so far, against the newest scan hour `mr` in the database.
///
/// The archive is laid out as `SATELLITE/SECTOR/YEAR/DAY_OF_YEAR/HOUR/files`. The first
/// component whose first four bytes read as a number above 2016 is the year, the next one
/// whose first three bytes read as a number from 1 to 366 is the day, and the next one whose
/// first two bytes read as a number from 0 to 24 is the hour.
pub open spec fn walk_components(
    comps: Seq<Seq<u8>>,
    mr: ScanHour,
    i: int,
    year: Option<int>,
    doy: Option<int>,
) -> DirectoryVerdict
    decreases comps.len() - i,
{
    if i < 0 || i >= comps.len() {
        DirectoryVerdict::Keep
    } else {
        let b = comps[i];
        match year {
            None => {
                if b.len() < 4 {
                    walk_components(comps, mr, i + 1, year, doy)
                } else if !is_char_boundary(b, 4) {
                    DirectoryVerdict::SplitsChar
                } else {
                    match parse_small_int(b.take(4)) {
                        Some(y) => {
                            if y <= 2016 {
                                walk_components(comps, mr, i + 1, year, doy)
                            } else if y < mr.year {
                                DirectoryVerdict::Skip
                            } else if y > mr.year {
                                DirectoryVerdict::Keep
                            } else {
                                walk_components(comps, mr, i + 1, Some(y), doy)
                            }
                        },
                        None => walk_components(comps, mr, i + 1, year, doy),
                    }
                }
            },
            Some(y) => match doy {
                None => {
                    if b.len() < 3 {
                        walk_components(comps, mr, i + 1, year, doy)
                    } else if !is_char_boundary(b, 3) {
                        DirectoryVerdict::SplitsChar
                    } else {
                        match parse_small_int(b.take(3)) {
                            Some(d) => {
                                if d <= 0 || d >= 367 {
                                    walk_components(comps, mr, i + 1, year, doy)
                                } else if y == mr.year && d < mr.day_of_year {
                                    DirectoryVerdict::Skip
                                } else if y == mr.year && d > mr.day_of_year {
                                    DirectoryVerdict::Keep
                                } else {
                                    walk_components(comps, mr, i + 1, year, Some(d))
                                }
                            },
                            None => walk_components(comps, mr, i + 1, year, doy),
                        }
                    }
                },
                Some(d) => {
                    if b.len() < 2 {
                        walk_components(comps, mr, i + 1, year, doy)
                    } else if !is_char_boundary(b, 2) {
                        DirectoryVerdict::SplitsChar
                    } else {
                        match parse_small_int(b.take(2)) {
                            Some(h) => {
                                if h < 0 || h >= 25 {
                                    walk_components(comps, mr, i + 1, year, doy)
                                } else if y == mr.year && d == mr.day_of_year && h < mr.hour {
                                    DirectoryVerdict::Skip
                                } else {
                                    DirectoryVerdict::Keep
                                }
                            },
                            None => walk_components(comps, mr, i + 1, year, doy),
                        }
                    }
                },
            },
        }
    }
}

/// Component `b` is read as the year `y`.
pub open spec fn reads_year(b: Seq<u8>, y: int) -> bool {
    b.len() >= 4 && is_char_boundary(b, 4) && parse_small_int(b.take(4)) == Some(y) && y > 2016
}

/// Component `b` is read as the day of the year `d`.
pub open spec fn reads_day(b: Seq<u8>, d: int) -> bool {
    b.len() >= 3 && is_char_boundary(b, 3) && parse_small_int(b.take(3)) == Some(d) && 0 < d < 367
}

/// Component `b` is read as the hour `h`.
pub open spec fn reads_hour(b: Seq<u8>, h: int) -> bool {
    b.len() >= 2 && is_char_boundary(b, 2) && parse_small_int(b.take(2)) == Some(h) && 0 <= h < 25
}

/// A component from position `from` on reads an hour before the hour of `mr`.
pub open spec fn hour_before(comps: Seq<Seq<u8>>, mr: ScanHour, from: int) -> bool {
    exists|k: int, h: int| #![trigger reads_hour(comps[k], h)] from <= k < comps.len() && reads_hour(comps[k], h) && h < mr.hour
}

/// A component from position `from` on reads a day before the day of `mr`, or that day with
/// an earlier hour in a later component.
pub open spec fn day_before(comps: Seq<Seq<u8>>, mr: ScanHour, from: int) -> bool {
    exists|k: int, d: int| #![trigger reads_day(comps[k], d)]
        from <= k < comps.len() && reads_day(comps[k], d) && (d < mr.day_of_year || (d == mr.day_of_year
            && hour_before(comps, mr, k + 1)))
}

/// A component from position `from` on reads a year before the year of `mr`, or that year with
/// an earlier day, or that day with an earlier hour, in later components.
pub open spec fn year_before(comps: Seq<Seq<u8>>, mr: ScanHour, from: int) -> bool {
    exists|k: int, y: int| #![trigger reads_year(comps[k], y)]
        from <= k < comps.len() && reads_year(comps[k], y) && (y < mr.year || (y == mr.year && day_before(
            comps,
            mr,
            k + 1,
        )))
}

proof fn lemma_walk_skip(comps: Seq<Seq<u8>>, mr: ScanHour, i: int, year: Option<int>, doy: Option<int>)
    requires
        0 <= i,
        year is None ==> doy is None,
        year matches Some(y) ==> y == mr.year,
        doy matches Some(d) ==> d == mr.day_of_year,
    ensures
        walk_components(comps, mr, i, year, doy) == DirectoryVerdict::Skip ==> {
            &&& year is None ==> year_before(comps, mr, i)
            &&& (year is Some && doy is None) ==> day_before(comps, mr, i)
            &&& doy is Some ==> hour_before(comps, mr, i)
        },
    decreases comps.len() - i,
{
    if i < comps.len() {
        let b = comps[i];
        lemma_walk_skip(comps, mr, i + 1, year, doy);
        match year {
            None => {
                if b.len() >= 4 && is_char_boundary(b, 4) {
                    if let Some(y) = parse_small_int(b.take(4)) {
                        if y > 2016 && y == mr.year {
                            lemma_walk_skip(comps, mr, i + 1, Some(y), doy);
                        }
                        if y > 2016 {
                            assert(reads_year(comps[i], y));
                        }
                    }
                }
                if walk_components(comps, mr, i + 1, year, doy) == DirectoryVerdict::Skip && year_before(comps, mr, i + 1) {
                    let (k, y) = choose|k: int, y: int| #![trigger reads_year(comps[k], y)]
                        i + 1 <= k < comps.len() && reads_year(comps[k], y) && (y < mr.year || (y == mr.year
                            && day_before(comps, mr, k + 1)));
                    assert(reads_year(comps[k], y));
                }
            },
            Some(y) => match doy {
                None => {
                    if b.len() >= 3 && is_char_boundary(b, 3) {
                        if let Some(d) = parse_small_int(b.take(3)) {
                            if 0 < d < 367 && d == mr.day_of_year {
                                lemma_walk_skip(comps, mr, i + 1, year, Some(d));
                            }
                            if 0 < d < 367 {
                                assert(reads_day(comps[i], d));
                            }
                        }
                    }
                    if walk_components(comps, mr, i + 1, year, doy) == DirectoryVerdict::Skip && day_before(comps, mr, i + 1) {
                        let (k, d) = choose|k: int, d: int| #![trigger reads_day(comps[k], d)]
                            i + 1 <= k < comps.len() && reads_day(comps[k], d) && (d < mr.day_of_year || (d
                                == mr.day_of_year && hour_before(comps, mr, k + 1)));
                        assert(reads_day(comps[k], d));
                    }
                },
                Some(d) => {
                    if b.len() >= 2 && is_char_boundary(b, 2) {
                        if let Some(h) = parse_small_int(b.take(2)) {
                            if 0 <= h < 25 {
                                assert(reads_hour(comps[i], h));
                            }
                        }
                    }
                    if walk_components(comps, mr, i + 1, year, doy) == DirectoryVerdict::Skip && hour_before(comps, mr, i + 1) {
                        let (k, h) = choose|k: int, h: int| #![trigger reads_hour(comps[k], h)]
                            i + 1 <= k < comps.len() && reads_hour(comps[k], h) && h < mr.hour;
                        assert(reads_hour(comps[k], h));
                    }
                },
            },
        }
    }
}

/// A directory is skipped only when its path names a satellite and a sector and, in order, a
/// year before the year of the newest scan of that satellite and sector, or that year and an
/// earlier day, or that day and an earlier hour: everything under it is older than what the
/// database already has.
pub proof fn lemma_skip_only_older(path: Seq<u8>, comps: Seq<Seq<u8>>, recent: Map<(Satellite, Sector), ScanHour>)
    ensures
        verdict_for_directory(path, comps, recent) == DirectoryVerdict::Skip ==> {
            &&& satellite_in_text(path) is Some
            &&& sector_in_text(path) is Some
            &&& year_before(
                comps,
                newest_in(recent, satellite_in_text(path).unwrap(), sector_in_text(path).unwrap()),
                0,
            )
        },
{
    if let (Some(sat), Some(sector)) = (satellite_in_text(path), sector_in_text(path)) {
        lemma_walk_skip(comps, newest_in(recent, sat, sector), 0, None, None);
    }
}

/// The newest scan hour that a record map gives for a satellite and sector, falling back on
/// the hour the satellite became operational.
pub open spec fn newest_in(recent: Map<(Satellite, Sector), ScanHour>, sat: Satellite, sector: Sector) -> ScanHour {
    if recent.contains_key((sat, sector)) {
        recent[(sat, sector)]
    } else {
        operational_hour(sat)
    }
}

/// The newest scan hour read back for a satellite and sector is the one last recorded for
/// them, whatever else was recorded.
pub proof fn lemma_newest_reads_last_record(
    recent: Map<(Satellite, Sector), ScanHour>,
    sat: Satellite,
    sector: Sector,
    newest: ScanHour,
    other_sat: Satellite,
    other_sector: Sector,
)
    ensures
        newest_in(recent.insert((sat, sector), newest), sat, sector) == newest,
        (other_sat, other_sector) != (sat, sector) ==> newest_in(recent.insert((sat, sector), newest), other_sat, other_sector)
            == newest_in(recent, other_sat, other_sector),
{
}

/// The UTF-8 bytes of each component.
pub open spec fn component_bytes(comps: Seq<String>) -> Seq<Seq<u8>> {
    comps.map_values(|c: String| encode_utf8(c@))
}

/// The verdict on a directory whose full path has the bytes `path` and whose components have
/// the bytes `comps`. A path that names no satellite or no sector is kept: the walk has to go
/// deeper to learn more.
pub open spec fn verdict_for_directory(
    path: Seq<u8>,
    comps: Seq<Seq<u8>>,
    recent: Map<(Satellite, Sector), ScanHour>,
) -> DirectoryVerdict {
    match satellite_in_text(path) {
        None => DirectoryVerdict::Keep,
        Some(sat) => match sector_in_text(path) {
            None => DirectoryVerdict::Keep,
            Some(sector) => walk_components(comps, newest_in(recent, sat, sector), 0, None, None),
        },
    }
}

/// An optional exec integer as a mathematical one.
pub open spec fn opt_int(o: Option<i32>) -> Option<int> {
    match o {
        Some(v) => Some(v as int),
        None => None,
    }
}

/// Judge a directory of the archive against the newest scans in the database.
pub fn directory_verdict(path: &str, components: &Vec<String>, recent: &MostRecentScans) -> (r: DirectoryVerdict)
    ensures
        r == verdict_for_directory(path.spec_bytes(), component_bytes(components@), recent@),
{
    let sat = match Satellite::string_contains_satellite(path) {
        Some(sat) => sat,
        None => return DirectoryVerdict::Keep,
    };
    let sector = match Sector::string_contains_sector(path) {
        Some(sector) => sector,
        None => return DirectoryVerdict::Keep,
    };
    let mr = recent.newest(sat, sector);
    let ghost comps = component_bytes(components@);
    let mut year: Option<i32> = None;
    let mut doy: Option<i32> = None;
    let mut i: usize = 0;
    while i < components.len()
        invariant
            comps == component_bytes(components@),
            comps.len() == components@.len(),
            i <= comps.len(),
            mr == newest_in(recent@, sat, sector),
            satellite_in_text(path.spec_bytes()) == Some(sat),
            sector_in_text(path.spec_bytes()) == Some(sector),
            walk_components(comps, mr, 0, None, None) == walk_components(comps, mr, i as int, opt_int(year), opt_int(doy)),
            year is None ==> doy is None,
            year matches Some(y) ==> y == mr.year,
        decreases comps.len() - i,
    {
        let c = components[i].as_str();
        let b = c.as_bytes();
        proof {
            assert(comps[i as int] == encode_utf8(components@[i as int]@));
            assert(b@ == comps[i as int]);
        }
        match year {
            None => {
                if b.len() >= 4 {
                    if !c.is_char_boundary(4) {
                        return DirectoryVerdict::SplitsChar;
                    }
                    match parse_prefix(b, 4) {
                        Some(y) => {
                            if y > 2016 {
                                if y < mr.year {
                                    return DirectoryVerdict::Skip;
                                } else if y > mr.year {
                                    return DirectoryVerdict::Keep;
                                }
                                year = Some(y);
                            }
                        },
                        None => {},
                    }
                }
            },
            Some(y) => match doy {
                None => {
                    if b.len() >= 3 {
                        if !c.is_char_boundary(3) {
                            return DirectoryVerdict::SplitsChar;
                        }
                        match parse_prefix(b, 3) {
                            Some(d) => {
                                if d > 0 && d < 367 {
                                    if y == mr.year && d < mr.day_of_year {
                                        return DirectoryVerdict::Skip;
                                    } else if y == mr.year && d > mr.day_of_year {
                                        return DirectoryVerdict::Keep;
                                    }
                                    doy = Some(d);
                                }
                            },
                            None => {},
                        }
                    }
                },
                Some(d) => {
                    if b.len() >= 2 {
                        if !c.is_char_boundary(2) {
                            return DirectoryVerdict::SplitsChar;
                        }
                        match parse_prefix(b, 2) {
                            Some(h) => {
                                if h >= 0 && h < 25 {
                                    if y == mr.year && d == mr.day_of_year && h < mr.hour {
                                        return DirectoryVerdict::Skip;
                                    } else {
                                        return DirectoryVerdict::Keep;
                                    }
                                }
                            },
                            None => {},
                        }
                    }
                },
            },
        }
        i += 1;
    }
    DirectoryVerdict::Keep
}

/// The directory filter of the archive walk: whether to descend into a directory.
pub fn keep_directory(path: &str, components: &Vec<String>, recent: &MostRecentScans) -> (r: bool)
    requires
        verdict_for_directory(path.spec_bytes(), component_bytes(components@), recent@)
            != DirectoryVerdict::SplitsChar,
    ensures
        r == (verdict_for_directory(path.spec_bytes(), component_bytes(components@), recent@)
            != DirectoryVerdict::Skip),
{
    match directory_verdict(path, components, recent) {
        DirectoryVerdict::Skip => false,
        _ => true,
    }
}

/// The mask codes that mark a pixel as fire: good, saturated, cloud contaminated, high and
/// medium probability fire pixels, temporally filtered or not.
pub open spec fn is_fire_mask(code: i16) -> bool {
    (10 <= code <= 14) || (30 <= code <= 34)
}

/// The mask criterion for keeping a cluster: at least one of its pixels is marked as fire.
pub fn meets_mask_criteria(masks: &[MaskCode]) -> (r: bool)
    ensures
        r == exists|i: int| 0 <= i < masks@.len() && is_fire_mask(#[trigger] masks@[i].0),
{
    let mut k: usize = 0;
    while k < masks.len()
        invariant
            k <= masks@.len(),
            forall|i: int| 0 <= i < k ==> !is_fire_mask(#[trigger] masks@[i].0),
        decreases masks@.len() - k,
    {
        let code = masks[k].0;
        if (10 <= code && code <= 14) || (30 <= code && code <= 34) {
            assert(is_fire_mask(masks@[k as int].0));
            return true;
        }
        k += 1;
    }
    false
}

/// A cluster passes the mask criterion exactly when one of its pixels carries one of the fire
/// codes 10, 11, 12, 13, 14 (good, saturated, cloud contaminated, high and medium probability
/// fire) or 30, 31, 32, 33, 34 (the same, temporally filtered); no other code counts.
pub proof fn lemma_mask_criterion_codes(masks: Seq<MaskCode>, r: bool)
    requires
        r == exists|i: int| 0 <= i < masks.len() && is_fire_mask(#[trigger] masks[i].0),
    ensures
        r == exists|i: int|
            0 <= i < masks.len() && {
                let c = #[trigger] masks[i].0;
                c == 10 || c == 11 || c == 12 || c == 13 || c == 14 || c == 30 || c == 31 || c == 32
                    || c == 33 || c == 34
            },
{
    if r {
        let i = choose|i: int| 0 <= i < masks.len() && is_fire_mask(#[trigger] masks[i].0);
        assert(masks[i].0 == masks[i].0);
    } else {
        assert forall|i: int| 0 <= i < masks.len() implies !({
            let c = #[trigger] masks[i].0;
            c == 10 || c == 11 || c == 12 || c == 13 || c == 14 || c == 30 || c == 31 || c == 32
                || c == 33 || c == 34
        }) by {
            assert(!is_fire_mask(masks[i].0));
        }
    }
}

/// Whether a file name is one of the data files the archive walk passes on: a NetCDF file
/// (extension `nc`) or a zip archive of one (extension `zip`).
pub fn is_data_file(file_name: &str) -> (r: bool)
    ensures
        r == (path_extension(file_name.spec_bytes()) == Some(seq![110u8, 99u8])
            || path_extension(file_name.spec_bytes()) == Some(seq![122u8, 105u8, 112u8])),
{
    let name = file_name.as_bytes();
    match extension_start(name) {
        None => false,
        Some(k) => {
            let n = name.len();
            let ext = slice_subrange(name, k, n);
            if ext.len() == 2 && ext[0] == 110u8 && ext[1] == 99u8 {
                assert(ext@ =~= seq![110u8, 99u8]);
                true
            } else if ext.len() == 3 && ext[0] == 122u8 && ext[1] == 105u8 && ext[2] == 112u8 {
                assert(ext@ =~= seq![122u8, 105u8, 112u8]);
                true
            } else {
                assert(ext@ != seq![110u8, 99u8]) by {
                    if ext@.len() == 2 {
                        assert(ext@[0] != 110u8 || ext@[1] != 99u8);
                    }
                }
                assert(ext@ != seq![122u8, 105u8, 112u8]) by {
                    if ext@.len() == 3 {
                        assert(ext@[0] != 122u8 || ext@[1] != 105u8 || ext@[2] != 112u8);
                    }
                }
                false
            }
        },
    }
}

} // verus!
