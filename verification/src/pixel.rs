//! The binary format in which the pixels of a cluster are stored in the database.
//!
//! A list of `n` pixels is written as `n` twice (eight bytes each, in a length field and a
//! capacity field), then one record of 104 bytes per pixel: the latitude and longitude of
//! the upper left, lower left, lower right and upper right corners, the power, the area, the
//! temperature and the scan angle (eight bytes each), the mask code and the data quality flag
//! (two bytes each), and four bytes of padding. Numbers are little-endian; the eight-byte values
//! are the bit patterns of IEEE 754 doubles, which this library carries as `u64`.

use crate::satellite::{DataQualityFlagCode, MaskCode};
use vstd::bytes::{
    lemma_auto_spec_u16_to_from_le_bytes, lemma_auto_spec_u64_to_from_le_bytes,
    spec_u16_from_le_bytes, spec_u16_to_le_bytes, spec_u64_from_le_bytes, spec_u64_to_le_bytes,
    u16_from_le_bytes, u16_to_le_bytes, u64_from_le_bytes, u64_to_le_bytes,
};
use vstd::prelude::*;
use vstd::slice::slice_subrange;

verus! {

/// One pixel as it is stored: the bit patterns of its eight corner coordinates and four
/// measurements, its mask code and its data quality flag.
#[derive(Debug, Clone, Copy, PartialEq, Eq, Structural)]
pub struct PixelRecord {
    pub ul_lat: u64,
    pub ul_lon: u64,
    pub ll_lat: u64,
    pub ll_lon: u64,
    pub lr_lat: u64,
    pub lr_lon: u64,
    pub ur_lat: u64,
    pub ur_lon: u64,
    pub power: u64,
    pub area: u64,
    pub temperature: u64,
    pub scan_angle: u64,
    pub mask_flag: MaskCode,
    pub data_quality_flag: DataQualityFlagCode,
}

/// The twelve eight-byte values of a record, in the order they are stored.
pub open spec fn record_words(p: PixelRecord) -> Seq<u64> {
    seq![
        p.ul_lat, p.ul_lon, p.ll_lat, p.ll_lon, p.lr_lat, p.lr_lon, p.ur_lat, p.ur_lon,
        p.power, p.area, p.temperature, p.scan_angle,
    ]
}

/// Eight-byte values written one after another, little-endian.
pub open spec fn words_bytes(v: Seq<u64>) -> Seq<u8>
    decreases v.len(),
{
    if v.len() == 0 {
        Seq::empty()
    } else {
        words_bytes(v.drop_last()) + spec_u64_to_le_bytes(v.last())
    }
}

/// The 104 bytes of a stored pixel.
pub open spec fn record_bytes(p: PixelRecord) -> Seq<u8> {
    words_bytes(record_words(p)) + spec_u16_to_le_bytes(p.mask_flag.0 as u16)
        + spec_u16_to_le_bytes(p.data_quality_flag.0 as u16) + seq![0u8, 0u8, 0u8, 0u8]
}

/// Stored pixels one after another.
pub open spec fn records_bytes(s: Seq<PixelRecord>) -> Seq<u8>
    decreases s.len(),
{
    if s.len() == 0 {
        Seq::empty()
    } else {
        records_bytes(s.drop_last()) + record_bytes(s.last())
    }
}

/// The stored form of a list of pixels.
pub open spec fn pixel_list_bytes(s: Seq<PixelRecord>) -> Seq<u8> {
    spec_u64_to_le_bytes(s.len() as u64) + spec_u64_to_le_bytes(s.len() as u64) + records_bytes(s)
}

/// The eight-byte value at position `j` of a stored record.
pub open spec fn word_at(rec: Seq<u8>, j: int) -> u64 {
    spec_u64_from_le_bytes(rec.subrange(8 * j, 8 * j + 8))
}

/// The two-byte code starting at byte `at` of a stored record.
pub open spec fn code_at(rec: Seq<u8>, at: int) -> i16 {
    spec_u16_from_le_bytes(rec.subrange(at, at + 2)) as i16
}

/// The pixel that a 104-byte record stores.
pub open spec fn record_from(rec: Seq<u8>) -> PixelRecord {
    PixelRecord {
        ul_lat: word_at(rec, 0),
        ul_lon: word_at(rec, 1),
        ll_lat: word_at(rec, 2),
        ll_lon: word_at(rec, 3),
        lr_lat: word_at(rec, 4),
        lr_lon: word_at(rec, 5),
        ur_lat: word_at(rec, 6),
        ur_lon: word_at(rec, 7),
        power: word_at(rec, 8),
        area: word_at(rec, 9),
        temperature: word_at(rec, 10),
        scan_angle: word_at(rec, 11),
        mask_flag: MaskCode(code_at(rec, 96)),
        data_quality_flag: DataQualityFlagCode(code_at(rec, 98)),
    }
}

/// The number of pixels that stored bytes announce.
pub open spec fn announced_count(b: Seq<u8>) -> int {
    spec_u64_from_le_bytes(b.subrange(0, 8)) as int
}

/// The bytes hold the two length fields and as many records as the first one announces.
pub open spec fn complete_encoding(b: Seq<u8>) -> bool {
    b.len() >= 16 && 16 + 104 * announced_count(b) <= b.len()
}

/// The pixels that stored bytes hold.
pub open spec fn decoded_pixels(b: Seq<u8>) -> Seq<PixelRecord> {
    Seq::new(announced_count(b) as nat, |k: int| record_from(b.subrange(16 + 104 * k, 16 + 104 * k + 104)))
}

proof fn lemma_words_bytes(v: Seq<u64>)
    ensures
        words_bytes(v).len() == 8 * v.len(),
        forall|j: int| 0 <= j < v.len() ==> #[trigger] words_bytes(v).subrange(8 * j, 8 * j + 8) == spec_u64_to_le_bytes(v[j]),
    decreases v.len(),
{
    lemma_auto_spec_u64_to_from_le_bytes();
    if v.len() > 0 {
        let w = v.drop_last();
        lemma_words_bytes(w);
        assert forall|j: int| 0 <= j < v.len() implies #[trigger] words_bytes(v).subrange(8 * j, 8 * j + 8) == spec_u64_to_le_bytes(v[j]) by {
            if j < w.len() {
                assert(words_bytes(v).subrange(8 * j, 8 * j + 8) =~= words_bytes(w).subrange(8 * j, 8 * j + 8));
            } else {
                assert(words_bytes(v).subrange(8 * j, 8 * j + 8) =~= spec_u64_to_le_bytes(v.last()));
            }
        }
    }
}

proof fn lemma_code_roundtrip(x: i16)
    ensures
        spec_u16_from_le_bytes(spec_u16_to_le_bytes(x as u16)) as i16 == x,
        spec_u16_to_le_bytes(x as u16).len() == 2,
{
    lemma_auto_spec_u16_to_from_le_bytes();
    assert((x as u16) as i16 == x) by (bit_vector);
}

/// A stored record reads back as the pixel it stores.
proof fn lemma_record_roundtrip(p: PixelRecord)
    ensures
        record_bytes(p).len() == 104,
        record_from(record_bytes(p)) == p,
{
    lemma_auto_spec_u64_to_from_le_bytes();
    let v = record_words(p);
    let b = record_bytes(p);
    lemma_words_bytes(v);
    lemma_code_roundtrip(p.mask_flag.0);
    lemma_code_roundtrip(p.data_quality_flag.0);
    assert forall|j: int| 0 <= j < 12 implies #[trigger] word_at(b, j) == v[j] by {
        assert(b.subrange(8 * j, 8 * j + 8) =~= words_bytes(v).subrange(8 * j, 8 * j + 8));
    }
    assert(b.subrange(96, 98) =~= spec_u16_to_le_bytes(p.mask_flag.0 as u16));
    assert(b.subrange(98, 100) =~= spec_u16_to_le_bytes(p.data_quality_flag.0 as u16));
    assert(word_at(b, 0) == v[0]);
    assert(word_at(b, 1) == v[1]);
    assert(word_at(b, 2) == v[2]);
    assert(word_at(b, 3) == v[3]);
    assert(word_at(b, 4) == v[4]);
    assert(word_at(b, 5) == v[5]);
    assert(word_at(b, 6) == v[6]);
    assert(word_at(b, 7) == v[7]);
    assert(word_at(b, 8) == v[8]);
    assert(word_at(b, 9) == v[9]);
    assert(word_at(b, 10) == v[10]);
    assert(word_at(b, 11) == v[11]);
}

proof fn lemma_records_bytes(s: Seq<PixelRecord>)
    ensures
        records_bytes(s).len() == 104 * s.len(),
        forall|k: int| 0 <= k < s.len() ==> #[trigger] records_bytes(s).subrange(104 * k, 104 * k + 104) == record_bytes(s[k]),
    decreases s.len(),
{
    if s.len() > 0 {
        let t = s.drop_last();
        lemma_records_bytes(t);
        lemma_record_roundtrip(s.last());
        assert forall|k: int| 0 <= k < s.len() implies #[trigger] records_bytes(s).subrange(104 * k, 104 * k + 104) == record_bytes(s[k]) by {
            if k < t.len() {
                assert(records_bytes(s).subrange(104 * k, 104 * k + 104) =~= records_bytes(t).subrange(104 * k, 104 * k + 104));
            } else {
                assert(records_bytes(s).subrange(104 * k, 104 * k + 104) =~= record_bytes(s.last()));
            }
        }
    }
}

/// Reading back what was stored gives the same pixels, in the same order.
pub proof fn lemma_pixel_list_roundtrip(s: Seq<PixelRecord>)
    requires
        s.len() <= u64::MAX,
    ensures
        complete_encoding(pixel_list_bytes(s)),
        decoded_pixels(pixel_list_bytes(s)) == s,
{
    lemma_auto_spec_u64_to_from_le_bytes();
    lemma_records_bytes(s);
    let b = pixel_list_bytes(s);
    let n = s.len() as u64;
    assert(b.subrange(0, 8) =~= spec_u64_to_le_bytes(n));
    assert(announced_count(b) == s.len());
    assert forall|k: int| 0 <= k < s.len() implies #[trigger] decoded_pixels(b)[k] == s[k] by {
        assert(b.subrange(16 + 104 * k, 16 + 104 * k + 104) =~= records_bytes(s).subrange(104 * k, 104 * k + 104));
        lemma_record_roundtrip(s[k]);
    }
    assert(decoded_pixels(b) =~= s);
}

fn append_word(out: &mut Vec<u8>, x: u64)
    ensures
        final(out)@ == old(out)@ + spec_u64_to_le_bytes(x),
{
    let mut bytes = u64_to_le_bytes(x);
    out.append(&mut bytes);
}

fn append_code(out: &mut Vec<u8>, x: i16)
    ensures
        final(out)@ == old(out)@ + spec_u16_to_le_bytes(x as u16),
{
    let mut bytes = u16_to_le_bytes(x as u16);
    out.append(&mut bytes);
}

fn append_record(out: &mut Vec<u8>, p: &PixelRecord)
    ensures
        final(out)@ == old(out)@ + record_bytes(*p),
{
    let ghost start = out@;
    append_word(out, p.ul_lat);
    append_word(out, p.ul_lon);
    append_word(out, p.ll_lat);
    append_word(out, p.ll_lon);
    append_word(out, p.lr_lat);
    append_word(out, p.lr_lon);
    append_word(out, p.ur_lat);
    append_word(out, p.ur_lon);
    append_word(out, p.power);
    append_word(out, p.area);
    append_word(out, p.temperature);
    append_word(out, p.scan_angle);
    proof {
        let v = record_words(*p);
        assert(v.drop_last().drop_last().drop_last().drop_last().drop_last().drop_last().drop_last().drop_last().drop_last().drop_last().drop_last().drop_last() =~= Seq::<u64>::empty());
        reveal_with_fuel(words_bytes, 13);
        assert(out@ =~= start + words_bytes(v));
    }
    append_code(out, p.mask_flag.0);
    append_code(out, p.data_quality_flag.0);
    out.push(0u8);
    out.push(0u8);
    out.push(0u8);
    out.push(0u8);
    assert(out@ =~= start + record_bytes(*p));
}

fn serialize_records(pixels: &[PixelRecord]) -> (r: Vec<u8>)
    ensures
        r@ == pixel_list_bytes(pixels@),
{
    let mut out: Vec<u8> = Vec::new();
    let n = pixels.len() as u64;
    append_word(&mut out, n);
    append_word(&mut out, n);
    let mut k: usize = 0;
    while k < pixels.len()
        invariant
            k <= pixels@.len(),
            n == pixels@.len(),
            out@ == spec_u64_to_le_bytes(n) + spec_u64_to_le_bytes(n) + records_bytes(pixels@.take(k as int)),
        decreases pixels@.len() - k,
    {
        let ghost before = out@;
        append_record(&mut out, &pixels[k]);
        proof {
            assert(pixels@.take(k + 1).drop_last() =~= pixels@.take(k as int));
            assert(out@ =~= spec_u64_to_le_bytes(n) + spec_u64_to_le_bytes(n) + records_bytes(pixels@.take(k + 1)));
        }
        k += 1;
    }
    assert(pixels@.take(pixels@.len() as int) =~= pixels@);
    out
}

fn read_word(rec: &[u8], j: usize) -> (r: u64)
    requires
        rec@.len() == 104,
        j < 12,
    ensures
        r == word_at(rec@, j as int),
{
    u64_from_le_bytes(slice_subrange(rec, 8 * j, 8 * j + 8))
}

fn read_code(rec: &[u8], at: usize) -> (r: i16)
    requires
        rec@.len() == 104,
        at + 2 <= 104,
    ensures
        r == code_at(rec@, at as int),
{
    u16_from_le_bytes(slice_subrange(rec, at, at + 2)) as i16
}

fn read_record(rec: &[u8]) -> (r: PixelRecord)
    requires
        rec@.len() == 104,
    ensures
        r == record_from(rec@),
{
    PixelRecord {
        ul_lat: read_word(rec, 0),
        ul_lon: read_word(rec, 1),
        ll_lat: read_word(rec, 2),
        ll_lon: read_word(rec, 3),
        lr_lat: read_word(rec, 4),
        lr_lon: read_word(rec, 5),
        ur_lat: read_word(rec, 6),
        ur_lon: read_word(rec, 7),
        power: read_word(rec, 8),
        area: read_word(rec, 9),
        temperature: read_word(rec, 10),
        scan_angle: read_word(rec, 11),
        mask_flag: MaskCode(read_code(rec, 96)),
        data_quality_flag: DataQualityFlagCode(read_code(rec, 98)),
    }
}

/// Whether the bytes hold the length fields and all the records they announce; reading any
/// other bytes runs past their end.
pub fn pixel_bytes_complete(bytes: &[u8]) -> (r: bool)
    ensures
        r == complete_encoding(bytes@),
{
    if bytes.len() < 16 {
        return false;
    }
    let n = u64_from_le_bytes(slice_subrange(bytes, 0, 8));
    let room = ((bytes.len() - 16) / 104) as u64;
    n <= room
}

fn deserialize_records(bytes: &[u8]) -> (r: Vec<PixelRecord>)
    requires
        complete_encoding(bytes@),
    ensures
        r@ == decoded_pixels(bytes@),
{
    let len = bytes.len();
    let n64 = u64_from_le_bytes(slice_subrange(bytes, 0, 8));
    assert(n64 as int == announced_count(bytes@));
    assert(n64 <= len);
    let n = n64 as usize;
    let mut data: Vec<PixelRecord> = Vec::new();
    let mut k: usize = 0;
    while k < n
        invariant
            n == announced_count(bytes@),
            complete_encoding(bytes@),
            16 + 104 * n <= bytes@.len(),
            len == bytes@.len(),
            k <= n,
            data@ == decoded_pixels(bytes@).take(k as int),
        decreases n - k,
    {
        let at = 16 + 104 * k;
        let rec = read_record(slice_subrange(bytes, at, at + 104));
        data.push(rec);
        assert(data@ =~= decoded_pixels(bytes@).take(k + 1));
        k += 1;
    }
    assert(data@ =~= decoded_pixels(bytes@));
    data
}

/// A list of pixels.
pub struct PixelList {
    pixels: Vec<PixelRecord>,
}

impl View for PixelList {
    type V = Seq<PixelRecord>;

    closed spec fn view(&self) -> Seq<PixelRecord> {
        self.pixels@
    }
}

impl PixelList {
    /// An empty list.
    pub fn new() -> (r: Self)
        ensures
            r@ == Seq::<PixelRecord>::empty(),
    {
        PixelList { pixels: Vec::new() }
    }

    /// An empty list with room for `capacity` pixels.
    pub fn with_capacity(capacity: usize) -> (r: Self)
        ensures
            r@ == Seq::<PixelRecord>::empty(),
    {
        PixelList { pixels: Vec::with_capacity(capacity) }
    }

    /// A list of the given pixels, in order.
    pub fn from_records(pixels: Vec<PixelRecord>) -> (r: Self)
        ensures
            r@ == pixels@,
    {
        PixelList { pixels }
    }

    /// The pixels of the list, in order.
    pub fn records(&self) -> (r: &[PixelRecord])
        ensures
            r@ == self@,
    {
        self.pixels.as_slice()
    }

    /// Add a pixel to the end of the list.
    pub fn push(&mut self, pixel: PixelRecord)
        ensures
            final(self)@ == old(self)@.push(pixel),
    {
        self.pixels.push(pixel);
    }

    /// Remove all the pixels.
    pub fn clear(&mut self)
        ensures
            final(self)@ == Seq::<PixelRecord>::empty(),
    {
        self.pixels.clear();
    }

    /// The number of pixels.
    pub fn len(&self) -> (r: usize)
        ensures
            r == self@.len(),
    {
        self.pixels.len()
    }

    /// Encode the list in the binary format stored in the database.
    pub fn binary_serialize(&self) -> (r: Vec<u8>)
        ensures
            r@ == pixel_list_bytes(self@),
    {
        serialize_records(self.pixels.as_slice())
    }

    /// Decode a list from the binary format stored in the database. Bytes after the last
    /// record are ignored.
    pub fn binary_deserialize(bytes: &[u8]) -> (r: Self)
        requires
            complete_encoding(bytes@),
        ensures
            r@ == decoded_pixels(bytes@),
    {
        PixelList { pixels: deserialize_records(bytes) }
    }
}

} // verus!
