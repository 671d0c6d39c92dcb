use satfire::pixel::{pixel_bytes_complete, PixelList, PixelRecord};
use satfire::satellite::{DataQualityFlagCode, MaskCode};

fn record(seed: f64, mask: i16, dqf: i16) -> PixelRecord {
    PixelRecord {
        ul_lat: (seed + 1.0).to_bits(),
        ul_lon: (seed - 120.0).to_bits(),
        ll_lat: seed.to_bits(),
        ll_lon: (seed - 120.0).to_bits(),
        lr_lat: seed.to_bits(),
        lr_lon: (seed - 119.0).to_bits(),
        ur_lat: (seed + 1.0).to_bits(),
        ur_lon: (seed - 119.0).to_bits(),
        power: (seed * 10.0).to_bits(),
        area: 1234.5f64.to_bits(),
        temperature: 600.25f64.to_bits(),
        scan_angle: 4.5f64.to_bits(),
        mask_flag: MaskCode(mask),
        data_quality_flag: DataQualityFlagCode(dqf),
    }
}

#[test]
fn binary_layout() {
    let mut list = PixelList::new();
    list.push(record(45.0, 10, -1));
    let bytes = list.binary_serialize();
    assert_eq!(bytes.len(), 16 + 104);
    assert_eq!(&bytes[0..8], &1u64.to_le_bytes());
    assert_eq!(&bytes[8..16], &1u64.to_le_bytes());
    assert_eq!(&bytes[16..24], &46.0f64.to_le_bytes());
    assert_eq!(&bytes[80..88], &450.0f64.to_le_bytes());
    assert_eq!(&bytes[112..114], &10i16.to_le_bytes());
    assert_eq!(&bytes[114..116], &(-1i16).to_le_bytes());
    assert_eq!(&bytes[116..120], &[0u8, 0, 0, 0]);
}

#[test]
fn binary_round_trip() {
    let mut list = PixelList::with_capacity(3);
    list.push(record(45.0, 10, 0));
    list.push(record(-33.5, 35, 3));
    list.push(record(0.0, -99, 255));
    assert_eq!(list.len(), 3);
    let bytes = list.binary_serialize();
    assert!(pixel_bytes_complete(&bytes));
    let back = PixelList::binary_deserialize(&bytes);
    assert_eq!(back.records(), list.records());
    assert_eq!(f64::from_bits(back.records()[1].ul_lat), -32.5);

    // Trailing bytes are ignored.
    let mut longer = bytes.clone();
    longer.extend_from_slice(&[7, 7, 7]);
    assert_eq!(PixelList::binary_deserialize(&longer).records(), list.records());
}

#[test]
fn empty_and_truncated_encodings() {
    let mut list = PixelList::from_records(vec![record(1.0, 10, 0)]);
    list.clear();
    let bytes = list.binary_serialize();
    assert_eq!(bytes, vec![0u8; 16]);
    assert!(PixelList::binary_deserialize(&bytes).records().is_empty());

    let full = PixelList::from_records(vec![record(1.0, 10, 0)]).binary_serialize();
    assert!(pixel_bytes_complete(&full));
    assert!(!pixel_bytes_complete(&full[..full.len() - 1]));
    assert!(!pixel_bytes_complete(&full[..15]));
}
