use satfire::firesatimage::{good_quality_cells, image_kind, ImageKind};

#[test]
fn image_kinds() {
    assert_eq!(image_kind("OR_ABI-L2-FDCF-M6_G17_s2021.nc"), ImageKind::NetCdf);
    assert_eq!(image_kind("OR_ABI-L2-FDCF-M6_G17_s2021.nc.zip"), ImageKind::Zip);
    assert_eq!(image_kind("notes.txt"), ImageKind::Unsupported);
    assert_eq!(image_kind("archive."), ImageKind::Unsupported);
    assert_eq!(image_kind("noext"), ImageKind::NoExtension);
    assert_eq!(image_kind(".zip"), ImageKind::NoExtension);
    assert_eq!(image_kind(".."), ImageKind::NoExtension);
}

#[test]
fn good_quality_cells_row_by_row() {
    let dqfs = [0i16, 1, 1, 0, 0, 2];
    assert_eq!(good_quality_cells(&dqfs, 3, 2), vec![(0, 0), (0, 1), (1, 1)]);
    assert_eq!(good_quality_cells(&dqfs, 2, 3), vec![(0, 0), (1, 1), (0, 2)]);
    assert!(good_quality_cells(&dqfs, 0, 5).is_empty());
}
