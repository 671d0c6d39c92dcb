use satfire::kml::KmlWriter;

#[test]
fn document_and_folder_text() {
    let mut k = KmlWriter::new();
    k.start_document();
    k.start_folder(Some("Fires"), None, true);
    k.finish_folder();
    k.finish_document();
    assert_eq!(
        k.take_text(),
        [
            "<?xml version=\"1.0\" encoding=\"UTF-8\"?>\n",
            "<kml xmlns=\"http://www.opengis.net/kml/2.2\">\n",
            "<Document>\n",
            "<Folder>\n<name>Fires</name>\n<open>1</open>\n",
            "</Folder>\n",
            "</Document>\n</kml>\n"
        ]
        .concat()
    );
    assert_eq!(k.take_text(), "");
}

#[test]
fn placemark_and_style_text() {
    let mut k = KmlWriter::new();
    k.start_style(Some("fire"));
    k.create_poly_style(Some("880000FF"), true, false);
    k.finish_style();
    k.start_style(None);
    k.create_poly_style(None, false, true);
    k.start_placemark(Some("7"), Some("ID: 7<br/>"), Some("#fire"));
    k.finish_placemark();
    assert_eq!(
        k.take_text(),
        [
            "<Style id=\"fire\">\n",
            "<PolyStyle>\n<color>880000FF</color>\n<colorMode>normal</colorMode>\n",
            "<fill>1</fill>\n<outline>0</outline>\n</PolyStyle>\n",
            "</Style>\n",
            "<Style>\n",
            "<PolyStyle>\n<colorMode>random</colorMode>\n<fill>0</fill>\n<outline>1</outline>\n</PolyStyle>\n",
            "<Placemark>\n<name>7</name>\n",
            "<description><![CDATA[ID: 7<br/>]]></description>\n",
            "<styleUrl>#fire</styleUrl>\n",
            "</Placemark>\n"
        ]
        .concat()
    );
}

#[test]
fn geometry_text() {
    let mut k = KmlWriter::new();
    k.start_multi_geometry();
    k.start_polygon(true, true, Some("clampToGround"));
    k.polygon_start_outer_ring();
    k.start_linear_ring();
    k.write_raw("-120,45,0\n");
    k.finish_linear_ring();
    k.polygon_finish_outer_ring();
    k.finish_polygon();
    k.start_polygon(false, false, None);
    k.finish_polygon();
    k.finish_multi_geometry();
    assert_eq!(
        k.take_text(),
        [
            "<MultiGeometry>\n",
            "<Polygon>\n<altitudeMode>clampToGround</altitudeMode>\n<extrude>1</extrude>\n<tessellate>1</tessellate>\n",
            "<outerBoundaryIs>\n<LinearRing>\n<coordinates>\n-120,45,0\n</coordinates>\n</LinearRing>\n</outerBoundaryIs>\n",
            "</Polygon>\n<Polygon>\n</Polygon>\n",
            "</MultiGeometry>\n"
        ]
        .concat()
    );
}

#[test]
fn timespan_text() {
    let mut k = KmlWriter::new();
    assert!(k.timespan(1627779600, 1627780200));
    assert_eq!(
        k.take_text(),
        "<TimeSpan>\n<begin>2021-08-01T01:00:00.000Z</begin>\n<end>2021-08-01T01:10:00.000Z</end>\n</TimeSpan>\n"
    );
    assert!(!k.timespan(i64::MAX, 0));
    assert_eq!(k.take_text(), "");
}

#[test]
fn description_text() {
    let mut k = KmlWriter::new();
    k.write_description("Power: 12 MW");
    assert_eq!(k.take_text(), "<description><![CDATA[Power: 12 MW]]></description>\n");
}
