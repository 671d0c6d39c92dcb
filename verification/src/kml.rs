//! The text of the KML files the programs write: a streaming writer that appends elements to a
//! buffer, leaving the caller responsible for closing every element it opens. Whoever owns the
//! output takes the text out of the buffer and writes it.

use crate::utc::{format_kml_time, kml_time_text};
use vstd::prelude::*;

verus! {

/// `<tag>content</tag>` on a line of its own.
pub open spec fn element_line(open: Seq<char>, content: Seq<char>, close: Seq<char>) -> Seq<char> {
    open + content + close + "\n"@
}

/// The text of a description element.
pub open spec fn description_text(description: Seq<char>) -> Seq<char> {
    element_line("<description><![CDATA["@, description, "]]></description>"@)
}

/// The text of an optional name element.
pub open spec fn name_text(name: Option<Seq<char>>) -> Seq<char> {
    match name {
        Some(n) => element_line("<name>"@, n, "</name>"@),
        None => Seq::empty(),
    }
}

/// The text of an optional description element.
pub open spec fn optional_description_text(description: Option<Seq<char>>) -> Seq<char> {
    match description {
        Some(d) => description_text(d),
        None => Seq::empty(),
    }
}

/// The text that starts a folder.
pub open spec fn folder_start_text(name: Option<Seq<char>>, description: Option<Seq<char>>, is_open: bool) -> Seq<char> {
    "<Folder>\n"@ + name_text(name) + optional_description_text(description)
        + (if is_open { "<open>1</open>\n"@ } else { Seq::empty() })
}

/// The text that starts a placemark.
pub open spec fn placemark_start_text(
    name: Option<Seq<char>>,
    description: Option<Seq<char>>,
    style_url: Option<Seq<char>>,
) -> Seq<char> {
    "<Placemark>\n"@ + name_text(name) + optional_description_text(description) + match style_url {
        Some(u) => element_line("<styleUrl>"@, u, "</styleUrl>"@),
        None => Seq::empty(),
    }
}

/// The start of a placemark is the `<Placemark>` line, then a name line when a name is given,
/// then a description line when a description is given (whether or not there is a name), then
/// a style line when a style is given; each line is there exactly when its argument is.
pub proof fn lemma_placemark_start_lines(
    name: Option<Seq<char>>,
    description: Option<Seq<char>>,
    style_url: Option<Seq<char>>,
)
    ensures
        placemark_start_text(name, description, style_url) == "<Placemark>\n"@ + match name {
            Some(n) => "<name>"@ + n + "</name>"@ + "\n"@,
            None => Seq::<char>::empty(),
        } + match description {
            Some(d) => "<description><![CDATA["@ + d + "]]></description>"@ + "\n"@,
            None => Seq::<char>::empty(),
        } + match style_url {
            Some(u) => "<styleUrl>"@ + u + "</styleUrl>"@ + "\n"@,
            None => Seq::<char>::empty(),
        },
{
}

/// The start of a folder is the `<Folder>` line, then a name line when a name is given, then a
/// description line when a description is given (whether or not there is a name), then the
/// line that opens it when asked; each line is there exactly when its argument asks for it.
pub proof fn lemma_folder_start_lines(name: Option<Seq<char>>, description: Option<Seq<char>>, is_open: bool)
    ensures
        folder_start_text(name, description, is_open) == "<Folder>\n"@ + match name {
            Some(n) => "<name>"@ + n + "</name>"@ + "\n"@,
            None => Seq::<char>::empty(),
        } + match description {
            Some(d) => "<description><![CDATA["@ + d + "]]></description>"@ + "\n"@,
            None => Seq::<char>::empty(),
        } + if is_open {
            "<open>1</open>\n"@
        } else {
            Seq::<char>::empty()
        },
{
}

/// The text that starts a style definition.
pub open spec fn style_start_text(style_id: Option<Seq<char>>) -> Seq<char> {
    match style_id {
        Some(id) => element_line("<Style id=\""@, id, "\">"@),
        None => "<Style>\n"@,
    }
}

/// `1` or `0`.
pub open spec fn flag_text(b: bool) -> Seq<char> {
    if b { "1"@ } else { "0"@ }
}

/// The text of a PolyStyle element.
pub open spec fn poly_style_text(color: Option<Seq<char>>, filled: bool, outlined: bool) -> Seq<char> {
    "<PolyStyle>\n"@ + match color {
        Some(c) => element_line("<color>"@, c, "</color>"@) + "<colorMode>normal</colorMode>\n"@,
        None => "<colorMode>random</colorMode>\n"@,
    } + element_line("<fill>"@, flag_text(filled), "</fill>"@) + element_line(
        "<outline>"@,
        flag_text(outlined),
        "</outline>"@,
    ) + "</PolyStyle>\n"@
}

/// The text that starts a polygon.
pub open spec fn polygon_start_text(extrude: bool, tessellate: bool, altitude_mode: Option<Seq<char>>) -> Seq<char> {
    "<Polygon>\n"@ + match altitude_mode {
        Some(m) => element_line("<altitudeMode>"@, m, "</altitudeMode>"@),
        None => Seq::empty(),
    } + (if extrude { "<extrude>1</extrude>\n"@ } else { Seq::empty() })
        + (if tessellate { "<tessellate>1</tessellate>\n"@ } else { Seq::empty() })
}

/// The text of a TimeSpan element, when both times can be written.
pub open spec fn timespan_text(start: i64, end: i64) -> Option<Seq<char>> {
    match (kml_time_text(start), kml_time_text(end)) {
        (Some(b), Some(e)) => Some(
            "<TimeSpan>\n"@ + element_line("<begin>"@, b, "</begin>"@) + element_line("<end>"@, e, "</end>"@)
                + "</TimeSpan>\n"@,
        ),
        _ => None,
    }
}

/// The view of an optional string.
pub open spec fn opt_view(s: Option<&str>) -> Option<Seq<char>> {
    match s {
        Some(t) => Some(t@),
        None => None,
    }
}

/// A KML text buffer.
pub struct KmlWriter {
    text: String,
}

impl View for KmlWriter {
    type V = Seq<char>;

    closed spec fn view(&self) -> Seq<char> {
        self.text@
    }
}

impl KmlWriter {
    /// An empty buffer.
    pub fn new() -> (r: Self)
        ensures
            r@ == Seq::<char>::empty(),
    {
        KmlWriter { text: String::new() }
    }

    /// Take the text out of the buffer, leaving it empty.
    pub fn take_text(&mut self) -> (r: String)
        ensures
            r@ == old(self)@,
            final(self)@ == Seq::<char>::empty(),
    {
        let mut out = String::new();
        std::mem::swap(&mut out, &mut self.text);
        out
    }

    /// Append text that the caller wrote itself.
    pub fn write_raw(&mut self, text: &str)
        ensures
            final(self)@ == old(self)@ + text@,
    {
        self.text.append(text);
    }

    fn line(&mut self, open: &str, content: &str, close: &str)
        ensures
            final(self)@ == old(self)@ + element_line(open@, content@, close@),
    {
        self.text.append(open);
        self.text.append(content);
        self.text.append(close);
        self.text.append("\n");
        assert(self.text@ =~= old(self)@ + element_line(open@, content@, close@));
    }

    /// Start the document: the XML header and the opening of the `kml` and `Document`
    /// elements.
    pub fn start_document(&mut self)
        ensures
            final(self)@ == old(self)@ + "<?xml version=\"1.0\" encoding=\"UTF-8\"?>\n<kml xmlns=\"http://www.opengis.net/kml/2.2\">\n<Document>\n"@,
    {
        self.text.append("<?xml version=\"1.0\" encoding=\"UTF-8\"?>\n<kml xmlns=\"http://www.opengis.net/kml/2.2\">\n<Document>\n");
    }

    /// Close the document.
    pub fn finish_document(&mut self)
        ensures
            final(self)@ == old(self)@ + "</Document>\n</kml>\n"@,
    {
        self.text.append("</Document>\n</kml>\n");
    }

    /// Write a description element.
    pub fn write_description(&mut self, description: &str)
        ensures
            final(self)@ == old(self)@ + description_text(description@),
    {
        self.line("<description><![CDATA[", description, "]]></description>");
    }

    /// Start a folder, with a name and a description when they are given, open when asked.
    pub fn start_folder(&mut self, name: Option<&str>, description: Option<&str>, is_open: bool)
        ensures
            final(self)@ == old(self)@ + folder_start_text(opt_view(name), opt_view(description), is_open),
    {
        self.text.append("<Folder>\n");
        if let Some(name) = name {
            self.line("<name>", name, "</name>");
        }
        if let Some(description) = description {
            self.write_description(description);
        }
        if is_open {
            self.text.append("<open>1</open>\n");
        }
        assert(self@ =~= old(self)@ + folder_start_text(opt_view(name), opt_view(description), is_open));
    }

    /// Close a folder.
    pub fn finish_folder(&mut self)
        ensures
            final(self)@ == old(self)@ + "</Folder>\n"@,
    {
        self.text.append("</Folder>\n");
    }

    /// Start a placemark, with a name, a description and a style when they are given.
    pub fn start_placemark(&mut self, name: Option<&str>, description: Option<&str>, style_url: Option<&str>)
        ensures
            final(self)@ == old(self)@ + placemark_start_text(opt_view(name), opt_view(description), opt_view(style_url)),
    {
        self.text.append("<Placemark>\n");
        if let Some(name) = name {
            self.line("<name>", name, "</name>");
        }
        if let Some(description) = description {
            self.write_description(description);
        }
        if let Some(style_url) = style_url {
            self.line("<styleUrl>", style_url, "</styleUrl>");
        }
        assert(self@ =~= old(self)@ + placemark_start_text(opt_view(name), opt_view(description), opt_view(style_url)));
    }

    /// Close a placemark.
    pub fn finish_placemark(&mut self)
        ensures
            final(self)@ == old(self)@ + "</Placemark>\n"@,
    {
        self.text.append("</Placemark>\n");
    }

    /// Start a style definition, with an id when one is given.
    pub fn start_style(&mut self, style_id: Option<&str>)
        ensures
            final(self)@ == old(self)@ + style_start_text(opt_view(style_id)),
    {
        match style_id {
            Some(id) => self.line("<Style id=\"", id, "\">"),
            None => self.text.append("<Style>\n"),
        }
    }

    /// Close a style definition.
    pub fn finish_style(&mut self)
        ensures
            final(self)@ == old(self)@ + "</Style>\n"@,
    {
        self.text.append("</Style>\n");
    }

    /// Write a PolyStyle element: the color if one is given, else a random color, and whether
    /// the polygons are filled and outlined. It belongs inside a style definition.
    pub fn create_poly_style(&mut self, color: Option<&str>, filled: bool, outlined: bool)
        ensures
            final(self)@ == old(self)@ + poly_style_text(opt_view(color), filled, outlined),
    {
        self.text.append("<PolyStyle>\n");
        match color {
            Some(c) => {
                self.line("<color>", c, "</color>");
                self.text.append("<colorMode>normal</colorMode>\n");
            },
            None => self.text.append("<colorMode>random</colorMode>\n"),
        }
        let filled_text = if filled { "1" } else { "0" };
        let outlined_text = if outlined { "1" } else { "0" };
        self.line("<fill>", filled_text, "</fill>");
        self.line("<outline>", outlined_text, "</outline>");
        self.text.append("</PolyStyle>\n");
        assert(self@ =~= old(self)@ + poly_style_text(opt_view(color), filled, outlined));
    }

    /// Write a TimeSpan element from `start` to `end`. When chrono cannot write one of the
    /// times, nothing is written and the result is false.
    pub fn timespan(&mut self, start: i64, end: i64) -> (r: bool)
        ensures
            r == timespan_text(start, end) is Some,
            final(self)@ == old(self)@ + (match timespan_text(start, end) {
                Some(t) => t,
                None => Seq::empty(),
            }),
    {
        let b = format_kml_time(start);
        let e = format_kml_time(end);
        match (b, e) {
            (Some(b), Some(e)) => {
                self.text.append("<TimeSpan>\n");
                self.line("<begin>", b.as_str(), "</begin>");
                self.line("<end>", e.as_str(), "</end>");
                self.text.append("</TimeSpan>\n");
                assert(self@ =~= old(self)@ + timespan_text(start, end).unwrap());
                true
            },
            _ => {
                assert(self@ =~= old(self)@ + Seq::<char>::empty());
                false
            },
        }
    }

    /// Start a MultiGeometry.
    pub fn start_multi_geometry(&mut self)
        ensures
            final(self)@ == old(self)@ + "<MultiGeometry>\n"@,
    {
        self.text.append("<MultiGeometry>\n");
    }

    /// Close a MultiGeometry.
    pub fn finish_multi_geometry(&mut self)
        ensures
            final(self)@ == old(self)@ + "</MultiGeometry>\n"@,
    {
        self.text.append("</MultiGeometry>\n");
    }

    /// Start a polygon, with an altitude mode when one is given.
    pub fn start_polygon(&mut self, extrude: bool, tessellate: bool, altitude_mode: Option<&str>)
        ensures
            final(self)@ == old(self)@ + polygon_start_text(extrude, tessellate, opt_view(altitude_mode)),
    {
        self.text.append("<Polygon>\n");
        if let Some(mode) = altitude_mode {
            self.line("<altitudeMode>", mode, "</altitudeMode>");
        }
        if extrude {
            self.text.append("<extrude>1</extrude>\n");
        }
        if tessellate {
            self.text.append("<tessellate>1</tessellate>\n");
        }
        assert(self@ =~= old(self)@ + polygon_start_text(extrude, tessellate, opt_view(altitude_mode)));
    }

    /// Close a polygon.
    pub fn finish_polygon(&mut self)
        ensures
            final(self)@ == old(self)@ + "</Polygon>\n"@,
    {
        self.text.append("</Polygon>\n");
    }

    /// Start the outer ring of a polygon.
    pub fn polygon_start_outer_ring(&mut self)
        ensures
            final(self)@ == old(self)@ + "<outerBoundaryIs>\n"@,
    {
        self.text.append("<outerBoundaryIs>\n");
    }

    /// Close the outer ring of a polygon.
    pub fn polygon_finish_outer_ring(&mut self)
        ensures
            final(self)@ == old(self)@ + "</outerBoundaryIs>\n"@,
    {
        self.text.append("</outerBoundaryIs>\n");
    }

    /// Start a LinearRing and its coordinates.
    pub fn start_linear_ring(&mut self)
        ensures
            final(self)@ == old(self)@ + "<LinearRing>\n<coordinates>\n"@,
    {
        self.text.append("<LinearRing>\n<coordinates>\n");
    }

    /// Close the coordinates and the LinearRing.
    pub fn finish_linear_ring(&mut self)
        ensures
            final(self)@ == old(self)@ + "</coordinates>\n</LinearRing>\n"@,
    {
        self.text.append("</coordinates>\n</LinearRing>\n");
    }
}

} // verus!
