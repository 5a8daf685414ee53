//! The text of the requests sent to the map-data service (Overpass QL).
use vstd::prelude::*;
use crate::text::{decimal, decimal_text, remove_newlines, without_newlines};

verus! {

/// Highest detail level of a request; 0 is the most detailed.
pub const MAX_REQUEST_LEVEL: u8 = 6;

/// The highway type requested at each level, from the most detailed.
pub open spec fn highway_level(x: int) -> Seq<char> {
    if x == 0 { "residential"@ }
    else if x == 1 { "unclassified"@ }
    else if x == 2 { "tertiary"@ }
    else if x == 3 { "secondary"@ }
    else if x == 4 { "primary"@ }
    else if x == 5 { "trunk"@ }
    else { "motorway"@ }
}

/// The waterway type requested at each level below the last, from the most
/// detailed.
pub open spec fn waterway_level(x: int) -> Seq<char> {
    if x == 0 { "ditch"@ }
    else if x == 1 { "drain"@ }
    else if x == 2 { "stream"@ }
    else if x == 3 { "river"@ }
    else if x == 4 { "canal"@ }
    else { "riverbank"@ }
}

fn highway_level_str(x: u8) -> (r: &'static str)
    ensures
        r@ == highway_level(x as int),
{
    match x {
        0 => "residential",
        1 => "unclassified",
        2 => "tertiary",
        3 => "secondary",
        4 => "primary",
        5 => "trunk",
        _ => "motorway",
    }
}

fn waterway_level_str(x: u8) -> (r: &'static str)
    ensures
        r@ == waterway_level(x as int),
{
    match x {
        0 => "ditch",
        1 => "drain",
        2 => "stream",
        3 => "river",
        4 => "canal",
        _ => "riverbank",
    }
}

/// The query line for ways of one type: `way[key=value](bbox);` and a line
/// break.
pub open spec fn way_line(key: Seq<char>, value: Seq<char>, bbox: Seq<char>) -> Seq<char> {
    "way["@ + key + "="@ + value + "]("@ + bbox + ");\n"@
}

/// The query lines of the levels from `first` up to, not including, `to`: for
/// each its highway type, then its waterway type.
pub open spec fn level_lines(bbox: Seq<char>, first: int, to: int) -> Seq<char>
    decreases to - first,
{
    if to <= first {
        Seq::empty()
    } else {
        level_lines(bbox, first, to - 1) + way_line("highway"@, highway_level(to - 1), bbox)
            + way_line("waterway"@, waterway_level(to - 1), bbox)
    }
}

/// The text of a request, line breaks kept: the output settings with the
/// timeout, then either the buildings of the box (`building_query` followed by
/// the box and `building_end`), or, after `opening`, the ways of every level
/// from `level` on and the motorways, with the nodes of those ways.
pub open spec fn request_spec(
    timeout: nat,
    get_building: bool,
    bbox: Seq<char>,
    level: int,
    opening: Seq<char>,
    building_end: Seq<char>,
) -> Seq<char> {
    let head = "[out:json][timeout:"@ + decimal_text(timeout) + "];\n"@;
    if get_building {
        head + "way[building]("@ + bbox + building_end
    } else {
        head + opening + level_lines(bbox, level, MAX_REQUEST_LEVEL as int) + way_line(
            "highway"@,
            highway_level(MAX_REQUEST_LEVEL as int),
            bbox,
        ) + ");\nnode(w);\n);\nout;\n"@
    }
}

/// The text of a request, with its line breaks taken out unless asked for.
pub open spec fn request_text(raw: Seq<char>, with_newline: Option<bool>) -> Seq<char> {
    if with_newline == Some(true) {
        raw
    } else {
        without_newlines(raw)
    }
}

fn append_way_line(out: &mut String, key: &str, value: &str, bbox: &str)
    ensures
        final(out)@ == old(out)@ + way_line(key@, value@, bbox@),
{
    out.append("way[");
    out.append(key);
    out.append("=");
    out.append(value);
    out.append("](");
    out.append(bbox);
    out.append(");\n");
}

/// Build the text of a request (see `request_spec` and `request_text`).
pub fn build_request(
    timeout: u32,
    get_building: bool,
    bbox: &str,
    level: u8,
    opening: &str,
    building_end: &str,
    with_newline: Option<bool>,
) -> (r: String)
    requires
        level <= MAX_REQUEST_LEVEL,
    ensures
        r@ == request_text(
            request_spec(timeout as nat, get_building, bbox@, level as int, opening@, building_end@),
            with_newline,
        ),
{
    let mut request = String::from_str("[out:json][timeout:");
    let t = decimal(timeout as u64);
    request.append(t.as_str());
    request.append("];\n");
    if get_building {
        request.append("way[building](");
        request.append(bbox);
        request.append(building_end);
    } else {
        request.append(opening);
        let ghost start = request@;
        let mut x: u8 = level;
        while x < MAX_REQUEST_LEVEL
            invariant
                level <= x <= MAX_REQUEST_LEVEL,
                request@ == start + level_lines(bbox@, level as int, x as int),
            decreases MAX_REQUEST_LEVEL - x,
        {
            append_way_line(&mut request, "highway", highway_level_str(x), bbox);
            append_way_line(&mut request, "waterway", waterway_level_str(x), bbox);
            x = x + 1;
        }
        append_way_line(&mut request, "highway", highway_level_str(MAX_REQUEST_LEVEL), bbox);
        request.append(");\nnode(w);\n);\nout;\n");
    }
    let keep_newline: bool = match with_newline {
        Some(value) => value,
        None => false,
    };
    if keep_newline {
        request
    } else {
        remove_newlines(request.as_str())
    }
}

/// The parts of the box joined by commas.
pub open spec fn joined_bbox(b: [String; 4]) -> Seq<char> {
    b[0]@ + ","@ + b[1]@ + ","@ + b[2]@ + ","@ + b[3]@
}

/// Builds the text of a request for the map-data service, over a box given
/// as four texts (south, west, north, east).
pub struct RequestBuilder {
    pub details_level: u8,
    pub get_building: bool,
    pub bounding_box: [String; 4],
    pub timeout: u32,
}

impl RequestBuilder {
    /// Create a new RequestBuilder over a box: all details, no buildings, a
    /// timeout of 30 seconds.
    pub fn new(bounding_box: [String; 4]) -> (r: RequestBuilder)
        ensures
            r.details_level == 0,
            !r.get_building,
            r.bounding_box == bounding_box,
            r.timeout == 30,
    {
        RequestBuilder { details_level: 0, get_building: false, bounding_box, timeout: 30 }
    }

    /// Set whether to ask for the buildings (only their centers) instead of the
    /// ways.
    pub fn get_building(&mut self, value: bool)
        ensures
            final(self).get_building == value,
            final(self).details_level == old(self).details_level,
            final(self).bounding_box == old(self).bounding_box,
            final(self).timeout == old(self).timeout,
    {
        self.get_building = value;
    }

    /// Set the details level of the request, between 0 (most detailed) and 6.
    pub fn set_details_level(&mut self, value: u8)
        requires
            value <= MAX_REQUEST_LEVEL,
        ensures
            final(self).details_level == value,
            final(self).get_building == old(self).get_building,
            final(self).bounding_box == old(self).bounding_box,
            final(self).timeout == old(self).timeout,
    {
        self.details_level = value;
    }

    /// Build the request text; line breaks are kept only if `with_newline` is
    /// `Some(true)`.
    pub fn get_request_txt(&self, with_newline: Option<bool>) -> (r: String)
        requires
            self.details_level <= MAX_REQUEST_LEVEL,
        ensures
            r@ == request_text(
                request_spec(
                    self.timeout as nat,
                    self.get_building,
                    joined_bbox(self.bounding_box),
                    self.details_level as int,
                    "(("@,
                    "); out center;\n"@,
                ),
                with_newline,
            ),
    {
        let mut bbox = self.bounding_box[0].clone();
        bbox.append(",");
        bbox.append(self.bounding_box[1].as_str());
        bbox.append(",");
        bbox.append(self.bounding_box[2].as_str());
        bbox.append(",");
        bbox.append(self.bounding_box[3].as_str());
        build_request(
            self.timeout,
            self.get_building,
            bbox.as_str(),
            self.details_level,
            "((",
            "); out center;\n",
            with_newline,
        )
    }
}

} // verus!
