//! The request text for the map-data service, over a bounding box.
use vstd::prelude::*;
use crate::geo::BoundingBox;
use crate::overpass::{build_request, request_spec, request_text};
use crate::text::{coordinate, coordinate_text};

verus! {

/// The corners of a box as text, joined by commas: south, west, north, east.
pub open spec fn box_text(b: BoundingBox) -> Seq<char> {
    coordinate_text(b.coo[0] as int) + ","@ + coordinate_text(b.coo[1] as int) + ","@
        + coordinate_text(b.coo[2] as int) + ","@ + coordinate_text(b.coo[3] as int)
}

/// Builds the text of a request for the map-data service over a bounding box.
pub struct RequestBuilder {
    pub get_building: bool,
    pub timeout: u32,
    pub bounding_box: BoundingBox,
}

impl RequestBuilder {
    /// The detail level for a map whose side is `scale` millimetres long:
    /// every level is asked for, whatever the scale.
    pub fn get_lvl_details(scale: i64) -> (r: u8)
        ensures
            r == 0,
    {
        0
    }

    /// Create a new RequestBuilder over a box: no buildings, a timeout of 30
    /// seconds.
    pub fn new(bounding_box: BoundingBox) -> (r: RequestBuilder)
        ensures
            !r.get_building,
            r.bounding_box == bounding_box,
            r.timeout == 30,
    {
        RequestBuilder { get_building: false, timeout: 30, bounding_box }
    }

    /// Set whether to ask for the buildings (only their centers) instead of the
    /// ways.
    pub fn get_building(&mut self, value: bool)
        ensures
            final(self).get_building == value,
            final(self).bounding_box == old(self).bounding_box,
            final(self).timeout == old(self).timeout,
    {
        self.get_building = value;
    }

    /// Build the request text; line breaks are kept only if `with_newline` is
    /// `Some(true)`.
    pub fn get_request_txt(&self, with_newline: Option<bool>) -> (r: String)
        requires
            self.bounding_box.wf(),
        ensures
            r@ == request_text(
                request_spec(
                    self.timeout as nat,
                    self.get_building,
                    box_text(self.bounding_box),
                    0,
                    "(\n(\n"@,
                    ");+out+center;\n"@,
                ),
                with_newline,
            ),
    {
        let b = &self.bounding_box;
        let mut bbox = coordinate(b.coo[0]);
        bbox.append(",");
        let t = coordinate(b.coo[1]);
        bbox.append(t.as_str());
        bbox.append(",");
        let t = coordinate(b.coo[2]);
        bbox.append(t.as_str());
        bbox.append(",");
        let t = coordinate(b.coo[3]);
        bbox.append(t.as_str());
        let level = RequestBuilder::get_lvl_details(b.dim_mm[0]);
        build_request(
            self.timeout,
            self.get_building,
            bbox.as_str(),
            level,
            "(\n(\n",
            ");+out+center;\n",
            with_newline,
        )
    }
}

} // verus!
