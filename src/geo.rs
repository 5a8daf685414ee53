//! Bounding boxes on an integer model of the globe: coordinates are in units
//! of 1e-7 degree, the precision at which map data gives them, and lengths in
//! millimetres.
use vstd::prelude::*;
use vstd::arithmetic::div_mod::{
    lemma_div_is_ordered, lemma_div_is_ordered_by_denominator, lemma_div_pos_is_pos,
    lemma_fundamental_div_mod, lemma_mod_bound,
};

verus! {

/// Largest absolute latitude, 90 degrees.
pub const LAT_LIMIT: i64 = 900_000_000;

/// Largest absolute longitude, 180 degrees.
pub const LON_LIMIT: i64 = 1_800_000_000;

/// Half a turn in coordinate units.
pub const HALF_TURN: i128 = 1_800_000_000;

/// Fixed-point one for cosines and radians (1e-9).
pub const UNIT: i128 = 1_000_000_000;

/// Pi in units of 1e-9.
pub const PI_NANO: i128 = 3_141_592_654;

/// Metres in one degree of latitude.
pub const M_PER_DEG_LAT: i128 = 110_574;

/// Metres in one degree of longitude at the equator.
pub const M_PER_DEG_LON: i128 = 111_320;

/// Coordinate units per degree, divided by the millimetres in a metre.
pub const MM_DIVISOR: i128 = 10_000;

/// An angle given in coordinate units, in radians of 1e-9.
pub open spec fn radians(d: int) -> int {
    d * (PI_NANO as int) / (HALF_TURN as int)
}

/// The Taylor polynomial of degree 8 of the cosine of an angle given in
/// coordinate units, in fixed point (1e-9).
pub open spec fn cos_taylor(d: int) -> int {
    let x = radians(d);
    let y = x * x / (UNIT as int);
    let t2 = y * y / (UNIT as int);
    let t3 = t2 * y / (UNIT as int);
    let t4 = t3 * y / (UNIT as int);
    (UNIT as int) - y / 2 + t2 / 24 - t3 / 720 + t4 / 40320
}

/// The cosine of an angle of `[0, 180]` degrees given in coordinate units, in
/// fixed point (1e-9): its Taylor polynomial, which is positive below 90
/// degrees, kept at least 1e-9 beyond, where the cosine itself is not
/// positive and no length can be taken from it.
pub open spec fn cos_model(d: int) -> int {
    if cos_taylor(d) < 1 {
        1
    } else {
        cos_taylor(d)
    }
}

/// Division that rounds toward zero.
pub open spec fn div_trunc(n: int, d: int) -> int {
    if n >= 0 {
        n / d
    } else {
        -((-n) / d)
    }
}

/// The length of a latitude span, in millimetres.
pub open spec fn mm_lat(d_lat: int) -> int {
    d_lat * (M_PER_DEG_LAT as int) / (MM_DIVISOR as int)
}

/// The length of a longitude span, in millimetres, taken at the cosine of the
/// latitude span.
pub open spec fn mm_lon(d_lat: int, d_lon: int) -> int {
    div_trunc(d_lon * (M_PER_DEG_LON as int) * cos_model(d_lat), (MM_DIVISOR as int) * (UNIT as int))
}

/// A bounding box: `coo` is `[min_lat, min_lon, max_lat, max_lon]`, `dim_deg`
/// its latitude and longitude spans and `dim_mm` their lengths.
#[derive(Copy, Clone, Debug)]
pub struct BoundingBox {
    pub coo: [i64; 4],
    pub dim_deg: [i64; 2],
    pub dim_mm: [i64; 2],
}

/// The box with these corners and its derived spans and lengths.
pub open spec fn sized(min_lat: int, min_lon: int, max_lat: int, max_lon: int) -> BoundingBox {
    BoundingBox {
        coo: [min_lat as i64, min_lon as i64, max_lat as i64, max_lon as i64],
        dim_deg: [(max_lat - min_lat) as i64, (max_lon - min_lon) as i64],
        dim_mm: [
            mm_lat(max_lat - min_lat) as i64,
            mm_lon(max_lat - min_lat, max_lon - min_lon) as i64,
        ],
    }
}

/// Corners that lie on the globe, the minimum below the maximum.
pub open spec fn in_world(min_lat: int, min_lon: int, max_lat: int, max_lon: int) -> bool {
    &&& -LAT_LIMIT <= min_lat <= max_lat <= LAT_LIMIT
    &&& -LON_LIMIT <= min_lon <= max_lon <= LON_LIMIT
}

impl BoundingBox {
    /// Corners on the globe, and derived fields that match them.
    pub open spec fn wf(&self) -> bool {
        &&& in_world(self.coo[0] as int, self.coo[1] as int, self.coo[2] as int, self.coo[3] as int)
        &&& *self == sized(self.coo[0] as int, self.coo[1] as int, self.coo[2] as int, self.coo[3] as int)
    }
}

/// The longitude span as long as a latitude span.
pub open spec fn lon_for(d_lat: int) -> int {
    (d_lat * (M_PER_DEG_LAT as int) * (UNIT as int)) / ((M_PER_DEG_LON as int) * cos_model(d_lat))
}

/// The latitude span as long as a longitude span taken at the cosine of `d_lat`.
pub open spec fn lat_for(d_lat: int, d_lon: int) -> int {
    (d_lon * (M_PER_DEG_LON as int) * cos_model(d_lat)) / ((M_PER_DEG_LAT as int) * (UNIT as int))
}

/// The spans of the square that fits in spans `(d_lat, d_lon)`: the longer
/// side is brought down to the length of the shorter one.
pub open spec fn square_spans(d_lat: int, d_lon: int) -> (int, int) {
    if lon_for(d_lat) <= d_lon {
        (d_lat, lon_for(d_lat))
    } else {
        let l = lat_for(d_lat, d_lon);
        (l, lon_for(l))
    }
}

/// Half of `n`, rounded toward zero.
pub open spec fn half(n: int) -> int {
    div_trunc(n, 2)
}

/// The corners of the box `b` brought to the square spans, around its center.
pub open spec fn squared_corners(b: BoundingBox) -> (int, int, int, int) {
    let (l, o) = square_spans(b.dim_deg[0] as int, b.dim_deg[1] as int);
    let min_lat = b.coo[0] + half(b.dim_deg[0] - l);
    let min_lon = b.coo[1] + half(b.dim_deg[1] - o);
    (min_lat, min_lon, min_lat + l, min_lon + o)
}

/// A box that normalization can square: the cosine of its latitude span is
/// positive (the span is under 90 degrees), so that its longitude side has a
/// length, and its square stays on the globe.
pub open spec fn squarable(b: BoundingBox) -> bool {
    let c = squared_corners(b);
    &&& cos_model(b.dim_deg[0] as int) > 1
    &&& in_world(c.0, c.1, c.2, c.3)
}

/// Normalization: the square that fits in the box, centered on it, where the
/// box is squarable; the box itself where it is not.
pub open spec fn normalized(b: BoundingBox) -> BoundingBox {
    let c = squared_corners(b);
    if squarable(b) {
        sized(c.0, c.1, c.2, c.3)
    } else {
        b
    }
}

/// A square box: its longitude span is as long as its latitude span.
pub open spec fn is_square(b: BoundingBox) -> bool {
    b.dim_deg[1] == lon_for(b.dim_deg[0] as int)
}

/// A product of bounded factors, divided, stays under the bound's quotient.
proof fn lemma_product_quotient(a: int, b: int, bound_a: int, bound_b: int, d: int)
    requires
        0 <= a <= bound_a,
        0 <= b <= bound_b,
        0 < d,
    ensures
        0 <= a * b / d <= bound_a * bound_b / d,
{
    assert(0 <= a * b <= bound_a * bound_b) by (nonlinear_arith)
        requires
            0 <= a <= bound_a,
            0 <= b <= bound_b,
    ;
    lemma_div_is_ordered(a * b, bound_a * bound_b, d);
    lemma_div_pos_is_pos(a * b, d);
}

/// Bounds on the terms of the cosine polynomial below `x_bound` radians.
proof fn lemma_cos_terms_below(d: int, x_bound: int, d_bound: int)
    requires
        0 <= d <= d_bound,
        d_bound * (PI_NANO as int) / (HALF_TURN as int) <= x_bound,
    ensures
        0 <= radians(d) <= x_bound,
        ({
            let x = radians(d);
            let y = x * x / (UNIT as int);
            let t2 = y * y / (UNIT as int);
            let t3 = t2 * y / (UNIT as int);
            let t4 = t3 * y / (UNIT as int);
            let yb = x_bound * x_bound / (UNIT as int);
            let t2b = yb * yb / (UNIT as int);
            let t3b = t2b * yb / (UNIT as int);
            &&& 0 <= y <= yb
            &&& 0 <= t2 <= t2b
            &&& 0 <= t3 <= t3b
            &&& 0 <= t4 <= t3b * yb / (UNIT as int)
        }),
{
    lemma_product_quotient(d, PI_NANO as int, d_bound, PI_NANO as int, HALF_TURN as int);
    let x = radians(d);
    lemma_product_quotient(x, x, x_bound, x_bound, UNIT as int);
    let y = x * x / (UNIT as int);
    let yb = x_bound * x_bound / (UNIT as int);
    lemma_product_quotient(y, y, yb, yb, UNIT as int);
    let t2 = y * y / (UNIT as int);
    let t2b = yb * yb / (UNIT as int);
    lemma_product_quotient(t2, y, t2b, yb, UNIT as int);
    let t3 = t2 * y / (UNIT as int);
    let t3b = t2b * yb / (UNIT as int);
    lemma_product_quotient(t3, y, t3b, yb, UNIT as int);
}

/// Bounds on the terms of the cosine polynomial over `[0, 180]` degrees.
proof fn lemma_cos_terms(d: int)
    requires
        0 <= d <= HALF_TURN,
    ensures
        ({
            let x = radians(d);
            let y = x * x / (UNIT as int);
            let t2 = y * y / (UNIT as int);
            let t3 = t2 * y / (UNIT as int);
            let t4 = t3 * y / (UNIT as int);
            &&& 0 <= x <= 3_141_592_654
            &&& 0 <= y <= 9_869_604_403
            &&& 0 <= t2 <= 97_409_091_071
            &&& 0 <= t3 <= 961_389_194_126
            &&& 0 <= t4 <= 9_488_531_023_342
        }),
        -7_000_000_000 <= cos_model(d) <= 7_000_000_000,
{
    assert((HALF_TURN as int) * (PI_NANO as int) / (HALF_TURN as int) == 3_141_592_654);
    assert(3_141_592_654int * 3_141_592_654 / 1_000_000_000 == 9_869_604_403);
    assert(9_869_604_403int * 9_869_604_403 / 1_000_000_000 == 97_409_091_071);
    assert(97_409_091_071int * 9_869_604_403 / 1_000_000_000 == 961_389_194_126);
    assert(961_389_194_126int * 9_869_604_403 / 1_000_000_000 == 9_488_531_023_342);
    lemma_cos_terms_below(d, 3_141_592_654, HALF_TURN as int);
}

/// The cosine model at `d`, a span of `[0, 180]` degrees.
fn cos_fixed(d: i64) -> (r: i128)
    requires
        0 <= d <= HALF_TURN,
    ensures
        r == cos_model(d as int),
{
    proof {
        lemma_cos_terms(d as int);
    }
    let x: i128 = d as i128 * PI_NANO / HALF_TURN;
    let y: i128 = x * x / UNIT;
    let t2: i128 = y * y / UNIT;
    let t3: i128 = t2 * y / UNIT;
    let t4: i128 = t3 * y / UNIT;
    let p = UNIT - y / 2 + t2 / 24 - t3 / 720 + t4 / 40320;
    if p < 1 {
        1
    } else {
        p
    }
}

/// The length of the latitude span, in units of 1e-16 metre.
pub open spec fn lat_length(b: BoundingBox) -> int {
    b.dim_deg[0] * (M_PER_DEG_LAT as int) * (UNIT as int)
}

/// The length of the longitude span, in units of 1e-16 metre.
pub open spec fn lon_length(b: BoundingBox) -> int {
    b.dim_deg[1] * (M_PER_DEG_LON as int) * cos_model(b.dim_deg[0] as int)
}

/// Corners of the box zoomed by `factor` thousandths around its center: each
/// span divided by the factor.
pub open spec fn zoom_corners(b: BoundingBox, factor: int) -> (int, int, int, int) {
    let l = b.dim_deg[0] * 1000 / factor;
    let o = b.dim_deg[1] * 1000 / factor;
    let min_lat = b.coo[0] + half(b.dim_deg[0] - l);
    let min_lon = b.coo[1] + half(b.dim_deg[1] - o);
    (min_lat, min_lon, min_lat + l, min_lon + o)
}

/// The box zoomed by `factor` thousandths and normalized; the box itself when
/// the zoomed box would leave the globe.
pub open spec fn zoomed(b: BoundingBox, factor: int) -> BoundingBox {
    let c = zoom_corners(b, factor);
    if in_world(c.0, c.1, c.2, c.3) {
        normalized(sized(c.0, c.1, c.2, c.3))
    } else {
        b
    }
}

proof fn lemma_quotient_below(a: int, b: int, k: int)
    requires
        0 <= a < b * k,
        0 < k,
    ensures
        0 <= a / k < b,
{
    lemma_fundamental_div_mod(a, k);
    lemma_div_pos_is_pos(a, k);
    let q = a / k;
    let r = a % k;
    assert(0 <= r) by {
        lemma_mod_bound(a, k);
    }
    assert(q < b) by (nonlinear_arith)
        requires
            a == k * q + r,
            0 <= r,
            a < b * k,
            0 < k,
    ;
}

/// Where the longitude span is the shorter one, the latitude span that
/// matches it is shorter than the one it replaces.
proof fn lemma_lat_for_below(d_lat: int, d_lon: int)
    requires
        0 <= d_lat <= HALF_TURN,
        0 <= d_lon,
        lon_for(d_lat) > d_lon,
    ensures
        0 <= lat_for(d_lat, d_lon) < d_lat,
{
    lemma_cos_terms(d_lat);
    let c = cos_model(d_lat);
    let den = (M_PER_DEG_LON as int) * c;
    let num = d_lat * (M_PER_DEG_LAT as int) * (UNIT as int);
    let q = num / den;
    lemma_fundamental_div_mod(num, den);
    lemma_mod_bound(num, den);
    assert(d_lon * den < num) by (nonlinear_arith)
        requires
            num == den * q + num % den,
            0 <= num % den,
            q >= d_lon + 1,
            den > 0,
    ;
    assert(0 <= d_lon * den) by (nonlinear_arith)
        requires
            0 <= d_lon,
            den > 0,
    ;
    assert(d_lon * (M_PER_DEG_LON as int) * c == d_lon * den) by (nonlinear_arith)
        requires
            den == (M_PER_DEG_LON as int) * c,
    ;
    assert(num == d_lat * ((M_PER_DEG_LAT as int) * (UNIT as int))) by (nonlinear_arith)
        requires
            num == d_lat * (M_PER_DEG_LAT as int) * (UNIT as int),
    ;
    lemma_quotient_below(d_lon * den, d_lat, (M_PER_DEG_LAT as int) * (UNIT as int));
}

/// The longitude span as long as a latitude span of at most 180 degrees.
fn lon_span_for(d_lat: i64) -> (r: i128)
    requires
        0 <= d_lat <= HALF_TURN,
    ensures
        r == lon_for(d_lat as int),
        0 <= r <= 2_000_000_000_000_000_000,
{
    proof {
        lemma_cos_terms(d_lat as int);
    }
    let c = cos_fixed(d_lat);
    let num: i128 = d_lat as i128 * M_PER_DEG_LAT * UNIT;
    proof {
        let d = (M_PER_DEG_LON as int) * c;
        let dmin = (M_PER_DEG_LON as int) * 1;
        lemma_div_pos_is_pos(num as int, d);
        lemma_div_is_ordered_by_denominator(num as int, dmin, d);
        lemma_div_is_ordered(num as int, 1_800_000_000 * (M_PER_DEG_LAT as int) * (UNIT as int), dmin);
    }
    num / (M_PER_DEG_LON * c)
}

/// The latitude span as long as the longitude span `d_lon`, taken at the
/// cosine of `d_lat`.
fn lat_span_for(d_lat: i64, d_lon: i64) -> (r: i128)
    requires
        0 <= d_lat <= HALF_TURN,
        0 <= d_lon <= 2 * LON_LIMIT,
    ensures
        r == lat_for(d_lat as int, d_lon as int),
        0 <= r,
{
    proof {
        lemma_cos_terms(d_lat as int);
    }
    let c = cos_fixed(d_lat);
    proof {
        assert(0 <= (d_lon as int * 111_320) * c <= 3_600_000_000 * 111_320 * 7_000_000_000)
            by (nonlinear_arith)
            requires
                0 <= d_lon <= 3_600_000_000,
                0 <= c <= 7_000_000_000,
        ;
    }
    let num: i128 = d_lon as i128 * M_PER_DEG_LON * c;
    proof {
        lemma_div_pos_is_pos(num as int, (M_PER_DEG_LAT as int) * (UNIT as int));
    }
    num / (M_PER_DEG_LAT * UNIT)
}

fn half_of(n: i128) -> (r: i128)
    requires
        -100_000_000_000_000_000_000 <= n <= 100_000_000_000_000_000_000,
    ensures
        r == half(n as int),
{
    if n >= 0 {
        n / 2
    } else {
        -((-n) / 2)
    }
}

/// The box with these corners, with its spans and their lengths.
fn make_box(min_lat: i64, min_lon: i64, max_lat: i64, max_lon: i64) -> (r: BoundingBox)
    requires
        in_world(min_lat as int, min_lon as int, max_lat as int, max_lon as int),
    ensures
        r == sized(min_lat as int, min_lon as int, max_lat as int, max_lon as int),
        r.wf(),
{
    let d_lat = max_lat - min_lat;
    let d_lon = max_lon - min_lon;
    proof {
        lemma_cos_terms(d_lat as int);
    }
    let c = cos_fixed(d_lat);
    proof {
        assert(-3_600_000_000 * 111_320 * 7_000_000_000 <= (d_lon as int * 111_320) * c
            <= 3_600_000_000 * 111_320 * 7_000_000_000) by (nonlinear_arith)
            requires
                0 <= d_lon <= 3_600_000_000,
                -7_000_000_000 <= c <= 7_000_000_000,
        ;
    }
    let n: i128 = d_lon as i128 * M_PER_DEG_LON * c;
    let lon_mm: i128 = if n >= 0 {
        n / (MM_DIVISOR * UNIT)
    } else {
        -((-n) / (MM_DIVISOR * UNIT))
    };
    let lat_mm: i128 = d_lat as i128 * M_PER_DEG_LAT / MM_DIVISOR;
    BoundingBox {
        coo: [min_lat, min_lon, max_lat, max_lon],
        dim_deg: [d_lat, d_lon],
        dim_mm: [lat_mm as i64, lon_mm as i64],
    }
}

impl BoundingBox {
    /// Return a new bounding box with these corners, normalized.
    pub fn new(min_lat: i64, min_lon: i64, max_lat: i64, max_lon: i64) -> (r: BoundingBox)
        requires
            in_world(min_lat as int, min_lon as int, max_lat as int, max_lon as int),
        ensures
            r == normalized(sized(min_lat as int, min_lon as int, max_lat as int, max_lon as int)),
            r.wf(),
    {
        let mut b = make_box(min_lat, min_lon, max_lat, max_lon);
        b.resize();
        b
    }

    /// Compute this bounding box's spans and their lengths from its corners.
    pub fn compute_size(&mut self)
        requires
            in_world(
                old(self).coo[0] as int,
                old(self).coo[1] as int,
                old(self).coo[2] as int,
                old(self).coo[3] as int,
            ),
        ensures
            *final(self) == sized(
                old(self).coo[0] as int,
                old(self).coo[1] as int,
                old(self).coo[2] as int,
                old(self).coo[3] as int,
            ),
            final(self).wf(),
    {
        *self = make_box(self.coo[0], self.coo[1], self.coo[2], self.coo[3]);
    }

    /// Resize this bounding box to a square, measured in length rather than in
    /// degrees: the longer side is brought down to the shorter one, around the
    /// center. A box that is not squarable is left as it is.
    pub fn resize(&mut self)
        requires
            old(self).wf(),
        ensures
            *final(self) == normalized(*old(self)),
            final(self).wf(),
    {
        let d_lat = self.dim_deg[0];
        let d_lon = self.dim_deg[1];
        if cos_fixed(d_lat) <= 1 {
            return;
        }
        let lf = lon_span_for(d_lat);
        let l: i128;
        let o: i128;
        if lf <= d_lon as i128 {
            l = d_lat as i128;
            o = lf;
        } else {
            let nl = lat_span_for(d_lat, d_lon);
            proof {
                lemma_lat_for_below(d_lat as int, d_lon as int);
            }
            l = nl;
            o = lon_span_for(nl as i64);
        }
        let min_lat = self.coo[0] as i128 + half_of(d_lat as i128 - l);
        let min_lon = self.coo[1] as i128 + half_of(d_lon as i128 - o);
        let max_lat = min_lat + l;
        let max_lon = min_lon + o;
        if -(LAT_LIMIT as i128) <= min_lat && min_lat <= max_lat && max_lat <= LAT_LIMIT as i128
            && -(LON_LIMIT as i128) <= min_lon && min_lon <= max_lon && max_lon
            <= LON_LIMIT as i128 {
            *self = make_box(min_lat as i64, min_lon as i64, max_lat as i64, max_lon as i64);
        }
    }

    /// Zoom in or out around the center by `factor` thousandths (above 1000
    /// zooms in), then normalize. A zoom that would leave the globe leaves the
    /// box as it is.
    pub fn zoom(&mut self, factor: u32)
        requires
            old(self).wf(),
            factor > 0,
        ensures
            *final(self) == zoomed(*old(self), factor as int),
            final(self).wf(),
    {
        let d_lat = self.dim_deg[0] as i128;
        let d_lon = self.dim_deg[1] as i128;
        let l = d_lat * 1000 / factor as i128;
        let o = d_lon * 1000 / factor as i128;
        let min_lat = self.coo[0] as i128 + half_of(d_lat - l);
        let min_lon = self.coo[1] as i128 + half_of(d_lon - o);
        let max_lat = min_lat + l;
        let max_lon = min_lon + o;
        if -(LAT_LIMIT as i128) <= min_lat && min_lat <= max_lat && max_lat <= LAT_LIMIT as i128
            && -(LON_LIMIT as i128) <= min_lon && min_lon <= max_lon && max_lon
            <= LON_LIMIT as i128 {
            let mut b = make_box(min_lat as i64, min_lon as i64, max_lat as i64, max_lon as i64);
            b.resize();
            *self = b;
        }
    }

    /// Move the bounding box by a vector `[d_lat, d_lon]`, then normalize. The
    /// moved box must stay on the globe.
    pub fn translate(&mut self, vector: [i64; 2])
        requires
            old(self).wf(),
            in_world(
                old(self).coo[0] + vector[0],
                old(self).coo[1] + vector[1],
                old(self).coo[2] + vector[0],
                old(self).coo[3] + vector[1],
            ),
        ensures
            *final(self) == normalized(
                sized(
                    old(self).coo[0] + vector[0],
                    old(self).coo[1] + vector[1],
                    old(self).coo[2] + vector[0],
                    old(self).coo[3] + vector[1],
                ),
            ),
            final(self).wf(),
    {
        let mut b = make_box(
            self.coo[0] + vector[0],
            self.coo[1] + vector[1],
            self.coo[2] + vector[0],
            self.coo[3] + vector[1],
        );
        b.resize();
        *self = b;
    }
}

/// A squarable box normalizes to a well-formed square no taller than itself.
pub proof fn lemma_normalized_square(b: BoundingBox)
    requires
        b.wf(),
        squarable(b),
    ensures
        normalized(b).wf(),
        is_square(normalized(b)),
        0 <= normalized(b).dim_deg[0] <= b.dim_deg[0],
{
    let d_lat = b.dim_deg[0] as int;
    let d_lon = b.dim_deg[1] as int;
    lemma_cos_terms(d_lat);
    if lon_for(d_lat) > d_lon {
        lemma_lat_for_below(d_lat, d_lon);
    }
}

/// Normalization is idempotent: a normalized box normalizes to itself.
pub proof fn lemma_normalize_idempotent(b: BoundingBox)
    requires
        b.wf(),
    ensures
        normalized(normalized(b)) == normalized(b),
{
    if squarable(b) {
        lemma_normalized_square(b);
        let s = normalized(b);
        assert(squared_corners(s) == (s.coo[0] as int, s.coo[1] as int, s.coo[2] as int, s.coo[3] as int));
    }
}

/// A square box's two sides are equally long, up to less than the length of
/// one longitude unit.
pub proof fn lemma_square_sides_match(b: BoundingBox)
    requires
        b.wf(),
        is_square(b),
    ensures
        0 <= lat_length(b) - lon_length(b) < (M_PER_DEG_LON as int) * cos_model(b.dim_deg[0] as int),
{
    let d_lat = b.dim_deg[0] as int;
    lemma_cos_terms(d_lat);
    let den = (M_PER_DEG_LON as int) * cos_model(d_lat);
    let num = lat_length(b);
    lemma_fundamental_div_mod(num, den);
    lemma_mod_bound(num, den);
    assert(lon_length(b) == den * (num / den)) by (nonlinear_arith)
        requires
            den == (M_PER_DEG_LON as int) * cos_model(d_lat),
            b.dim_deg[1] == num / den,
            lon_length(b) == b.dim_deg[1] * (M_PER_DEG_LON as int) * cos_model(d_lat),
    ;
}

/// Zooming by any positive factor gives a square box, whose sides are equally
/// long up to less than one longitude unit, whenever the zoomed box can be
/// squared on the globe.
pub proof fn lemma_zoom_gives_square(b: BoundingBox, factor: int)
    requires
        b.wf(),
        factor > 0,
        ({
            let c = zoom_corners(b, factor);
            in_world(c.0, c.1, c.2, c.3) && squarable(sized(c.0, c.1, c.2, c.3))
        }),
    ensures
        is_square(zoomed(b, factor)),
        0 <= lat_length(zoomed(b, factor)) - lon_length(zoomed(b, factor)) < (M_PER_DEG_LON as int)
            * cos_model(zoomed(b, factor).dim_deg[0] as int),
{
    let c = zoom_corners(b, factor);
    let z = sized(c.0, c.1, c.2, c.3);
    assert(z.wf());
    lemma_normalized_square(z);
    lemma_square_sides_match(normalized(z));
}

/// A box under 90 degrees of latitude whose longitude side is the longer one
/// is squared inside itself:
/// its square keeps the latitude side and stays on the globe.
pub proof fn lemma_wide_box_squarable(b: BoundingBox)
    requires
        b.wf(),
        cos_model(b.dim_deg[0] as int) > 1,
        lon_for(b.dim_deg[0] as int) <= b.dim_deg[1],
    ensures
        squarable(b),
        normalized(b).dim_deg[0] == b.dim_deg[0],
        is_square(normalized(b)),
{
    let d_lat = b.dim_deg[0] as int;
    lemma_cos_terms(d_lat);
    vstd::arithmetic::div_mod::lemma_div_pos_is_pos(
        d_lat * (M_PER_DEG_LAT as int) * (UNIT as int),
        (M_PER_DEG_LON as int) * cos_model(d_lat),
    );
}

/// A zoom by `factor` thousandths divides the latitude span by the factor and
/// gives a square, when the zoomed box is under 90 degrees of latitude, its
/// longitude side is the longer one, and it stays on the globe.
pub proof fn lemma_zoom_scales_latitude(b: BoundingBox, factor: int)
    requires
        b.wf(),
        factor > 0,
        ({
            let c = zoom_corners(b, factor);
            let z = sized(c.0, c.1, c.2, c.3);
            &&& in_world(c.0, c.1, c.2, c.3)
            &&& cos_model(z.dim_deg[0] as int) > 1
            &&& lon_for(z.dim_deg[0] as int) <= z.dim_deg[1]
        }),
    ensures
        zoomed(b, factor).dim_deg[0] == b.dim_deg[0] * 1000 / factor,
        is_square(zoomed(b, factor)),
{
    let c = zoom_corners(b, factor);
    let z = sized(c.0, c.1, c.2, c.3);
    assert(z.wf());
    lemma_wide_box_squarable(z);
}

} // verus!
