//! The map data (nodes and ways) and the rasterizer that draws it on a grid.
use vstd::prelude::*;
use std::cmp::Ordering;
use std::collections::HashMap;
use crate::ascii_map::{grid_view, AsciiMap};
use crate::geo::{BoundingBox, LAT_LIMIT, LON_LIMIT};
use crate::records::{answer_records, element_view, element_views, elements_from_json};
use crate::style::{catalog_index, get_way_index, glyph, glyph_for_orientation, str_equal};

verus! {

/// A point of the map, in units of 1e-7 degree. Nodes made by interpolation
/// have id 0. `way_type` is the catalog index of the way the node belongs to.
#[derive(Clone, Copy, Debug, PartialEq, Eq)]
pub struct Node {
    pub id: u64,
    pub lat: i64,
    pub lon: i64,
    pub way_type: Option<usize>,
}

/// A node whose coordinates lie on the globe.
pub open spec fn on_globe(n: Node) -> bool {
    &&& -LAT_LIMIT <= n.lat <= LAT_LIMIT
    &&& -LON_LIMIT <= n.lon <= LON_LIMIT
}

/// Nodes that all lie on the globe.
pub open spec fn all_on_globe(s: Seq<Node>) -> bool {
    forall|i: int| 0 <= i < s.len() ==> on_globe(#[trigger] s[i])
}

/// A path of the map (a road, a river...): its nodes in order, and its tags.
/// Tags are key-value pairs as the map data lists them, one per key (a JSON
/// object holds one value per key); a lookup takes the first pair of a key.
#[derive(Debug)]
pub struct Way {
    pub id: u64,
    pub nodes: Vec<Node>,
    pub tags: Vec<(String, String)>,
}

/// The value of the first tag at or after `from` whose key is `key`.
pub open spec fn tag_value_from(tags: Seq<(String, String)>, key: Seq<char>, from: int) -> Option<
    Seq<char>,
>
    decreases tags.len() - from,
{
    if from < 0 || from >= tags.len() {
        None
    } else if tags[from].0@ == key {
        Some(tags[from].1@)
    } else {
        tag_value_from(tags, key, from + 1)
    }
}

/// The value of the first tag whose key is `key`.
pub open spec fn tag_value(tags: Seq<(String, String)>, key: Seq<char>) -> Option<Seq<char>> {
    tag_value_from(tags, key, 0)
}

/// The type of a way with these tags: its `highway` tag, else its `waterway`
/// tag.
pub open spec fn way_type_of(tags: Seq<(String, String)>) -> Option<Seq<char>> {
    match tag_value(tags, "highway"@) {
        Some(v) => Some(v),
        None => tag_value(tags, "waterway"@),
    }
}

/// The catalog index of a way with these tags.
pub open spec fn way_index_of(tags: Seq<(String, String)>) -> Option<usize> {
    match way_type_of(tags) {
        Some(v) => catalog_index(v),
        None => None,
    }
}

fn find_tag(tags: &Vec<(String, String)>, key: &str) -> (r: Option<String>)
    ensures
        match r {
            Some(v) => tag_value(tags@, key@) == Some(v@),
            None => tag_value(tags@, key@) is None,
        },
{
    let mut i: usize = 0;
    while i < tags.len()
        invariant
            i <= tags@.len(),
            tag_value(tags@, key@) == tag_value_from(tags@, key@, i as int),
        decreases tags@.len() - i,
    {
        if str_equal(tags[i].0.as_str(), key) {
            return Some(tags[i].1.clone());
        }
        i = i + 1;
    }
    None
}

/// A linear interpolation between `a` and `b` at `j / m`, rounded toward `a`.
pub open spec fn lerp(a: int, b: int, j: int, m: int) -> int {
    if b >= a {
        a + (b - a) * j / m
    } else {
        a - (a - b) * j / m
    }
}

/// The `j`-th of the nodes that split the segment from `a` to `b` in `m`
/// equal steps; it takes the way type of `a`.
pub open spec fn synth_node(a: Node, b: Node, j: int, m: int) -> Node {
    Node {
        id: 0,
        lat: lerp(a.lat as int, b.lat as int, j, m) as i64,
        lon: lerp(a.lon as int, b.lon as int, j, m) as i64,
        way_type: a.way_type,
    }
}

/// The node `s[i]` followed by the `n` nodes interpolated between it and
/// `s[i + 1]`.
pub open spec fn segment(s: Seq<Node>, i: int, n: nat) -> Seq<Node> {
    seq![s[i]] + Seq::new(n, |k: int| synth_node(s[i], s[i + 1], k + 1, (n + 1) as int))
}

/// The segments of the first `k` gaps of `s`.
pub open spec fn interp_prefix(s: Seq<Node>, k: int, n: nat) -> Seq<Node>
    decreases k,
{
    if k <= 0 {
        Seq::empty()
    } else {
        interp_prefix(s, k - 1, n) + segment(s, k - 1, n)
    }
}

/// The nodes `s` with `n` nodes interpolated in each gap between two of them.
pub open spec fn interpolated(s: Seq<Node>, n: nat) -> Seq<Node> {
    if s.len() <= 1 {
        s
    } else {
        interp_prefix(s, s.len() - 1, n).push(s.last())
    }
}

proof fn lemma_scaled_part(x: int, j: int, m: int)
    requires
        0 <= x,
        0 <= j <= m,
        0 < m,
    ensures
        0 <= x * j / m <= x,
{
    assert(0 <= x * j <= x * m) by (nonlinear_arith)
        requires
            0 <= x,
            0 <= j <= m,
    ;
    vstd::arithmetic::div_mod::lemma_div_is_ordered(x * j, x * m, m);
    vstd::arithmetic::div_mod::lemma_div_pos_is_pos(x * j, m);
    vstd::arithmetic::div_mod::lemma_div_by_multiple(x, m);
}

/// A linear interpolation stays between its ends.
proof fn lemma_lerp_between(a: int, b: int, j: int, m: int)
    requires
        0 <= j <= m,
        0 < m,
    ensures
        a <= b ==> a <= lerp(a, b, j, m) <= b,
        b < a ==> b <= lerp(a, b, j, m) <= a,
{
    if b >= a {
        lemma_scaled_part(b - a, j, m);
    } else {
        lemma_scaled_part(a - b, j, m);
    }
}

fn lerp_exec(a: i64, b: i64, j: u64, m: u64) -> (r: i64)
    requires
        -LON_LIMIT <= a <= LON_LIMIT,
        -LON_LIMIT <= b <= LON_LIMIT,
        j <= m,
        0 < m <= 0x1_0000_0000,
    ensures
        r == lerp(a as int, b as int, j as int, m as int),
{
    proof {
        lemma_lerp_between(a as int, b as int, j as int, m as int);
    }
    if b >= a {
        proof {
            lemma_scaled_part(b - a, j as int, m as int);
            assert((b - a) * j <= 3_600_000_000 * 0x1_0000_0000) by (nonlinear_arith)
                requires
                    0 <= b - a <= 3_600_000_000,
                    j <= 0x1_0000_0000,
            ;
        }
        (a as i128 + (b as i128 - a as i128) * j as i128 / m as i128) as i64
    } else {
        proof {
            lemma_scaled_part(a - b, j as int, m as int);
            assert((a - b) * j <= 3_600_000_000 * 0x1_0000_0000) by (nonlinear_arith)
                requires
                    0 <= a - b <= 3_600_000_000,
                    j <= 0x1_0000_0000,
            ;
        }
        (a as i128 - (a as i128 - b as i128) * j as i128 / m as i128) as i64
    }
}

/// The number of nodes after interpolation: `k + n * (k - 1)` for `k` nodes,
/// none added to a way of zero or one node.
pub proof fn lemma_interpolation_count(s: Seq<Node>, n: nat)
    ensures
        s.len() == 0 ==> interpolated(s, n).len() == 0,
        s.len() >= 1 ==> interpolated(s, n).len() == s.len() + n * (s.len() - 1),
{
    if s.len() > 1 {
        lemma_prefix_count(s, s.len() - 1, n);
        assert((s.len() - 1) * (n + 1) + 1 == s.len() + n * (s.len() - 1)) by (nonlinear_arith);
    } else if s.len() == 1 {
        assert(n * (s.len() - 1) == 0) by (nonlinear_arith)
            requires
                s.len() == 1,
        ;
    }
}

proof fn lemma_prefix_count(s: Seq<Node>, k: int, n: nat)
    requires
        0 <= k,
    ensures
        interp_prefix(s, k, n).len() == k * (n + 1),
    decreases k,
{
    if k > 0 {
        lemma_prefix_count(s, k - 1, n);
        assert(segment(s, k - 1, n).len() == n + 1);
        assert(interp_prefix(s, k, n) == interp_prefix(s, k - 1, n) + segment(s, k - 1, n));
        assert(interp_prefix(s, k, n).len() == interp_prefix(s, k - 1, n).len() + (n + 1));
        assert((k - 1) * (n + 1) + (n + 1) == k * (n + 1)) by (nonlinear_arith);
    } else {
        assert(k * (n + 1) == 0) by (nonlinear_arith)
            requires
                k == 0,
        ;
    }
}

/// Interpolated nodes lie on the globe when the nodes they join do.
proof fn lemma_interpolated_on_globe(s: Seq<Node>, n: nat)
    requires
        all_on_globe(s),
    ensures
        all_on_globe(interpolated(s, n)),
{
    if s.len() > 1 {
        lemma_prefix_on_globe(s, s.len() - 1, n);
    }
}

proof fn lemma_prefix_on_globe(s: Seq<Node>, k: int, n: nat)
    requires
        all_on_globe(s),
        0 <= k < s.len(),
    ensures
        all_on_globe(interp_prefix(s, k, n)),
    decreases k,
{
    if k > 0 {
        lemma_prefix_on_globe(s, k - 1, n);
        let seg = segment(s, k - 1, n);
        assert forall|i: int| 0 <= i < seg.len() implies on_globe(#[trigger] seg[i]) by {
            if i > 0 {
                let a = s[k - 1];
                let b = s[k];
                assert(on_globe(a) && on_globe(b));
                lemma_lerp_between(a.lat as int, b.lat as int, i, (n + 1) as int);
                lemma_lerp_between(a.lon as int, b.lon as int, i, (n + 1) as int);
            }
        }
        let p = interp_prefix(s, k - 1, n);
        assert(interp_prefix(s, k, n) == p + seg);
        assert forall|i: int| 0 <= i < p.len() + seg.len() implies on_globe(
            #[trigger] (p + seg)[i],
        ) by {
            if i < p.len() {
                assert((p + seg)[i] == p[i]);
            } else {
                assert((p + seg)[i] == seg[i - p.len()]);
            }
        }
    }
}

/// The order of two optional catalog indexes: none first, then by index.
pub open spec fn importance_order(a: Option<usize>, b: Option<usize>) -> Ordering {
    match (a, b) {
        (None, None) => Ordering::Equal,
        (None, Some(_)) => Ordering::Less,
        (Some(_), None) => Ordering::Greater,
        (Some(x), Some(y)) => if x == y {
            Ordering::Equal
        } else if x < y {
            Ordering::Less
        } else {
            Ordering::Greater
        },
    }
}

impl Way {
    /// Return the type of this way: its `highway` tag, else its `waterway` tag.
    pub fn way_type(&self) -> (r: Option<String>)
        ensures
            match r {
                Some(v) => way_type_of(self.tags@) == Some(v@),
                None => way_type_of(self.tags@) is None,
            },
    {
        match find_tag(&self.tags, "highway") {
            Some(v) => Some(v),
            None => find_tag(&self.tags, "waterway"),
        }
    }

    /// Return the catalog index of this way's type.
    pub fn way_index(&self) -> (r: Option<usize>)
        ensures
            r == way_index_of(self.tags@),
    {
        match self.way_type() {
            Some(v) => get_way_index(v.as_str()),
            None => None,
        }
    }

    /// Compare the importance of two ways by their catalog indexes: a smaller
    /// index is more important, and an untyped way comes before every typed
    /// one.
    pub fn compare(&self, other: &Way) -> (r: Result<Ordering, &'static str>)
        ensures
            r == Ok::<Ordering, &'static str>(
                importance_order(way_index_of(self.tags@), way_index_of(other.tags@)),
            ),
    {
        let a = self.way_index();
        let b = other.way_index();
        match (a, b) {
            (None, None) => Ok(Ordering::Equal),
            (None, Some(_)) => Ok(Ordering::Less),
            (Some(_), None) => Ok(Ordering::Greater),
            (Some(x), Some(y)) => {
                if x == y {
                    Ok(Ordering::Equal)
                } else if x < y {
                    Ok(Ordering::Less)
                } else {
                    Ok(Ordering::Greater)
                }
            },
        }
    }

    /// Append a node to this way.
    pub fn add_node(&mut self, node: Node)
        ensures
            final(self).nodes@ == old(self).nodes@.push(node),
            final(self).id == old(self).id,
            final(self).tags == old(self).tags,
    {
        self.nodes.push(node);
    }

    /// Insert `n` nodes, evenly spaced, between each two consecutive nodes of
    /// this way, so that the way is drawn without gaps. The nodes are taken to
    /// be in path order.
    pub fn interpolate_nodes(&mut self, n: u32)
        requires
            all_on_globe(old(self).nodes@),
        ensures
            final(self).nodes@ == interpolated(old(self).nodes@, n as nat),
            all_on_globe(final(self).nodes@),
            final(self).id == old(self).id,
            final(self).tags == old(self).tags,
    {
        proof {
            lemma_interpolated_on_globe(self.nodes@, n as nat);
        }
        let len = self.nodes.len();
        if len <= 1 {
            return;
        }
        let ghost s = self.nodes@;
        let m: u64 = n as u64 + 1;
        let mut out: Vec<Node> = Vec::new();
        let mut i: usize = 0;
        while i < len - 1
            invariant
                len == s.len(),
                len > 1,
                s == self.nodes@,
                all_on_globe(s),
                m == n + 1,
                i <= len - 1,
                out@ == interp_prefix(s, i as int, n as nat),
            decreases len - 1 - i,
        {
            let a = self.nodes[i];
            let b = self.nodes[i + 1];
            assert(on_globe(s[i as int]) && on_globe(s[i + 1]));
            let ghost before = out@;
            out.push(a);
            let mut k: u32 = 0;
            while k < n
                invariant
                    a == s[i as int],
                    b == s[i + 1],
                    on_globe(a),
                    on_globe(b),
                    m == n + 1,
                    k <= n,
                    out@ == before + seq![a] + Seq::new(
                        k as nat,
                        |j: int| synth_node(a, b, j + 1, n + 1),
                    ),
                decreases n - k,
            {
                let lat = lerp_exec(a.lat, b.lat, k as u64 + 1, m);
                let lon = lerp_exec(a.lon, b.lon, k as u64 + 1, m);
                out.push(Node { id: 0, lat, lon, way_type: a.way_type });
                assert(Seq::new((k + 1) as nat, |j: int| synth_node(a, b, j + 1, n + 1))
                    =~= Seq::new(k as nat, |j: int| synth_node(a, b, j + 1, n + 1)).push(
                    synth_node(a, b, k + 1, n + 1),
                ));
                k = k + 1;
            }
            assert(out@ =~= interp_prefix(s, i + 1, n as nat));
            i = i + 1;
        }
        out.push(self.nodes[len - 1]);
        self.nodes = out;
    }
}

/// Orientation of a direction `(d_lat, d_lon)`, bucketed as `orientation_index`
/// buckets angles: horizontal under 22.5 degrees from east-west (slope under
/// sqrt(2) - 1), vertical from 67.5 degrees (slope from sqrt(2) + 1), else
/// rising or falling diagonal. The null direction counts as horizontal.
pub open spec fn vector_orientation(d_lat: int, d_lon: int) -> int {
    let a = if d_lat >= 0 { d_lat } else { -d_lat };
    let o = if d_lon >= 0 { d_lon } else { -d_lon };
    if a == 0 && o == 0 {
        0
    } else if (a + o) * (a + o) < 2 * o * o {
        0
    } else if a > o && (a - o) * (a - o) >= 2 * o * o {
        2
    } else if (d_lat > 0) == (d_lon > 0) {
        1
    } else {
        3
    }
}

/// Orientation of the `i`-th node of a way: from its previous node to its next
/// one, or from the one neighbour it has; a node alone is horizontal.
pub open spec fn node_orientation(s: Seq<Node>, i: int) -> int {
    let has_prev = i > 0;
    let has_next = i + 1 < s.len();
    if has_prev && has_next {
        vector_orientation(s[i + 1].lat - s[i - 1].lat, s[i + 1].lon - s[i - 1].lon)
    } else if has_prev {
        vector_orientation(s[i].lat - s[i - 1].lat, s[i].lon - s[i - 1].lon)
    } else if has_next {
        vector_orientation(s[i + 1].lat - s[i].lat, s[i + 1].lon - s[i].lon)
    } else {
        0
    }
}

/// The glyph that draws the `i`-th node of a way: blank for an untyped node.
pub open spec fn node_glyph(s: Seq<Node>, i: int) -> Seq<char> {
    match s[i].way_type {
        Some(t) => glyph(t as int, node_orientation(s, i)),
        None => " "@,
    }
}

/// The orientation of a direction whose components lie within two turns.
pub fn orientation_of_vector(d_lat: i64, d_lon: i64) -> (r: usize)
    requires
        -2 * LON_LIMIT <= d_lat <= 2 * LON_LIMIT,
        -2 * LON_LIMIT <= d_lon <= 2 * LON_LIMIT,
    ensures
        r == vector_orientation(d_lat as int, d_lon as int),
        r < 4,
{
    let a: i128 = if d_lat >= 0 { d_lat as i128 } else { -(d_lat as i128) };
    let o: i128 = if d_lon >= 0 { d_lon as i128 } else { -(d_lon as i128) };
    proof {
        assert(0 <= (a + o) * (a + o) <= 8_000_000_000 * 8_000_000_000) by (nonlinear_arith)
            requires
                0 <= a <= 4_000_000_000,
                0 <= o <= 4_000_000_000,
        ;
        assert(0 <= 2 * o * o <= 2 * 4_000_000_000 * 4_000_000_000) by (nonlinear_arith)
            requires
                0 <= o <= 4_000_000_000,
        ;
        assert(0 <= (a - o) * (a - o) <= 8_000_000_000 * 8_000_000_000) by (nonlinear_arith)
            requires
                0 <= a <= 4_000_000_000,
                0 <= o <= 4_000_000_000,
        ;
    }
    if a == 0 && o == 0 {
        0
    } else if (a + o) * (a + o) < 2 * o * o {
        0
    } else if a > o && (a - o) * (a - o) >= 2 * o * o {
        2
    } else if (d_lat > 0) == (d_lon > 0) {
        1
    } else {
        3
    }
}

/// Return the glyph that draws the `i`-th node of `nodes`.
pub fn node_glyph_exec(nodes: &Vec<Node>, i: usize) -> (r: String)
    requires
        i < nodes@.len(),
        all_on_globe(nodes@),
    ensures
        r@ == node_glyph(nodes@, i as int),
{
    match nodes[i].way_type {
        None => String::from_str(" "),
        Some(t) => {
            let len = nodes.len();
            let ghost s = nodes@;
            let orientation = if i > 0 && i + 1 < len {
                assert(on_globe(s[i - 1]) && on_globe(s[i + 1]));
                orientation_of_vector(nodes[i + 1].lat - nodes[i - 1].lat, nodes[i + 1].lon - nodes[i - 1].lon)
            } else if i > 0 {
                assert(on_globe(s[i - 1]) && on_globe(s[i as int]));
                orientation_of_vector(nodes[i].lat - nodes[i - 1].lat, nodes[i].lon - nodes[i - 1].lon)
            } else if i + 1 < len {
                assert(on_globe(s[i + 1]) && on_globe(s[i as int]));
                orientation_of_vector(nodes[i + 1].lat - nodes[i].lat, nodes[i + 1].lon - nodes[i].lon)
            } else {
                0
            };
            glyph_for_orientation(t, orientation)
        },
    }
}

/// The grid cell `(row, col)` of a `size` by `size` grid over the box where a
/// point falls: rows go north from the box's south edge, columns east from its
/// west edge. A point outside the box, or on its north or east edge, falls in
/// no cell, nor does any point of a box without area.
pub open spec fn project(b: BoundingBox, size: int, lat: int, lon: int) -> Option<(int, int)> {
    let rel_lat = lat - b.coo[0];
    let rel_lon = lon - b.coo[1];
    if rel_lat < 0 || rel_lon < 0 || rel_lat > b.dim_deg[0] || rel_lon > b.dim_deg[1]
        || b.dim_deg[0] == 0 || b.dim_deg[1] == 0 {
        None
    } else {
        let row = rel_lat * size / (b.dim_deg[0] as int);
        let col = rel_lon * size / (b.dim_deg[1] as int);
        if row >= size || col >= size {
            None
        } else {
            Some((row, col))
        }
    }
}

/// The cell of the grid where a node of the globe falls, if any.
pub fn project_node(b: &BoundingBox, size: u16, lat: i64, lon: i64) -> (r: Option<(usize, usize)>)
    requires
        b.wf(),
        -LAT_LIMIT <= lat <= LAT_LIMIT,
        -LON_LIMIT <= lon <= LON_LIMIT,
    ensures
        match project(*b, size as int, lat as int, lon as int) {
            Some((row, col)) => r == Some((row as usize, col as usize)) && row < size && col < size,
            None => r is None,
        },
{
    let rel_lat = lat - b.coo[0];
    let rel_lon = lon - b.coo[1];
    if rel_lat < 0 || rel_lon < 0 || rel_lat > b.dim_deg[0] || rel_lon > b.dim_deg[1]
        || b.dim_deg[0] == 0 || b.dim_deg[1] == 0 {
        return None;
    }
    proof {
        assert(0 <= rel_lat * size <= 3_600_000_000 * 65536) by (nonlinear_arith)
            requires
                0 <= rel_lat <= 3_600_000_000,
                0 <= size <= 65536,
        ;
        assert(0 <= rel_lon * size <= 3_600_000_000 * 65536) by (nonlinear_arith)
            requires
                0 <= rel_lon <= 3_600_000_000,
                0 <= size <= 65536,
        ;
        vstd::arithmetic::div_mod::lemma_div_pos_is_pos(rel_lat * size, b.dim_deg[0] as int);
        vstd::arithmetic::div_mod::lemma_div_pos_is_pos(rel_lon * size, b.dim_deg[1] as int);
    }
    let row: i128 = rel_lat as i128 * size as i128 / b.dim_deg[0] as i128;
    let col: i128 = rel_lon as i128 * size as i128 / b.dim_deg[1] as i128;
    if row >= size as i128 || col >= size as i128 {
        None
    } else {
        Some((row as usize, col as usize))
    }
}

/// Projection keeps the south-west corner and leaves out the north-east one:
/// the box is half-open on the grid.
pub proof fn lemma_projection_edges(b: BoundingBox, size: int)
    requires
        b.wf(),
        size > 0,
        b.dim_deg[0] > 0,
        b.dim_deg[1] > 0,
    ensures
        project(b, size, b.coo[0] as int, b.coo[1] as int) == Some((0int, 0int)),
        project(b, size, b.coo[2] as int, b.coo[3] as int) is None,
{
    assert(0int * size == 0) by (nonlinear_arith);
    assert((b.dim_deg[0] as int) * size / (b.dim_deg[0] as int) == size) by {
        vstd::arithmetic::div_mod::lemma_div_by_multiple(size, b.dim_deg[0] as int);
        assert((b.dim_deg[0] as int) * size == size * (b.dim_deg[0] as int)) by (nonlinear_arith);
    }
}

/// The glyph of the last of the first `k` nodes of `s` that falls in cell
/// `(row, col)`, if any falls there.
pub open spec fn way_mark(s: Seq<Node>, k: int, b: BoundingBox, size: int, row: int, col: int) -> Option<
    Seq<char>,
>
    decreases k,
{
    if k <= 0 {
        None
    } else if project(b, size, s[k - 1].lat as int, s[k - 1].lon as int) == Some((row, col)) {
        Some(node_glyph(s, k - 1))
    } else {
        way_mark(s, k - 1, b, size, row, col)
    }
}

/// The glyph of the last node of the first `w` ways that falls in cell
/// `(row, col)`, ways drawn in order and the nodes of each in order.
pub open spec fn ways_mark(
    ws: Seq<Seq<Node>>,
    w: int,
    b: BoundingBox,
    size: int,
    row: int,
    col: int,
) -> Option<Seq<char>>
    decreases w,
{
    if w <= 0 {
        None
    } else {
        match way_mark(ws[w - 1], ws[w - 1].len() as int, b, size, row, col) {
            Some(g) => Some(g),
            None => ways_mark(ws, w - 1, b, size, row, col),
        }
    }
}

/// A mark, or the blank background where there is none.
pub open spec fn or_blank(m: Option<Seq<char>>) -> Seq<char> {
    match m {
        Some(g) => g,
        None => " "@,
    }
}

/// The glyph of cell `(row, col)` once every way is drawn: the last node drawn
/// there wins, and a cell no node falls in keeps the blank background.
pub open spec fn cell_glyph(ws: Seq<Seq<Node>>, b: BoundingBox, size: int, row: int, col: int) -> Seq<
    char,
> {
    or_blank(ways_mark(ws, ws.len() as int, b, size, row, col))
}

/// The nodes of each way.
pub open spec fn ways_nodes(ws: Seq<Way>) -> Seq<Seq<Node>> {
    ws.map_values(|w: Way| w.nodes@)
}

/// The text of cell `(row, col)` of a grid.
pub open spec fn grid_cell(g: Seq<Vec<String>>, row: int, col: int) -> Seq<char> {
    g[row]@[col]@
}

/// A grid of `h` rows of `h` cells.
pub open spec fn square_grid(g: Seq<Vec<String>>, h: int) -> bool {
    &&& g.len() == h
    &&& forall|row: int| 0 <= row < h ==> (#[trigger] g[row])@.len() == h
}

/// A `size` by `size` grid of blank cells.
fn blank_grid(size: usize) -> (r: Vec<Vec<String>>)
    ensures
        square_grid(r@, size as int),
        forall|row: int, col: int|
            0 <= row < size && 0 <= col < size ==> #[trigger] grid_cell(r@, row, col) == " "@,
{
    let mut data: Vec<Vec<String>> = Vec::new();
    let mut i: usize = 0;
    while i < size
        invariant
            i <= size,
            data@.len() == i,
            forall|row: int| 0 <= row < i ==> (#[trigger] data@[row])@.len() == size,
            forall|row: int, col: int|
                0 <= row < i && 0 <= col < size ==> #[trigger] grid_cell(data@, row, col) == " "@,
        decreases size - i,
    {
        let mut line: Vec<String> = Vec::new();
        let mut j: usize = 0;
        while j < size
            invariant
                j <= size,
                line@.len() == j,
                forall|col: int| 0 <= col < j ==> (#[trigger] line@[col])@ == " "@,
            decreases size - j,
        {
            line.push(String::from_str(" "));
            j = j + 1;
        }
        let ghost before = data@;
        data.push(line);
        assert forall|row: int, col: int|
            0 <= row < i + 1 && 0 <= col < size implies #[trigger] grid_cell(data@, row, col)
            == " "@ by {
            if row < i {
                assert(data@[row] == before[row]);
                assert(grid_cell(data@, row, col) == grid_cell(before, row, col));
            } else {
                assert(data@[row]@ == line@);
            }
        }
        i = i + 1;
    }
    data
}

/// Draw every node of the ways on a `size` by `size` grid over the box.
pub fn draw_ways(ways: &Vec<Way>, b: &BoundingBox, size: u16) -> (r: Vec<Vec<String>>)
    requires
        b.wf(),
        forall|w: int| 0 <= w < ways@.len() ==> all_on_globe(#[trigger] ways@[w].nodes@),
    ensures
        square_grid(r@, size as int),
        forall|row: int, col: int|
            0 <= row < size && 0 <= col < size ==> #[trigger] grid_cell(r@, row, col) == cell_glyph(
                ways_nodes(ways@),
                *b,
                size as int,
                row,
                col,
            ),
{
    let ghost ws = ways_nodes(ways@);
    let h = size as usize;
    let mut data = blank_grid(h);
    let mut w: usize = 0;
    while w < ways.len()
        invariant
            w <= ways@.len(),
            ws == ways_nodes(ways@),
            b.wf(),
            h == size,
            forall|v: int| 0 <= v < ways@.len() ==> all_on_globe(#[trigger] ways@[v].nodes@),
            square_grid(data@, h as int),
            forall|row: int, col: int|
                0 <= row < h && 0 <= col < h ==> #[trigger] grid_cell(data@, row, col) == or_blank(
                    ways_mark(ws, w as int, *b, h as int, row, col),
                ),
        decreases ways@.len() - w,
    {
        let nodes = &ways[w].nodes;
        assert(all_on_globe(ways@[w as int].nodes@));
        assert(ws[w as int] == nodes@);
        let mut i: usize = 0;
        while i < nodes.len()
            invariant
                i <= nodes@.len(),
                w < ways@.len(),
                ws == ways_nodes(ways@),
                ws[w as int] == nodes@,
                all_on_globe(nodes@),
                b.wf(),
                h == size,
                square_grid(data@, h as int),
                forall|row: int, col: int|
                    0 <= row < h && 0 <= col < h ==> #[trigger] grid_cell(data@, row, col) == match way_mark(
                        nodes@,
                        i as int,
                        *b,
                        h as int,
                        row,
                        col,
                    ) {
                        Some(g) => g,
                        None => or_blank(ways_mark(ws, w as int, *b, h as int, row, col)),
                    },
            decreases nodes@.len() - i,
        {
            assert(on_globe(nodes@[i as int]));
            match project_node(b, size, nodes[i].lat, nodes[i].lon) {
                Some((r, c)) => {
                    let g = node_glyph_exec(nodes, i);
                    let ghost before = data@;
                    assert(before[r as int]@.len() == h);
                    data[r][c] = g;
                    assert forall|row: int, col: int|
                        0 <= row < h && 0 <= col < h implies #[trigger] grid_cell(data@, row, col)
                        == match way_mark(nodes@, i + 1, *b, h as int, row, col) {
                        Some(g) => g,
                        None => or_blank(ways_mark(ws, w as int, *b, h as int, row, col)),
                    } by {
                        if row != r || col != c {
                            assert(grid_cell(data@, row, col) == grid_cell(before, row, col));
                        }
                    }
                    assert forall|row: int| 0 <= row < h implies (#[trigger] data@[row])@.len() == h by {
                        assert(before[row]@.len() == h);
                    }
                },
                None => {},
            }
            i = i + 1;
        }
        assert(nodes@.len() == ws[w as int].len());
        w = w + 1;
    }
    data
}

/// A record of the map data: a node, or a way with its tags and the ids of its
/// member nodes in path order.
#[derive(Debug)]
pub enum Element {
    Node { id: u64, lat: i64, lon: i64 },
    Way { id: u64, tags: Vec<(String, String)>, node_ids: Vec<u64> },
}

/// Records whose nodes all lie on the globe.
pub open spec fn elements_on_globe(es: Seq<Element>) -> bool {
    forall|k: int|
        0 <= k < es.len() ==> match #[trigger] es[k] {
            Element::Node { id, lat, lon } => -LAT_LIMIT <= lat <= LAT_LIMIT && -LON_LIMIT <= lon
                <= LON_LIMIT,
            Element::Way { .. } => true,
        }
}

/// The nodes a way claims through its first `k` member ids from the nodes
/// not claimed yet, each given the way's type, and the nodes left unclaimed.
/// An id not among them is skipped.
pub open spec fn claim(ids: Seq<u64>, k: int, pending: Map<u64, Node>, way_type: Option<usize>) -> (
    Seq<Node>,
    Map<u64, Node>,
)
    decreases k,
{
    if k <= 0 {
        (Seq::empty(), pending)
    } else {
        let (ns, p) = claim(ids, k - 1, pending, way_type);
        let id = ids[k - 1];
        if p.contains_key(id) {
            (ns.push(Node { way_type: way_type, ..p[id] }), p.remove(id))
        } else {
            (ns, p)
        }
    }
}

/// A way as the records give it: id, nodes, tags.
pub type WayModel = (u64, Seq<Node>, Seq<(String, String)>);

/// The ways built from the first `k` records, each interpolated with `n`
/// nodes per gap, and the nodes no way has claimed so far. A node record
/// replaces an unclaimed node of the same id.
pub open spec fn parse_prefix(es: Seq<Element>, k: int, n: nat) -> (Seq<WayModel>, Map<u64, Node>)
    decreases k,
{
    if k <= 0 {
        (Seq::empty(), Map::empty())
    } else {
        let (ws, p) = parse_prefix(es, k - 1, n);
        match es[k - 1] {
            Element::Node { id, lat, lon } => (
                ws,
                p.insert(id, Node { id: id, lat: lat, lon: lon, way_type: None }),
            ),
            Element::Way { id, tags, node_ids } => {
                let (ns, p2) = claim(node_ids@, node_ids@.len() as int, p, way_index_of(tags@));
                (ws.push((id, interpolated(ns, n), tags@)), p2)
            },
        }
    }
}

/// The nodes left unclaimed once the first `k` records are walked again, in
/// the order of their first record, each once.
pub open spec fn lone_prefix(es: Seq<Element>, k: int, rest: Map<u64, Node>) -> (Seq<Node>, Map<u64, Node>)
    decreases k,
{
    if k <= 0 {
        (Seq::empty(), rest)
    } else {
        let (ls, r) = lone_prefix(es, k - 1, rest);
        match es[k - 1] {
            Element::Node { id, .. } => if r.contains_key(id) {
                (ls.push(r[id]), r.remove(id))
            } else {
                (ls, r)
            },
            Element::Way { .. } => (ls, r),
        }
    }
}

/// Each way as id, nodes and tags.
pub open spec fn ways_model(ws: Seq<Way>) -> Seq<WayModel> {
    ws.map_values(|w: Way| (w.id, w.nodes@, w.tags@))
}

/// Nodes that all lie on the globe.
pub open spec fn map_on_globe(p: Map<u64, Node>) -> bool {
    forall|id: u64| p.contains_key(id) ==> on_globe(#[trigger] p[id])
}

fn clone_tags(tags: &Vec<(String, String)>) -> (r: Vec<(String, String)>)
    ensures
        r@ == tags@,
{
    let mut out: Vec<(String, String)> = Vec::new();
    let mut i: usize = 0;
    while i < tags.len()
        invariant
            i <= tags@.len(),
            out@ == tags@.subrange(0, i as int),
        decreases tags@.len() - i,
    {
        let k = tags[i].0.clone();
        let v = tags[i].1.clone();
        out.push((k, v));
        assert(out@ =~= tags@.subrange(0, i + 1));
        i = i + 1;
    }
    assert(out@ =~= tags@);
    out
}

/// The ways and lone nodes of `g` are those that the records `es` give for
/// its display height.
pub open spec fn built_from(g: MapGenerator, es: Seq<Element>) -> bool {
    let (ws, pending) = parse_prefix(es, es.len() as int, g.display_height as nat);
    &&& ways_model(g.ways@) == ws
    &&& g.lone_nodes@ == lone_prefix(es, es.len() as int, pending).0
}

/// Display height of a map built from JSON, before it is set otherwise.
pub const DEFAULT_DISPLAY_HEIGHT: u16 = 60;

/// The map data and the display it is drawn for.
pub struct MapGenerator {
    pub display_box: BoundingBox,
    pub ways: Vec<Way>,
    pub lone_nodes: Vec<Node>,
    pub display_height: u16,
}

impl MapGenerator {
    /// A box with its fields in agreement, and ways whose nodes lie on the globe.
    pub open spec fn wf(&self) -> bool {
        &&& self.display_box.wf()
        &&& forall|w: int| 0 <= w < self.ways@.len() ==> all_on_globe(#[trigger] self.ways@[w].nodes@)
    }

    /// Build the map data from records for a display of `display_height` rows:
    /// each way claims its member nodes from the node records before it (a node
    /// belongs to one way at most), is typed by its tags, and is interpolated
    /// with `display_height` nodes per gap. Nodes that no way claims are kept
    /// apart as lone nodes.
    pub fn from_elements(elements: &Vec<Element>, display_box: BoundingBox, display_height: u16) -> (r:
        MapGenerator)
        requires
            display_box.wf(),
            elements_on_globe(elements@),
        ensures
            r.wf(),
            r.display_box == display_box,
            r.display_height == display_height,
            built_from(r, elements@),
    {
        broadcast use vstd::std_specs::hash::group_hash_axioms;

        let ghost es = elements@;
        let ghost n = display_height as nat;
        let mut pending: HashMap<u64, Node> = HashMap::new();
        let mut ways: Vec<Way> = Vec::new();
        let mut k: usize = 0;
        while k < elements.len()
            invariant
                k <= es.len(),
                es == elements@,
                n == display_height,
                elements_on_globe(es),
                map_on_globe(pending@),
                forall|w: int| 0 <= w < ways@.len() ==> all_on_globe(#[trigger] ways@[w].nodes@),
                (ways_model(ways@), pending@) == parse_prefix(es, k as int, n),
            decreases es.len() - k,
        {
            assert(parse_prefix(es, k + 1, n) == {
                let (ws, p) = parse_prefix(es, k as int, n);
                match es[k as int] {
                    Element::Node { id, lat, lon } => (
                        ws,
                        p.insert(id, Node { id: id, lat: lat, lon: lon, way_type: None }),
                    ),
                    Element::Way { id, tags, node_ids } => {
                        let (ns, p2) = claim(node_ids@, node_ids@.len() as int, p, way_index_of(tags@));
                        (ws.push((id, interpolated(ns, n), tags@)), p2)
                    },
                }
            });
            match &elements[k] {
                Element::Node { id, lat, lon } => {
                    assert(elements_on_globe(es) ==> match es[k as int] {
                        Element::Node { id, lat, lon } => -LAT_LIMIT <= lat <= LAT_LIMIT && -LON_LIMIT <= lon <= LON_LIMIT,
                        Element::Way { .. } => true,
                    });
                    pending.insert(*id, Node { id: *id, lat: *lat, lon: *lon, way_type: None });
                },
                Element::Way { id, tags, node_ids } => {
                    let mut way = Way { id: *id, nodes: Vec::new(), tags: clone_tags(tags) };
                    let way_type = way.way_index();
                    let ghost p0 = pending@;
                    let mut j: usize = 0;
                    while j < node_ids.len()
                        invariant
                            j <= node_ids@.len(),
                            map_on_globe(pending@),
                            all_on_globe(way.nodes@),
                            way.id == *id,
                            way.tags@ == tags@,
                            way_type == way_index_of(tags@),
                            (way.nodes@, pending@) == claim(node_ids@, j as int, p0, way_type),
                        decreases node_ids@.len() - j,
                    {
                        let nid = node_ids[j];
                        match pending.remove(&nid) {
                            Some(node) => {
                                let mut node = node;
                                node.way_type = way_type;
                                way.add_node(node);
                                assert(pending@ =~= claim(node_ids@, j + 1, p0, way_type).1);
                            },
                            None => {},
                        }
                        j = j + 1;
                    }
                    way.interpolate_nodes(display_height as u32);
                    let ghost before = ways@;
                    ways.push(way);
                    assert(ways_model(ways@) =~= ways_model(before).push(
                        (*id, interpolated(claim(node_ids@, node_ids@.len() as int, p0, way_type).0, n), tags@),
                    ));
                    assert forall|w: int| 0 <= w < ways@.len() implies all_on_globe(
                        #[trigger] ways@[w].nodes@,
                    ) by {
                        if w < before.len() {
                            assert(ways@[w] == before[w]);
                        }
                    }
                },
            }
            k = k + 1;
        }
        let ghost pending_end = pending@;
        let mut lone_nodes: Vec<Node> = Vec::new();
        let mut k: usize = 0;
        while k < elements.len()
            invariant
                k <= es.len(),
                es == elements@,
                (lone_nodes@, pending@) == lone_prefix(es, k as int, pending_end),
            decreases es.len() - k,
        {
            match &elements[k] {
                Element::Node { id, .. } => {
                    match pending.remove(id) {
                        Some(node) => {
                            lone_nodes.push(node);
                            assert(pending@ =~= lone_prefix(es, k + 1, pending_end).1);
                        },
                        None => {},
                    }
                },
                Element::Way { .. } => {},
            }
            k = k + 1;
        }
        MapGenerator { display_box, ways, lone_nodes, display_height }
    }

    /// Take the JSON answer of the map-data service and build the map data from
    /// its records (see `elements_from_json`), for a display of
    /// `DEFAULT_DISPLAY_HEIGHT` rows; `None` where the answer cannot be read.
    pub fn from(data: String, display_box: BoundingBox) -> (r: Option<MapGenerator>)
        requires
            display_box.wf(),
        ensures
            match answer_records(data@) {
                Some(rs) => r matches Some(g) && {
                    &&& g.wf()
                    &&& g.display_box == display_box
                    &&& g.display_height == DEFAULT_DISPLAY_HEIGHT
                    &&& exists|es: Seq<Element>| element_views(es) == rs && built_from(g, es)
                },
                None => r is None,
            },
    {
        match elements_from_json(data.as_str()) {
            Some(elements) => {
                let g = MapGenerator::from_elements(&elements, display_box, DEFAULT_DISPLAY_HEIGHT);
                assert(built_from(g, elements@));
                Some(g)
            },
            None => None,
        }
    }

    /// Set the size of the displayed map, in cells.
    pub fn set_size(&mut self, size: u16)
        ensures
            final(self).display_height == size,
            final(self).display_box == old(self).display_box,
            final(self).ways@ == old(self).ways@,
            final(self).lone_nodes@ == old(self).lone_nodes@,
    {
        self.display_height = size;
    }

    /// Draw the ways on a grid of `display_height` rows of `display_height`
    /// cells, each cell then doubled in width.
    pub fn generate_ascii_map(&self) -> (r: AsciiMap)
        requires
            self.wf(),
        ensures
            r.wf(),
            r.height == self.display_height,
            r.width == 2 * self.display_height,
            forall|x: int, y: int|
                0 <= x < self.display_height && 0 <= y < 2 * self.display_height ==> #[trigger] r.cells()[x][y]
                    == cell_glyph(
                    ways_nodes(self.ways@),
                    self.display_box,
                    self.display_height as int,
                    x,
                    y / 2,
                ),
    {
        let h = self.display_height;
        let data = draw_ways(&self.ways, &self.display_box, h);
        let ghost d = data@;
        let mut ascii_map = AsciiMap::from(data);
        proof {
            if h > 0 {
                assert(d[0]@.len() == h);
            }
            assert forall|x: int| 0 <= x < h implies (#[trigger] ascii_map.cells()[x]).len() == h by {
                assert(ascii_map.cells()[x] == grid_view(d)[x]);
                assert(d[x]@.len() == h);
            }
            assert forall|x: int, y: int| 0 <= x < h && 0 <= y < h implies #[trigger] ascii_map.cells()[x][y]
                == cell_glyph(ways_nodes(self.ways@), self.display_box, h as int, x, y) by {
                assert(ascii_map.cells()[x] == grid_view(d)[x]);
                assert(grid_cell(d, x, y) == d[x]@[y]@);
            }
        }
        ascii_map.double();
        ascii_map
    }
}

/// Lone nodes are never drawn: two map data with the same ways on the same
/// box draw the same grid, whatever lone nodes either holds.
pub proof fn lemma_lone_nodes_not_drawn(a: MapGenerator, b: MapGenerator, x: int, y: int)
    requires
        ways_model(a.ways@) == ways_model(b.ways@),
        a.display_box == b.display_box,
        a.display_height == b.display_height,
    ensures
        cell_glyph(ways_nodes(a.ways@), a.display_box, a.display_height as int, x, y) == cell_glyph(
            ways_nodes(b.ways@),
            b.display_box,
            b.display_height as int,
            x,
            y,
        ),
{
    assert(ways_model(a.ways@).len() == a.ways@.len());
    assert(ways_model(b.ways@).len() == b.ways@.len());
    assert forall|w: int| 0 <= w < a.ways@.len() implies #[trigger] ways_nodes(a.ways@)[w] == ways_nodes(
        b.ways@,
    )[w] by {
        assert(ways_model(a.ways@)[w] == ways_model(b.ways@)[w]);
        assert(ways_model(a.ways@)[w].1 == a.ways@[w].nodes@);
        assert(ways_model(b.ways@)[w].1 == b.ways@[w].nodes@);
    }
    assert(ways_nodes(a.ways@) =~= ways_nodes(b.ways@));
}

/// Two sets of unclaimed nodes that agree on every id but `id`.
pub open spec fn agree_except(a: Map<u64, Node>, b: Map<u64, Node>, id: u64) -> bool {
    a.remove(id) == b.remove(id)
}

/// Whether no way record among `es` lists `id` as a member.
pub open spec fn unreferenced(es: Seq<Element>, id: u64) -> bool {
    forall|j: int|
        0 <= j < es.len() ==> match #[trigger] es[j] {
            Element::Way { node_ids, .. } => !node_ids@.contains(id),
            Element::Node { .. } => true,
        }
}

proof fn lemma_agree_lookup(a: Map<u64, Node>, b: Map<u64, Node>, id: u64, key: u64)
    requires
        agree_except(a, b, id),
        key != id,
    ensures
        a.contains_key(key) == b.contains_key(key),
        a.contains_key(key) ==> a[key] == b[key],
{
    assert(a.remove(id).contains_key(key) == a.contains_key(key));
    assert(b.remove(id).contains_key(key) == b.contains_key(key));
    if a.contains_key(key) {
        assert(a.remove(id)[key] == a[key]);
        assert(b.remove(id)[key] == b[key]);
    }
}

proof fn lemma_claim_agrees(ids: Seq<u64>, k: int, a: Map<u64, Node>, b: Map<u64, Node>, id: u64, wt: Option<usize>)
    requires
        agree_except(a, b, id),
        !ids.contains(id),
        k <= ids.len(),
    ensures
        claim(ids, k, a, wt).0 == claim(ids, k, b, wt).0,
        agree_except(claim(ids, k, a, wt).1, claim(ids, k, b, wt).1, id),
    decreases k,
{
    if k > 0 {
        lemma_claim_agrees(ids, k - 1, a, b, id, wt);
        let (_, qa) = claim(ids, k - 1, a, wt);
        let (_, qb) = claim(ids, k - 1, b, wt);
        let key = ids[k - 1];
        assert(key != id);
        lemma_agree_lookup(qa, qb, id, key);
        if qa.contains_key(key) {
            assert(qa.remove(key).remove(id) =~= qa.remove(id).remove(key));
            assert(qb.remove(key).remove(id) =~= qb.remove(id).remove(key));
        }
    }
}

/// A node record that no way record lists never reaches a way, wherever it
/// stands among the records and whatever its coordinates: the ways built
/// with it are those built without it, so the drawn grid is the same.
pub proof fn lemma_unreferenced_node_not_in_ways(es: Seq<Element>, k: int, extra: Element, n: nat)
    requires
        0 <= k <= es.len(),
        extra matches Element::Node { id, .. } && unreferenced(es, id),
    ensures
        parse_prefix(es.insert(k, extra), (es.len() + 1) as int, n).0 == parse_prefix(es, es.len() as int, n).0,
{
    let es2 = es.insert(k, extra);
    let id = match extra {
        Element::Node { id, .. } => id,
        Element::Way { .. } => 0,
    };
    assert(es2.subrange(0, k) =~= es.subrange(0, k));
    assert(es2[k] == extra);
    assert(es2.len() == es.len() + 1);
    assert forall|i: int| k <= i < es.len() implies es2[i + 1] == #[trigger] es[i] by {}
    lemma_same_prefix(es, es2, k, n);
    let (ws, p) = parse_prefix(es, k, n);
    match extra {
        Element::Node { id: nid, lat, lon } => {
            let nd = Node { id: nid, lat: lat, lon: lon, way_type: None };
            assert(p.insert(nid, nd).remove(id) =~= p.remove(id));
        },
        Element::Way { .. } => {},
    }
    lemma_unreferenced_suffix(es, es2, k, k, n, id);
}

proof fn lemma_unreferenced_suffix(es: Seq<Element>, es2: Seq<Element>, k: int, j: int, n: nat, id: u64)
    requires
        0 <= k <= j <= es.len(),
        es2.len() == es.len() + 1,
        forall|i: int| k <= i < es.len() ==> es2[i + 1] == #[trigger] es[i],
        unreferenced(es, id),
        parse_prefix(es2, j + 1, n).0 == parse_prefix(es, j, n).0,
        agree_except(parse_prefix(es2, j + 1, n).1, parse_prefix(es, j, n).1, id),
    ensures
        parse_prefix(es2, (es.len() + 1) as int, n).0 == parse_prefix(es, es.len() as int, n).0,
    decreases es.len() - j,
{
    if j < es.len() {
        let (ws2, p2) = parse_prefix(es2, j + 1, n);
        let (ws, p) = parse_prefix(es, j, n);
        assert(es2[j + 1] == es[j]);
        match es[j] {
            Element::Node { id: nid, lat, lon } => {
                let nd = Node { id: nid, lat: lat, lon: lon, way_type: None };
                if nid != id {
                    assert(p2.insert(nid, nd).remove(id) =~= p2.remove(id).insert(nid, nd));
                    assert(p.insert(nid, nd).remove(id) =~= p.remove(id).insert(nid, nd));
                } else {
                    assert(p2.insert(nid, nd).remove(id) =~= p2.remove(id));
                    assert(p.insert(nid, nd).remove(id) =~= p.remove(id));
                }
            },
            Element::Way { id: wid, tags, node_ids } => {
                assert(!node_ids@.contains(id));
                lemma_claim_agrees(node_ids@, node_ids@.len() as int, p2, p, id, way_index_of(tags@));
            },
        }
        lemma_unreferenced_suffix(es, es2, k, j + 1, n, id);
    }
}

proof fn lemma_same_prefix(es: Seq<Element>, es2: Seq<Element>, k: int, n: nat)
    requires
        0 <= k <= es.len(),
        es2.len() == es.len() + 1,
        es2.subrange(0, k) == es.subrange(0, k),
        ({
            let extra = es2[k];
            extra matches Element::Node { .. }
        }),
    ensures
        ({
            let (ws, p) = parse_prefix(es, k, n);
            let extra = es2[k];
            match extra {
                Element::Node { id, lat, lon } => parse_prefix(es2, k + 1, n) == (
                    ws,
                    p.insert(id, Node { id: id, lat: lat, lon: lon, way_type: None }),
                ),
                Element::Way { .. } => true,
            }
        }),
{
    lemma_prefix_depends_on_prefix(es, es2, k, n);
}

proof fn lemma_prefix_depends_on_prefix(es: Seq<Element>, es2: Seq<Element>, k: int, n: nat)
    requires
        0 <= k <= es.len(),
        k <= es2.len(),
        es2.subrange(0, k) == es.subrange(0, k),
    ensures
        parse_prefix(es2, k, n) == parse_prefix(es, k, n),
    decreases k,
{
    if k > 0 {
        assert(es2.subrange(0, k - 1) =~= es2.subrange(0, k).subrange(0, k - 1));
        assert(es.subrange(0, k - 1) =~= es.subrange(0, k).subrange(0, k - 1));
        lemma_prefix_depends_on_prefix(es, es2, k - 1, n);
        assert(es2[k - 1] == es2.subrange(0, k)[k - 1]);
        assert(es[k - 1] == es.subrange(0, k)[k - 1]);
    }
}

/// `more` is `es` with `n` node records added, each of an id that no way
/// record of `more` lists.
pub open spec fn adds_lone_records(more: Seq<Element>, es: Seq<Element>, n: nat) -> bool
    decreases n,
{
    if n == 0 {
        more == es
    } else {
        exists|k: int|
            0 <= k < more.len() && (#[trigger] more[k] matches Element::Node { id, .. }
                && unreferenced(more, id)) && adds_lone_records(more.remove(k), es, (n - 1) as nat)
    }
}

/// Lone node records never reach a way, however many there are and whatever
/// their coordinates: records with node records added whose ids no way lists
/// build the same ways, so the drawn grid is the same.
pub proof fn lemma_lone_records_not_in_ways(more: Seq<Element>, es: Seq<Element>, n: nat, h: nat)
    requires
        adds_lone_records(more, es, n),
    ensures
        parse_prefix(more, more.len() as int, h).0 == parse_prefix(es, es.len() as int, h).0,
    decreases n,
{
    if n > 0 {
        let k = choose|k: int|
            0 <= k < more.len() && (#[trigger] more[k] matches Element::Node { id, .. }
                && unreferenced(more, id)) && adds_lone_records(more.remove(k), es, (n - 1) as nat);
        let rest = more.remove(k);
        let extra = more[k];
        let id = match extra {
            Element::Node { id, .. } => id,
            Element::Way { .. } => 0,
        };
        assert forall|j: int| 0 <= j < rest.len() implies match #[trigger] rest[j] {
            Element::Way { node_ids, .. } => !node_ids@.contains(id),
            Element::Node { .. } => true,
        } by {
            if j < k {
                assert(rest[j] == more[j]);
            } else {
                assert(rest[j] == more[j + 1]);
            }
        }
        lemma_unreferenced_node_not_in_ways(rest, k, extra, h);
        assert(rest.insert(k, extra) =~= more);
        lemma_lone_records_not_in_ways(rest, es, (n - 1) as nat, h);
    }
}

/// Records with the same views build the same map data: what `built_from`
/// says of a map depends on its records' views alone.
pub proof fn lemma_views_fix_map(es1: Seq<Element>, es2: Seq<Element>, g: MapGenerator)
    requires
        element_views(es1) == element_views(es2),
        built_from(g, es1),
    ensures
        built_from(g, es2),
{
    assert(es1.len() == element_views(es1).len());
    assert(es2.len() == element_views(es2).len());
    let h = g.display_height as nat;
    lemma_views_fix_parse(es1, es2, es1.len() as int, h);
    let p = parse_prefix(es1, es1.len() as int, h).1;
    lemma_views_fix_lone(es1, es2, es1.len() as int, p);
}

proof fn lemma_views_fix_parse(es1: Seq<Element>, es2: Seq<Element>, k: int, h: nat)
    requires
        element_views(es1) == element_views(es2),
        0 <= k <= es1.len(),
        es1.len() == es2.len(),
    ensures
        parse_prefix(es1, k, h) == parse_prefix(es2, k, h),
    decreases k,
{
    if k > 0 {
        lemma_views_fix_parse(es1, es2, k - 1, h);
        assert(element_views(es1)[k - 1] == element_view(es1[k - 1]));
        assert(element_views(es2)[k - 1] == element_view(es2[k - 1]));
        assert(element_view(es1[k - 1]) == element_view(es2[k - 1]));
    }
}

proof fn lemma_views_fix_lone(es1: Seq<Element>, es2: Seq<Element>, k: int, p: Map<u64, Node>)
    requires
        element_views(es1) == element_views(es2),
        0 <= k <= es1.len(),
        es1.len() == es2.len(),
    ensures
        lone_prefix(es1, k, p) == lone_prefix(es2, k, p),
    decreases k,
{
    if k > 0 {
        lemma_views_fix_lone(es1, es2, k - 1, p);
        assert(element_views(es1)[k - 1] == element_view(es1[k - 1]));
        assert(element_views(es2)[k - 1] == element_view(es2[k - 1]));
        assert(element_view(es1[k - 1]) == element_view(es2[k - 1]));
    }
}

} // verus!
