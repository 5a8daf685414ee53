//! The style catalog: way types, their glyph families, and the detail levels.
use vstd::prelude::*;

verus! {

/// Number of way types the catalog knows.
pub const WAY_TYPE_COUNT: usize = 36;

/// The way types, ordered from the most important one to the least.
pub open spec fn way_type_name(i: int) -> Seq<char> {
    if i == 0 { "motorway"@ }
    else if i == 1 { "trunk"@ }
    else if i == 2 { "primary"@ }
    else if i == 3 { "secondary"@ }
    else if i == 4 { "tertiary"@ }
    else if i == 5 { "unclassified"@ }
    else if i == 6 { "residential"@ }
    else if i == 7 { "motorway_link"@ }
    else if i == 8 { "trunk_link"@ }
    else if i == 9 { "primary_link"@ }
    else if i == 10 { "secondary_link"@ }
    else if i == 11 { "tertiary_link"@ }
    else if i == 12 { "living_street"@ }
    else if i == 13 { "service"@ }
    else if i == 14 { "pedestrian"@ }
    else if i == 15 { "track"@ }
    else if i == 16 { "bus_guideway"@ }
    else if i == 17 { "escape"@ }
    else if i == 18 { "raceway"@ }
    else if i == 19 { "road"@ }
    else if i == 20 { "busway"@ }
    else if i == 21 { "footway"@ }
    else if i == 22 { "bridleway"@ }
    else if i == 23 { "steps"@ }
    else if i == 24 { "corridor"@ }
    else if i == 25 { "path"@ }
    else if i == 26 { "river"@ }
    else if i == 27 { "riverbank"@ }
    else if i == 28 { "stream"@ }
    else if i == 29 { "tidal_channel"@ }
    else if i == 30 { "canal"@ }
    else if i == 31 { "pressurised"@ }
    else if i == 32 { "drain"@ }
    else if i == 33 { "ditch"@ }
    else if i == 34 { "fairway"@ }
    else { "fish_pass"@ }
}

/// The catalog entry at `i`.
fn way_type_str(i: usize) -> (r: &'static str)
    requires
        i < WAY_TYPE_COUNT,
    ensures
        r@ == way_type_name(i as int),
{
    match i {
        0 => "motorway",
        1 => "trunk",
        2 => "primary",
        3 => "secondary",
        4 => "tertiary",
        5 => "unclassified",
        6 => "residential",
        7 => "motorway_link",
        8 => "trunk_link",
        9 => "primary_link",
        10 => "secondary_link",
        11 => "tertiary_link",
        12 => "living_street",
        13 => "service",
        14 => "pedestrian",
        15 => "track",
        16 => "bus_guideway",
        17 => "escape",
        18 => "raceway",
        19 => "road",
        20 => "busway",
        21 => "footway",
        22 => "bridleway",
        23 => "steps",
        24 => "corridor",
        25 => "path",
        26 => "river",
        27 => "riverbank",
        28 => "stream",
        29 => "tidal_channel",
        30 => "canal",
        31 => "pressurised",
        32 => "drain",
        33 => "ditch",
        34 => "fairway",
        _ => "fish_pass",
    }
}

/// Character-by-character equality of two strings.
pub fn str_equal(a: &str, b: &str) -> (r: bool)
    ensures
        r == (a@ == b@),
{
    let n = a.unicode_len();
    let m = b.unicode_len();
    if n != m {
        return false;
    }
    let mut i: usize = 0;
    while i < n
        invariant
            n == a@.len(),
            m == b@.len(),
            n == m,
            i <= n,
            a@.subrange(0, i as int) == b@.subrange(0, i as int),
        decreases n - i,
    {
        if a.get_char(i) != b.get_char(i) {
            return false;
        }
        assert(a@.subrange(0, i + 1) =~= a@.subrange(0, i as int).push(a@[i as int]));
        assert(b@.subrange(0, i + 1) =~= b@.subrange(0, i as int).push(b@[i as int]));
        i = i + 1;
    }
    assert(a@ =~= a@.subrange(0, n as int));
    assert(b@ =~= b@.subrange(0, n as int));
    true
}

/// What the catalog lookup returns for a way type: the position of its
/// first entry, if it has one.
pub open spec fn way_index_spec(value: Seq<char>, r: Option<usize>) -> bool {
    match r {
        Some(i) => i < WAY_TYPE_COUNT && way_type_name(i as int) == value && forall|j: int|
            0 <= j < i ==> way_type_name(j) != value,
        None => forall|j: int| 0 <= j < WAY_TYPE_COUNT ==> way_type_name(j) != value,
    }
}

/// The first catalog entry at or after `from` that is `value`.
pub open spec fn catalog_index_from(value: Seq<char>, from: int) -> Option<usize>
    decreases WAY_TYPE_COUNT - from,
{
    if from < 0 || from >= WAY_TYPE_COUNT {
        None
    } else if way_type_name(from) == value {
        Some(from as usize)
    } else {
        catalog_index_from(value, from + 1)
    }
}

/// The catalog index of a way type: its first entry, if it has one.
pub open spec fn catalog_index(value: Seq<char>) -> Option<usize> {
    catalog_index_from(value, 0)
}

/// Return the index of the given way type in the catalog, or `None` if it is
/// not in it.
pub fn get_way_index(value: &str) -> (r: Option<usize>)
    ensures
        way_index_spec(value@, r),
        r == catalog_index(value@),
{
    let mut i: usize = 0;
    while i < WAY_TYPE_COUNT
        invariant
            i <= WAY_TYPE_COUNT,
            forall|j: int| 0 <= j < i ==> way_type_name(j) != value@,
            catalog_index(value@) == catalog_index_from(value@, i as int),
        decreases WAY_TYPE_COUNT - i,
    {
        if str_equal(way_type_str(i), value) {
            return Some(i);
        }
        i = i + 1;
    }
    None
}

/// Glyph families: primary, secondary, tertiary, quaternary, small and very
/// small highways, rivers, streams.
pub const FAMILY_COUNT: usize = 8;

/// The glyph family that draws each way type of the catalog; an index out of
/// the catalog has none.
pub open spec fn glyph_family(way_type_index: int) -> Option<int> {
    if way_type_index == 0 || way_type_index == 1 || way_type_index == 7 || way_type_index == 8 { Some(0) }
    else if way_type_index == 2 || way_type_index == 9 { Some(1) }
    else if way_type_index == 3 || way_type_index == 10 || way_type_index == 16 || way_type_index == 20 { Some(2) }
    else if way_type_index == 4 || way_type_index == 5 || way_type_index == 11 || way_type_index == 13 || way_type_index == 19 { Some(3) }
    else if way_type_index == 6 || way_type_index == 12 { Some(4) }
    else if way_type_index == 14 || way_type_index == 15 || way_type_index == 17 || way_type_index == 18 || way_type_index == 21 || way_type_index == 22 || way_type_index == 23 || way_type_index == 24 || way_type_index == 25 { Some(5) }
    else if way_type_index == 26 || way_type_index == 27 { Some(6) }
    else if way_type_index == 28 || way_type_index == 29 || way_type_index == 30 || way_type_index == 31 || way_type_index == 32 || way_type_index == 33 || way_type_index == 34 || way_type_index == 35 { Some(7) }
    else { None }
}

/// The glyph of a family for an orientation: 0 horizontal, 1 rising diagonal,
/// 2 vertical, 3 falling diagonal.
pub open spec fn family_glyph(family: int, orientation: int) -> Seq<char> {
    if family == 0 && orientation == 0 { "\x1b[93m═\x1b[0m"@ }
    else if family == 0 && orientation == 1 { "\x1b[93m⇗\x1b[0m"@ }
    else if family == 0 && orientation == 2 { "\x1b[93m║\x1b[0m"@ }
    else if family == 0 && orientation == 3 { "\x1b[93m⇖\x1b[0m"@ }
    else if family == 1 && orientation == 0 { "═"@ }
    else if family == 1 && orientation == 1 { "⇗"@ }
    else if family == 1 && orientation == 2 { "║"@ }
    else if family == 1 && orientation == 3 { "⇖"@ }
    else if family == 2 && orientation == 0 { "\x1b[33m-\x1b[0m"@ }
    else if family == 2 && orientation == 1 { "\x1b[33m/\x1b[0m"@ }
    else if family == 2 && orientation == 2 { "\x1b[33m|\x1b[0m"@ }
    else if family == 2 && orientation == 3 { "\x1b[33m\\\x1b[0m"@ }
    else if family == 3 && orientation == 0 { "-"@ }
    else if family == 3 && orientation == 1 { "/"@ }
    else if family == 3 && orientation == 2 { "|"@ }
    else if family == 3 && orientation == 3 { "\\"@ }
    else if family == 4 && orientation == 0 { "\x1b[90m-\x1b[0m"@ }
    else if family == 4 && orientation == 1 { "\x1b[90m/\x1b[0m"@ }
    else if family == 4 && orientation == 2 { "\x1b[90m|\x1b[0m"@ }
    else if family == 4 && orientation == 3 { "\x1b[90m\\\x1b[0m"@ }
    else if family == 5 && orientation == 0 { "\x1b[32m⋯\x1b[0m"@ }
    else if family == 5 && orientation == 1 { "\x1b[32m⋰\x1b[0m"@ }
    else if family == 5 && orientation == 2 { "\x1b[32m⋮\x1b[0m"@ }
    else if family == 5 && orientation == 3 { "\x1b[32m⋱\x1b[0m"@ }
    else if family == 6 && orientation == 0 { "\x1b[34m═\x1b[0m"@ }
    else if family == 6 && orientation == 1 { "\x1b[34m⇗\x1b[0m"@ }
    else if family == 6 && orientation == 2 { "\x1b[34m║\x1b[0m"@ }
    else if family == 6 && orientation == 3 { "\x1b[34m⇖\x1b[0m"@ }
    else if family == 7 && orientation == 0 { "\x1b[34m-\x1b[0m"@ }
    else if family == 7 && orientation == 1 { "\x1b[34m/\x1b[0m"@ }
    else if family == 7 && orientation == 2 { "\x1b[34m|\x1b[0m"@ }
    else { "\x1b[34m\\\x1b[0m"@ }
}

fn family_glyph_str(family: usize, orientation: usize) -> (r: &'static str)
    requires
        family < FAMILY_COUNT,
        orientation < 4,
    ensures
        r@ == family_glyph(family as int, orientation as int),
{
    match (family, orientation) {
        (0, 0) => "\x1b[93m═\x1b[0m",
        (0, 1) => "\x1b[93m⇗\x1b[0m",
        (0, 2) => "\x1b[93m║\x1b[0m",
        (0, 3) => "\x1b[93m⇖\x1b[0m",
        (1, 0) => "═",
        (1, 1) => "⇗",
        (1, 2) => "║",
        (1, 3) => "⇖",
        (2, 0) => "\x1b[33m-\x1b[0m",
        (2, 1) => "\x1b[33m/\x1b[0m",
        (2, 2) => "\x1b[33m|\x1b[0m",
        (2, 3) => "\x1b[33m\\\x1b[0m",
        (3, 0) => "-",
        (3, 1) => "/",
        (3, 2) => "|",
        (3, 3) => "\\",
        (4, 0) => "\x1b[90m-\x1b[0m",
        (4, 1) => "\x1b[90m/\x1b[0m",
        (4, 2) => "\x1b[90m|\x1b[0m",
        (4, 3) => "\x1b[90m\\\x1b[0m",
        (5, 0) => "\x1b[32m⋯\x1b[0m",
        (5, 1) => "\x1b[32m⋰\x1b[0m",
        (5, 2) => "\x1b[32m⋮\x1b[0m",
        (5, 3) => "\x1b[32m⋱\x1b[0m",
        (6, 0) => "\x1b[34m═\x1b[0m",
        (6, 1) => "\x1b[34m⇗\x1b[0m",
        (6, 2) => "\x1b[34m║\x1b[0m",
        (6, 3) => "\x1b[34m⇖\x1b[0m",
        (7, 0) => "\x1b[34m-\x1b[0m",
        (7, 1) => "\x1b[34m/\x1b[0m",
        (7, 2) => "\x1b[34m|\x1b[0m",
        _ => "\x1b[34m\\\x1b[0m",
    }
}

fn glyph_family_of(way_type_index: usize) -> (r: Option<usize>)
    ensures
        match glyph_family(way_type_index as int) {
            Some(f) => r == Some(f as usize) && f < FAMILY_COUNT,
            None => r is None,
        },
{
    match way_type_index {
        0 | 1 | 7 | 8 => Some(0),
        2 | 9 => Some(1),
        3 | 10 | 16 | 20 => Some(2),
        4 | 5 | 11 | 13 | 19 => Some(3),
        6 | 12 => Some(4),
        14 | 15 | 17 | 18 | 21 | 22 | 23 | 24 | 25 => Some(5),
        26 | 27 => Some(6),
        28 | 29 | 30 | 31 | 32 | 33 | 34 | 35 => Some(7),
        _ => None,
    }
}

/// The glyph that stands for a way type drawn with an orientation: a single
/// blank for an index that is not in the catalog.
pub open spec fn glyph(way_type_index: int, orientation: int) -> Seq<char> {
    match glyph_family(way_type_index) {
        Some(f) => family_glyph(f, orientation),
        None => " "@,
    }
}

/// The glyph of `way_type_index` for an orientation (see `orientation_index`).
pub fn glyph_for_orientation(way_type_index: usize, orientation: usize) -> (r: String)
    requires
        orientation < 4,
    ensures
        r@ == glyph(way_type_index as int, orientation as int),
{
    match glyph_family_of(way_type_index) {
        Some(f) => String::from_str(family_glyph_str(f, orientation)),
        None => String::from_str(" "),
    }
}

/// Angles are in tenths of a degree, measured counterclockwise from east:
/// 0 and 1800 are east-west, 900 and 2700 north-south.
pub const FULL_TURN: u32 = 3600;

/// The orientation buckets, symmetric every half turn, each one half-open:
/// 0 horizontal, 1 rising diagonal, 2 vertical, 3 falling diagonal.
pub open spec fn in_bucket(angle: int, bucket: int) -> bool {
    if bucket == 0 {
        (0 <= angle < 225) || (1575 <= angle < 2025) || (3375 <= angle < 3600)
    } else if bucket == 1 {
        (225 <= angle < 675) || (2025 <= angle < 2475)
    } else if bucket == 2 {
        (675 <= angle < 1125) || (2475 <= angle < 2925)
    } else if bucket == 3 {
        (1125 <= angle < 1575) || (2925 <= angle < 3375)
    } else {
        false
    }
}

/// The orientation of an angle of `[0, 3600)`.
pub open spec fn orientation_of_angle(angle: int) -> int {
    if in_bucket(angle, 1) {
        1
    } else if in_bucket(angle, 2) {
        2
    } else if in_bucket(angle, 3) {
        3
    } else {
        0
    }
}

/// Every angle of a full turn lies in exactly one orientation bucket, the one
/// that `orientation_of_angle` names.
pub proof fn lemma_buckets_partition_turn(angle: int, bucket: int)
    requires
        0 <= angle < FULL_TURN,
    ensures
        0 <= orientation_of_angle(angle) < 4,
        in_bucket(angle, bucket) <==> bucket == orientation_of_angle(angle),
{
}

/// The orientation bucket of an angle in tenths of a degree.
pub fn orientation_index(angle: u32) -> (r: usize)
    requires
        angle < FULL_TURN,
    ensures
        r == orientation_of_angle(angle as int),
        r < 4,
{
    if 225 <= angle && angle < 675 || 2025 <= angle && angle < 2475 {
        1
    } else if 675 <= angle && angle < 1125 || 2475 <= angle && angle < 2925 {
        2
    } else if 1125 <= angle && angle < 1575 || 2925 <= angle && angle < 3375 {
        3
    } else {
        0
    }
}

/// Return the glyph (a character and its color escape codes, if any) that
/// draws a way of the given type along a path at the given angle.
pub fn get_road_repr(way_type_index: usize, angle: u32) -> (r: String)
    requires
        angle < FULL_TURN,
    ensures
        r@ == glyph(way_type_index as int, orientation_of_angle(angle as int)),
{
    glyph_for_orientation(way_type_index, orientation_index(angle))
}

/// The way types each detail level adds to the one below it.
pub open spec fn level_bracket(level: int) -> Seq<Seq<char>> {
    if level == 0 {
        seq!["motorway"@, "motorway_link"@, "trunk"@, "trunk_link"@, "river"@]
    } else if level == 1 {
        seq!["primary"@, "primary_link"@, "riverbank"@, "canal"@]
    } else if level == 2 {
        seq!["secondary"@, "secondary_link"@, "stream"@]
    } else if level == 3 {
        seq!["tertiary"@, "tertiary_link"@]
    } else if level == 4 {
        seq!["unclassified"@, "bus_guideway"@, "busway"@]
    } else if level == 5 {
        seq![
            "residential"@,
            "living_street"@,
            "service"@,
            "road"@,
            "pressurised"@,
            "drain"@,
            "ditch"@,
            "fairway"@,
        ]
    } else {
        seq![
            "pedestrian"@,
            "track"@,
            "escape"@,
            "raceway"@,
            "footway"@,
            "steps"@,
            "corridor"@,
            "path"@,
            "fish_pass"@,
        ]
    }
}

/// Highest detail level; levels above it show what it shows.
pub const MAX_DETAIL_LEVEL: u8 = 6;

/// The way types shown at a detail level: the brackets of every level up to it.
pub open spec fn types_for_level(level: nat) -> Seq<Seq<char>>
    decreases level,
{
    if level == 0 {
        level_bracket(0)
    } else if level > MAX_DETAIL_LEVEL {
        types_for_level(MAX_DETAIL_LEVEL as nat)
    } else {
        types_for_level((level - 1) as nat) + level_bracket(level as int)
    }
}

/// The text of each string of a sequence.
pub open spec fn texts(v: Seq<&'static str>) -> Seq<Seq<char>> {
    v.map_values(|s: &'static str| s@)
}

fn bracket_strs(level: u8) -> (r: Vec<&'static str>)
    ensures
        texts(r@) == level_bracket(level as int),
{
    let r = if level == 0 {
        vec!["motorway", "motorway_link", "trunk", "trunk_link", "river"]
    } else if level == 1 {
        vec!["primary", "primary_link", "riverbank", "canal"]
    } else if level == 2 {
        vec!["secondary", "secondary_link", "stream"]
    } else if level == 3 {
        vec!["tertiary", "tertiary_link"]
    } else if level == 4 {
        vec!["unclassified", "bus_guideway", "busway"]
    } else if level == 5 {
        vec!["residential", "living_street", "service", "road", "pressurised", "drain", "ditch", "fairway"]
    } else {
        vec!["pedestrian", "track", "escape", "raceway", "footway", "steps", "corridor", "path", "fish_pass"]
    };
    assert(texts(r@) =~= level_bracket(level as int));
    r
}

/// Return the way types (motorway, canal, primary, ...) shown at the given
/// detail level, level 0 showing only the most important ones.
pub fn get_way_types(detail_lvl: u8) -> (r: Vec<&'static str>)
    ensures
        texts(r@) == types_for_level(detail_lvl as nat),
{
    let mut res = bracket_strs(0);
    let mut level: u8 = 1;
    while level <= MAX_DETAIL_LEVEL && level <= detail_lvl
        invariant
            1 <= level <= MAX_DETAIL_LEVEL + 1,
            level <= detail_lvl + 1,
            texts(res@) == types_for_level((level - 1) as nat),
        decreases MAX_DETAIL_LEVEL + 1 - level,
    {
        let mut more = bracket_strs(level);
        let ghost before = res@;
        let ghost added = more@;
        res.append(&mut more);
        assert(texts(res@) =~= texts(before) + texts(added));
        level = level + 1;
    }
    proof {
        if detail_lvl > MAX_DETAIL_LEVEL {
            assert(types_for_level(detail_lvl as nat) == types_for_level(MAX_DETAIL_LEVEL as nat));
        }
    }
    res
}

/// Each detail level shows every way type that the level below it shows.
pub proof fn lemma_detail_levels_grow(level: nat, way_type: Seq<char>)
    requires
        types_for_level(level).contains(way_type),
    ensures
        types_for_level(level + 1).contains(way_type),
{
    let s = types_for_level(level);
    let i = choose|i: int| 0 <= i < s.len() && s[i] == way_type;
    if level < MAX_DETAIL_LEVEL {
        let t = types_for_level(level + 1);
        assert(t == s + level_bracket((level + 1) as int));
        assert(t[i] == way_type);
    } else {
        assert(types_for_level(level + 1) == types_for_level(MAX_DETAIL_LEVEL as nat));
        if level > MAX_DETAIL_LEVEL {
            assert(s == types_for_level(MAX_DETAIL_LEVEL as nat));
        }
    }
}

} // verus!
