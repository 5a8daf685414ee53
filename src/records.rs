//! Reading map records out of the JSON that the map-data service answers:
//! `{"elements": [{"type": "node", "id", "lat", "lon"}, {"type": "way", "id",
//! "tags", "nodes"}, ...]}`.
use vstd::prelude::*;
use vstd::utf8::encode_utf8;
use crate::geo::{in_world, normalized, sized, BoundingBox, LAT_LIMIT, LON_LIMIT};
use crate::map::{elements_on_globe, Element};
use crate::style::str_equal;

verus! {

#[verifier::external_type_specification]
#[verifier::external_body]
pub struct ExJsonValue(json::JsonValue);

#[verifier::external_type_specification]
#[verifier::external_body]
pub struct ExJsonError(json::Error);

/// A JSON value, numbers kept as sign, decimal mantissa and exponent.
#[derive(Debug)]
pub enum Json {
    Null,
    Bool(bool),
    Number(bool, u64, i16),
    Str(String),
    Array(Vec<Json>),
    Object(Vec<(String, Json)>),
}

/// The value that `json::parse` reads from a text, if it accepts it.
pub uninterp spec fn json_doc(text: Seq<char>) -> Option<Json>;

/// Longest run of decimal digits that `json::parse` reads without fault: it
/// counts the digits of a fraction down in an `i16` exponent.
pub const DIGIT_RUN_LIMIT: usize = 32768;

/// Whether a byte is a decimal digit.
pub open spec fn is_digit_byte(b: u8) -> bool {
    48 <= b <= 57
}

/// The number of decimal digits that end `b`.
pub open spec fn trailing_digits(b: Seq<u8>) -> nat
    decreases b.len(),
{
    if b.len() == 0 || !is_digit_byte(b.last()) {
        0
    } else {
        trailing_digits(b.drop_last()) + 1
    }
}

/// Every run of decimal digits in `b` is shorter than `DIGIT_RUN_LIMIT`.
pub open spec fn short_digit_runs(b: Seq<u8>) -> bool
    decreases b.len(),
{
    b.len() == 0 || (short_digit_runs(b.drop_last()) && trailing_digits(b) < DIGIT_RUN_LIMIT)
}

/// A text that `json::parse` reads without fault: its digit runs are short.
pub open spec fn parsable(text: Seq<char>) -> bool {
    short_digit_runs(encode_utf8(text))
}

/// Return whether every run of decimal digits in `text` is shorter than
/// `DIGIT_RUN_LIMIT`.
pub fn has_short_digit_runs(text: &str) -> (r: bool)
    ensures
        r == parsable(text@),
{
    let b = text.as_bytes();
    let n = b.len();
    let mut run: usize = 0;
    let mut i: usize = 0;
    while i < n
        invariant
            n == b@.len(),
            b@ == encode_utf8(text@),
            i <= n,
            run == trailing_digits(b@.subrange(0, i as int)),
            run < DIGIT_RUN_LIMIT,
            short_digit_runs(b@.subrange(0, i as int)),
        decreases n - i,
    {
        assert(b@.subrange(0, i + 1).drop_last() =~= b@.subrange(0, i as int));
        if 48 <= b[i] && b[i] <= 57 {
            run = run + 1;
            if run >= DIGIT_RUN_LIMIT {
                proof {
                    lemma_long_run_stays(b@, i + 1);
                }
                return false;
            }
        } else {
            run = 0;
        }
        i = i + 1;
    }
    assert(b@.subrange(0, n as int) =~= b@);
    true
}

/// A prefix with a long digit run makes every longer text fail the test.
proof fn lemma_long_run_stays(b: Seq<u8>, k: int)
    requires
        0 < k <= b.len(),
        trailing_digits(b.subrange(0, k)) >= DIGIT_RUN_LIMIT,
    ensures
        !short_digit_runs(b),
    decreases b.len() - k,
{
    if k < b.len() {
        lemma_long_run_stays_prefix(b, k, b.len() as int);
        assert(b.subrange(0, b.len() as int) =~= b);
    } else {
        assert(b.subrange(0, k) =~= b);
    }
}

proof fn lemma_long_run_stays_prefix(b: Seq<u8>, k: int, m: int)
    requires
        0 < k <= m <= b.len(),
        trailing_digits(b.subrange(0, k)) >= DIGIT_RUN_LIMIT,
    ensures
        !short_digit_runs(b.subrange(0, m)),
    decreases m - k,
{
    if m > k {
        assert(b.subrange(0, m).drop_last() =~= b.subrange(0, m - 1));
        lemma_long_run_stays_prefix(b, k, m - 1);
    }
}

/// Relies on `json::parse`, which reads a text exactly when it accepts it,
/// and faults on a fraction of more than 32768 digits (hence the digit runs
/// are held short).
#[verifier::external_body]
fn parse_json(text: &str) -> (r: Result<Json, json::Error>)
    requires
        parsable(text@),
    ensures
        r is Ok <==> json_doc(text@) is Some,
        r matches Ok(j) ==> json_doc(text@) == Some(j),
{
    json::parse(text).map(|v| json_tree(&v))
}

/// Relies on the variants of `json::JsonValue` and on
/// `json::number::Number::as_parts`: a parsed value converted one for one.
#[verifier::external_body]
fn json_tree(v: &json::JsonValue) -> Json {
    match v {
        json::JsonValue::Null => Json::Null,
        json::JsonValue::Short(s) => Json::Str(s.to_string()),
        json::JsonValue::String(s) => Json::Str(s.clone()),
        json::JsonValue::Number(n) => {
            let (p, m, e) = n.as_parts();
            Json::Number(p, m, e)
        },
        json::JsonValue::Boolean(b) => Json::Bool(*b),
        json::JsonValue::Object(o) => Json::Object(o.iter().map(|(k, x)| (k.to_string(), json_tree(x))).collect()),
        json::JsonValue::Array(a) => Json::Array(a.iter().map(json_tree).collect()),
    }
}

/// Ten to the power `k`.
pub open spec fn pow10(k: nat) -> nat
    decreases k,
{
    if k == 0 {
        1
    } else {
        10 * pow10((k - 1) as nat)
    }
}

/// The magnitude of `mantissa * 10^exponent` in units of 1e-7, rounded
/// toward zero.
pub open spec fn magnitude_e7(mantissa: nat, exponent: int) -> nat {
    if exponent + 7 >= 0 {
        mantissa * pow10((exponent + 7) as nat)
    } else {
        mantissa / pow10((-(exponent + 7)) as nat)
    }
}

/// The coordinate, in units of 1e-7 degree, of a decimal number given as
/// sign, mantissa and exponent; none beyond 180 degrees either way.
pub open spec fn coordinate_of_parts(positive: bool, mantissa: nat, exponent: int) -> Option<int> {
    let v = magnitude_e7(mantissa, exponent);
    if v > LON_LIMIT {
        None
    } else if positive {
        Some(v as int)
    } else {
        Some(-v)
    }
}

proof fn lemma_pow10_grows(a: nat, b: nat)
    requires
        a <= b,
    ensures
        1 <= pow10(a) <= pow10(b),
    decreases b,
{
    if b > 0 {
        if a == b {
            lemma_pow10_grows(0, (b - 1) as nat);
        } else {
            lemma_pow10_grows(a, (b - 1) as nat);
        }
    }
}

proof fn lemma_pow10_values()
    ensures
        pow10(10) == 10_000_000_000,
        pow10(20) == 100_000_000_000_000_000_000,
{
    reveal_with_fuel(pow10, 21);
}

fn pow10_exec(k: u32) -> (r: u128)
    requires
        k <= 20,
    ensures
        r == pow10(k as nat),
{
    let mut r: u128 = 1;
    let mut i: u32 = 0;
    while i < k
        invariant
            i <= k,
            k <= 20,
            r == pow10(i as nat),
        decreases k - i,
    {
        proof {
            lemma_pow10_grows(i as nat, 20);
            lemma_pow10_values();
        }
        r = r * 10;
        i = i + 1;
    }
    r
}

/// Return the coordinate, in units of 1e-7 degree, of the decimal number
/// `(-1)^(1 - positive) * mantissa * 10^exponent`, or `None` beyond 180
/// degrees. Digits below 1e-7 are dropped.
pub fn coordinate_from_parts(positive: bool, mantissa: u64, exponent: i16) -> (r: Option<i64>)
    ensures
        match coordinate_of_parts(positive, mantissa as nat, exponent as int) {
            Some(v) => r == Some(v as i64),
            None => r is None,
        },
{
    let k: i32 = exponent as i32 + 7;
    let magnitude: u128;
    if mantissa == 0 {
        proof {
            if k >= 0 {
                assert(0 * pow10(k as nat) == 0);
            } else {
                lemma_pow10_grows(0, (-k) as nat);
                vstd::arithmetic::div_mod::lemma_div_of0(pow10((-k) as nat) as int);
            }
        }
        magnitude = 0;
    } else if k >= 10 {
        proof {
            lemma_pow10_grows(10, k as nat);
            lemma_pow10_values();
            assert(mantissa as nat * pow10(k as nat) >= pow10(k as nat)) by (nonlinear_arith)
                requires
                    mantissa >= 1,
            ;
        }
        return None;
    } else if k >= 0 {
        let p = pow10_exec(k as u32);
        proof {
            lemma_pow10_grows(k as nat, 10);
            lemma_pow10_values();
            assert(mantissa as nat * p <= 0xffff_ffff_ffff_ffff * 10_000_000_000) by (nonlinear_arith)
                requires
                    mantissa <= 0xffff_ffff_ffff_ffff,
                    p <= 10_000_000_000,
            ;
        }
        magnitude = mantissa as u128 * p;
    } else if k < -20 {
        proof {
            lemma_pow10_grows(20, (-k) as nat);
            lemma_pow10_values();
            vstd::arithmetic::div_mod::lemma_basic_div(mantissa as int, pow10((-k) as nat) as int);
        }
        magnitude = 0;
    } else {
        let p = pow10_exec((-k) as u32);
        proof {
            lemma_pow10_grows(0, (-k) as nat);
        }
        magnitude = mantissa as u128 / p;
    }
    if magnitude > LON_LIMIT as u128 {
        None
    } else if positive {
        Some(magnitude as i64)
    } else {
        Some(-(magnitude as i64))
    }
}

/// The value of the first member at or after `from` named `key`.
pub open spec fn member_from(fields: Seq<(String, Json)>, key: Seq<char>, from: int) -> Option<Json>
    decreases fields.len() - from,
{
    if from < 0 || from >= fields.len() {
        None
    } else if fields[from].0@ == key {
        Some(fields[from].1)
    } else {
        member_from(fields, key, from + 1)
    }
}

/// The member `key` of an object.
pub open spec fn field(j: Json, key: Seq<char>) -> Option<Json> {
    match j {
        Json::Object(f) => member_from(f@, key, 0),
        _ => None,
    }
}

/// The item `i` of an array.
pub open spec fn item(j: Json, i: int) -> Option<Json> {
    match j {
        Json::Array(a) => if 0 <= i < a@.len() {
            Some(a@[i])
        } else {
            None
        },
        _ => None,
    }
}

/// An id: a number written as a whole non-negative integer, no exponent.
pub open spec fn id_of(j: Option<Json>) -> Option<u64> {
    match j {
        Some(Json::Number(p, m, e)) => if e == 0 && (p || m == 0) {
            Some(m)
        } else {
            None
        },
        _ => None,
    }
}

/// The coordinate of a number, in units of 1e-7 degree, within 180 degrees.
pub open spec fn coord_of(j: Option<Json>) -> Option<int> {
    match j {
        Some(Json::Number(p, m, e)) => coordinate_of_parts(p, m as nat, e as int),
        _ => None,
    }
}

/// A record as read: a node, or a way with its tags and member ids.
pub enum ElementView {
    Node(u64, i64, i64),
    Way(u64, Seq<(String, String)>, Seq<u64>),
}

/// The view of a record.
pub open spec fn element_view(e: Element) -> ElementView {
    match e {
        Element::Node { id, lat, lon } => ElementView::Node(id, lat, lon),
        Element::Way { id, tags, node_ids } => ElementView::Way(id, tags@, node_ids@),
    }
}

/// The views of records.
pub open spec fn element_views(es: Seq<Element>) -> Seq<ElementView> {
    es.map_values(|e: Element| element_view(e))
}

/// The members of an object whose value is a string, in order.
pub open spec fn string_members(f: Seq<(String, Json)>) -> Seq<(String, String)>
    decreases f.len(),
{
    if f.len() == 0 {
        Seq::empty()
    } else {
        let t = string_members(f.drop_last());
        match f.last().1 {
            Json::Str(s) => t.push((f.last().0, s)),
            _ => t,
        }
    }
}

/// The ids among the items of an array, in order.
pub open spec fn ids_among(a: Seq<Json>) -> Seq<u64>
    decreases a.len(),
{
    if a.len() == 0 {
        Seq::empty()
    } else {
        match id_of(Some(a.last())) {
            Some(id) => ids_among(a.drop_last()).push(id),
            None => ids_among(a.drop_last()),
        }
    }
}

/// The tags of a way record: its `tags` members with a string value.
pub open spec fn tags_of(j: Option<Json>) -> Seq<(String, String)> {
    match j {
        Some(Json::Object(f)) => string_members(f@),
        _ => Seq::empty(),
    }
}

/// The member ids of a way record: the ids among its `nodes`.
pub open spec fn ids_of(j: Option<Json>) -> Seq<u64> {
    match j {
        Some(Json::Array(a)) => ids_among(a@),
        _ => Seq::empty(),
    }
}

/// The record an item stands for: a `node` with an id and coordinates on the
/// globe, or a `way` with an id; anything else is none.
pub open spec fn record_of(e: Json) -> Option<ElementView> {
    match (field(e, "type"@), id_of(field(e, "id"@))) {
        (Some(Json::Str(t)), Some(id)) => if t@ == "node"@ {
            match (coord_of(field(e, "lat"@)), coord_of(field(e, "lon"@))) {
                (Some(lat), Some(lon)) => if -LAT_LIMIT <= lat <= LAT_LIMIT {
                    Some(ElementView::Node(id, lat as i64, lon as i64))
                } else {
                    None
                },
                _ => None,
            }
        } else if t@ == "way"@ {
            Some(ElementView::Way(id, tags_of(field(e, "tags"@)), ids_of(field(e, "nodes"@))))
        } else {
            None
        },
        _ => None,
    }
}

/// The records among items, in order.
pub open spec fn records_among(a: Seq<Json>) -> Seq<ElementView>
    decreases a.len(),
{
    if a.len() == 0 {
        Seq::empty()
    } else {
        match record_of(a.last()) {
            Some(r) => records_among(a.drop_last()).push(r),
            None => records_among(a.drop_last()),
        }
    }
}

/// The records of a map-data answer: those among the items of `elements`.
pub open spec fn records_of(doc: Json) -> Seq<ElementView> {
    match field(doc, "elements"@) {
        Some(Json::Array(a)) => records_among(a@),
        _ => Seq::empty(),
    }
}

/// The value behind an optional reference.
pub open spec fn deref_opt(j: Option<&Json>) -> Option<Json> {
    match j {
        Some(x) => Some(*x),
        None => None,
    }
}

fn get_field<'a>(j: &'a Json, key: &str) -> (r: Option<&'a Json>)
    ensures
        deref_opt(r) == field(*j, key@),
{
    match j {
        Json::Object(f) => {
            assert(field(*j, key@) == member_from(f@, key@, 0));
            let mut i: usize = 0;
            while i < f.len()
                invariant
                    i <= f@.len(),
                    field(*j, key@) == member_from(f@, key@, 0),
                    member_from(f@, key@, 0) == member_from(f@, key@, i as int),
                decreases f@.len() - i,
            {
                if str_equal(f[i].0.as_str(), key) {
                    assert(f@[i as int].0@ == key@);
                    assert(member_from(f@, key@, i as int) == Some(f@[i as int].1));
                    let r = &f[i].1;
                    assert(*r == f@[i as int].1);
                    return Some(r);
                }
                i = i + 1;
            }
            None
        },
        _ => None,
    }
}

fn get_item<'a>(j: &'a Json, i: usize) -> (r: Option<&'a Json>)
    ensures
        deref_opt(r) == item(*j, i as int),
{
    match j {
        Json::Array(a) => if i < a.len() {
            Some(&a[i])
        } else {
            None
        },
        _ => None,
    }
}

fn read_id(j: Option<&Json>) -> (r: Option<u64>)
    ensures
        r == id_of(deref_opt(j)),
{
    match j {
        Some(Json::Number(p, m, e)) => if *e == 0 && (*p || *m == 0) {
            Some(*m)
        } else {
            None
        },
        _ => None,
    }
}

fn read_coordinate(j: Option<&Json>) -> (r: Option<i64>)
    ensures
        match coord_of(deref_opt(j)) {
            Some(v) => r == Some(v as i64) && -LON_LIMIT <= v <= LON_LIMIT,
            None => r is None,
        },
{
    match j {
        Some(Json::Number(p, m, e)) => coordinate_from_parts(*p, *m, *e),
        _ => None,
    }
}

fn read_tags(j: Option<&Json>) -> (r: Vec<(String, String)>)
    ensures
        r@ == tags_of(deref_opt(j)),
{
    let mut out: Vec<(String, String)> = Vec::new();
    match j {
        Some(Json::Object(f)) => {
            let mut i: usize = 0;
            while i < f.len()
                invariant
                    i <= f@.len(),
                    out@ == string_members(f@.subrange(0, i as int)),
                decreases f@.len() - i,
            {
                assert(f@.subrange(0, i + 1).drop_last() =~= f@.subrange(0, i as int));
                match &f[i].1 {
                    Json::Str(s) => {
                        out.push((f[i].0.clone(), s.clone()));
                    },
                    _ => {},
                }
                i = i + 1;
            }
            assert(f@.subrange(0, f@.len() as int) =~= f@);
        },
        _ => {},
    }
    out
}

fn read_ids(j: Option<&Json>) -> (r: Vec<u64>)
    ensures
        r@ == ids_of(deref_opt(j)),
{
    let mut out: Vec<u64> = Vec::new();
    match j {
        Some(Json::Array(a)) => {
            let mut i: usize = 0;
            while i < a.len()
                invariant
                    i <= a@.len(),
                    out@ == ids_among(a@.subrange(0, i as int)),
                decreases a@.len() - i,
            {
                assert(a@.subrange(0, i + 1).drop_last() =~= a@.subrange(0, i as int));
                match read_id(Some(&a[i])) {
                    Some(id) => out.push(id),
                    None => {},
                }
                i = i + 1;
            }
            assert(a@.subrange(0, a@.len() as int) =~= a@);
        },
        _ => {},
    }
    out
}

/// Read the record an item stands for (see `record_of`).
pub fn element_from_json(e: &Json) -> (r: Option<Element>)
    ensures
        match record_of(*e) {
            Some(v) => r matches Some(el) && element_view(el) == v && elements_on_globe(seq![el]),
            None => r is None,
        },
{
    let kind = match get_field(e, "type") {
        Some(Json::Str(t)) => t,
        _ => return None,
    };
    let id = match read_id(get_field(e, "id")) {
        Some(id) => id,
        None => return None,
    };
    proof {
        reveal_strlit("node");
        reveal_strlit("way");
    }
    if str_equal(kind.as_str(), "node") {
        let lat = read_coordinate(get_field(e, "lat"));
        let lon = read_coordinate(get_field(e, "lon"));
        match (lat, lon) {
            (Some(lat), Some(lon)) => {
                if -LAT_LIMIT <= lat && lat <= LAT_LIMIT {
                    Some(Element::Node { id, lat, lon })
                } else {
                    None
                }
            },
            _ => None,
        }
    } else if str_equal(kind.as_str(), "way") {
        let tags = read_tags(get_field(e, "tags"));
        let node_ids = read_ids(get_field(e, "nodes"));
        Some(Element::Way { id, tags, node_ids })
    } else {
        None
    }
}

/// Return the records of a map-data answer, in order (see `records_of`).
pub fn records_from_doc(doc: &Json) -> (r: Vec<Element>)
    ensures
        element_views(r@) == records_of(*doc),
        elements_on_globe(r@),
{
    let mut out: Vec<Element> = Vec::new();
    match get_field(doc, "elements") {
        Some(Json::Array(a)) => {
            let mut i: usize = 0;
            while i < a.len()
                invariant
                    i <= a@.len(),
                    element_views(out@) == records_among(a@.subrange(0, i as int)),
                    elements_on_globe(out@),
                decreases a@.len() - i,
            {
                assert(a@.subrange(0, i + 1).drop_last() =~= a@.subrange(0, i as int));
                assert(a@.subrange(0, i + 1).last() == a@[i as int]);
                match element_from_json(&a[i]) {
                    Some(el) => {
                        let ghost before = out@;
                        out.push(el);
                        assert(element_views(out@) =~= element_views(before).push(element_view(el)));
                        assert forall|k: int| 0 <= k < out@.len() implies match #[trigger] out@[k] {
                            Element::Node { id, lat, lon } => -LAT_LIMIT <= lat <= LAT_LIMIT && -LON_LIMIT
                                <= lon <= LON_LIMIT,
                            Element::Way { .. } => true,
                        } by {
                            if k < before.len() {
                                assert(out@[k] == before[k]);
                            } else {
                                assert(seq![el][0] == el);
                            }
                        }
                    },
                    None => {},
                }
                i = i + 1;
            }
            assert(a@.subrange(0, a@.len() as int) =~= a@);
        },
        _ => {},
    }
    out
}

/// The records of the map-data answer `data`, when it can be read.
pub open spec fn answer_records(data: Seq<char>) -> Option<Seq<ElementView>> {
    if parsable(data) {
        match json_doc(data) {
            Some(doc) => Some(records_of(doc)),
            None => None,
        }
    } else {
        None
    }
}

/// Return the records of a map-data answer, in order; `None` where the text
/// is not JSON that the parser reads (see `parsable`). Items that are not a
/// node with an id and coordinates on the globe, nor a way with an id, are
/// left out, as are way members that are not ids and tags whose value is not
/// a string.
pub fn elements_from_json(data: &str) -> (r: Option<Vec<Element>>)
    ensures
        match answer_records(data@) {
            Some(rs) => r matches Some(es) && element_views(es@) == rs && elements_on_globe(es@),
            None => r is None,
        },
{
    if !has_short_digit_runs(data) {
        return None;
    }
    match parse_json(data) {
        Ok(doc) => Some(records_from_doc(&doc)),
        Err(_) => None,
    }
}

/// The coordinate written in `text` as a JSON number, in units of 1e-7
/// degree, if it is one within 180 degrees.
pub open spec fn text_coordinate(text: Seq<char>) -> Option<int> {
    if parsable(text) {
        match json_doc(text) {
            Some(doc) => coord_of(Some(doc)),
            None => None,
        }
    } else {
        None
    }
}

/// Return the coordinate written as a decimal number in `text` (see
/// `text_coordinate`).
pub fn coordinate_from_text(text: &str) -> (r: Option<i64>)
    ensures
        match text_coordinate(text@) {
            Some(v) => r == Some(v as i64) && -LON_LIMIT <= v <= LON_LIMIT,
            None => r is None,
        },
{
    if !has_short_digit_runs(text) {
        return None;
    }
    match parse_json(text) {
        Ok(doc) => read_coordinate(Some(&doc)),
        Err(_) => None,
    }
}

/// The coordinate of corner `i` of the box of a geocoder's answer: the `i`-th
/// string of `boundingbox` in its first result.
pub open spec fn corner_of(doc: Json, i: int) -> Option<int> {
    match item(doc, 0) {
        Some(first) => match field(first, "boundingbox"@) {
            Some(b) => match item(b, i) {
                Some(Json::Str(s)) => text_coordinate(s@),
                _ => None,
            },
            None => None,
        },
        None => None,
    }
}

/// The box of a parsed geocoder answer, normalized: its corners are given as
/// south, north, west, east, and must lie in order on the globe.
pub open spec fn doc_box(doc: Json) -> Option<BoundingBox> {
    match (corner_of(doc, 0), corner_of(doc, 1), corner_of(doc, 2), corner_of(doc, 3)) {
        (Some(s), Some(n), Some(w), Some(e)) => if in_world(s, w, n, e) {
            Some(normalized(sized(s, w, n, e)))
        } else {
            None
        },
        _ => None,
    }
}

/// The box of a geocoder's answer text (see `doc_box`).
pub open spec fn answer_box(data: Seq<char>) -> Option<BoundingBox> {
    if parsable(data) {
        match json_doc(data) {
            Some(doc) => doc_box(doc),
            None => None,
        }
    } else {
        None
    }
}

fn read_corner(doc: &Json, i: usize) -> (r: Option<i64>)
    ensures
        match corner_of(*doc, i as int) {
            Some(v) => r == Some(v as i64) && -LON_LIMIT <= v <= LON_LIMIT,
            None => r is None,
        },
{
    match get_item(doc, 0) {
        Some(first) => match get_field(first, "boundingbox") {
            Some(b) => match get_item(b, i) {
                Some(Json::Str(s)) => coordinate_from_text(s.as_str()),
                _ => None,
            },
            None => None,
        },
        None => None,
    }
}

/// Return the bounding box of the first place of a parsed geocoder answer,
/// normalized (see `doc_box`).
pub fn box_from_doc(doc: &Json) -> (r: Option<BoundingBox>)
    ensures
        r == doc_box(*doc),
        r matches Some(b) ==> b.wf(),
{
    let south = read_corner(doc, 0);
    let north = read_corner(doc, 1);
    let west = read_corner(doc, 2);
    let east = read_corner(doc, 3);
    match (south, north, west, east) {
        (Some(s), Some(n), Some(w), Some(e)) => {
            if -LAT_LIMIT <= s && s <= n && n <= LAT_LIMIT && -LON_LIMIT <= w && w <= e && e <= LON_LIMIT {
                Some(BoundingBox::new(s, w, n, e))
            } else {
                None
            }
        },
        _ => None,
    }
}

/// Return the bounding box of the first place of a geocoder's answer,
/// normalized (see `answer_box`).
pub fn nominatim_box(data: &str) -> (r: Option<BoundingBox>)
    ensures
        r == answer_box(data@),
        r matches Some(b) ==> b.wf(),
{
    if !has_short_digit_runs(data) {
        return None;
    }
    match parse_json(data) {
        Ok(doc) => box_from_doc(&doc),
        Err(_) => None,
    }
}

} // verus!
