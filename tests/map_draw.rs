use std::cmp::Ordering;

use rustreet::ascii_map::scale_legend;
use rustreet::geo::BoundingBox;
use rustreet::map::{orientation_of_vector, project_node, Element, MapGenerator, Node, Way};
use rustreet::records::{box_from_doc, Json, coordinate_from_parts, coordinate_from_text, elements_from_json, nominatim_box};

const MOTORWAY_RISING: &str = "\x1b[93m⇗\x1b[0m";

fn tags(pairs: &[(&str, &str)]) -> Vec<(String, String)> {
    pairs.iter().map(|(k, v)| (k.to_string(), v.to_string())).collect()
}

fn scenario_elements(with_lone_node: bool) -> Vec<Element> {
    let mut es = vec![
        Element::Node { id: 1, lat: 450000000, lon: 40000000 },
        Element::Node { id: 2, lat: 450100000, lon: 40100000 },
    ];
    if with_lone_node {
        es.push(Element::Node { id: 3, lat: 450050000, lon: 40020000 });
    }
    es.push(Element::Way { id: 10, tags: tags(&[("highway", "motorway")]), node_ids: vec![1, 2] });
    es
}

fn scenario_box() -> BoundingBox {
    BoundingBox::new(450000000, 40000000, 450100000, 40100000)
}

#[test]
fn diagonal_motorway_end_to_end() {
    let g = MapGenerator::from_elements(&scenario_elements(false), scenario_box(), 4);
    let m = g.generate_ascii_map();
    assert_eq!(m.height, 4);
    assert_eq!(m.width, 8);
    for x in 0..4usize {
        for y in 0..8usize {
            let expected = if y / 2 == x { MOTORWAY_RISING } else { " " };
            assert_eq!(m.data[x][y], expected, "cell {} {}", x, y);
        }
    }
    let d = m.with_decoration(scenario_box().dim_mm[0]);
    assert!(d.is_decorated);
    let g = MOTORWAY_RISING;
    let expected = format!(
        "╔════════╗\n║      {g}{g}║\n║    N{g}  ║\n║  {g}{g}⇯   ║\n║{g}{g}      ║\n╚════════╝\n"
    );
    assert_eq!(d.legend, "├────────┤ 1380 m");
    assert_eq!(d.render(), format!("{expected}├────────┤ 1380 m\n"));
    assert_eq!(d.render(), format!("{expected}├────────┤ 1380 m\n"));
    let b = scenario_box();
    assert_eq!(scale_legend(b.dim_mm[0], 8), "├────────┤ 1380 m");
    assert_eq!(m.render_to_text(true, b.dim_mm[0]), format!("{expected}├────────┤ 1380 m\n"));
    assert_eq!(m.render_to_text(false, b.dim_mm[0]), m.render());
}

#[test]
fn ways_compare_by_importance() {
    let way = |pairs: &[(&str, &str)]| Way { id: 1, nodes: vec![], tags: tags(pairs) };
    let motorway = way(&[("highway", "motorway")]);
    let path = way(&[("highway", "path")]);
    let river = way(&[("waterway", "river")]);
    let untyped = way(&[("name", "x")]);
    assert_eq!(motorway.compare(&path), Ok(Ordering::Less));
    assert_eq!(river.compare(&path), Ok(Ordering::Greater));
    assert_eq!(path.compare(&way(&[("highway", "path")])), Ok(Ordering::Equal));
    assert_eq!(untyped.compare(&motorway), Ok(Ordering::Less));
    assert_eq!(motorway.compare(&untyped), Ok(Ordering::Greater));
    assert_eq!(untyped.compare(&untyped), Ok(Ordering::Equal));
}

#[test]
fn lone_nodes_are_kept_apart_and_not_drawn() {
    let with = MapGenerator::from_elements(&scenario_elements(true), scenario_box(), 4);
    let without = MapGenerator::from_elements(&scenario_elements(false), scenario_box(), 4);
    assert_eq!(with.lone_nodes.len(), 1);
    assert_eq!(with.lone_nodes[0], Node { id: 3, lat: 450050000, lon: 40020000, way_type: None });
    assert_eq!(without.lone_nodes.len(), 0);
    assert_eq!(with.generate_ascii_map().data, without.generate_ascii_map().data);
}

#[test]
fn a_node_belongs_to_one_way_only() {
    let es = vec![
        Element::Node { id: 1, lat: 0, lon: 0 },
        Element::Node { id: 2, lat: 100, lon: 100 },
        Element::Way { id: 10, tags: tags(&[("highway", "primary")]), node_ids: vec![1, 2] },
        Element::Way { id: 11, tags: tags(&[("waterway", "river")]), node_ids: vec![2, 7] },
    ];
    let g = MapGenerator::from_elements(&es, scenario_box(), 2);
    assert_eq!(g.ways.len(), 2);
    assert_eq!(g.ways[0].nodes.len(), 4);
    assert_eq!(g.ways[0].nodes[0].way_type, Some(2));
    assert_eq!(g.ways[0].nodes[1], Node { id: 0, lat: 33, lon: 33, way_type: Some(2) });
    assert_eq!(g.ways[1].nodes.len(), 0);
    assert_eq!(g.ways[1].id, 11);
    assert!(g.lone_nodes.is_empty());
}

#[test]
fn interpolation_adds_n_nodes_per_gap() {
    let node = |id: u64, lat: i64, lon: i64| Node { id, lat, lon, way_type: Some(6) };
    let mut w = Way { id: 1, nodes: vec![node(1, 0, 0), node(2, 100, 50), node(3, 100, -50)], tags: vec![] };
    w.interpolate_nodes(4);
    assert_eq!(w.nodes.len(), 3 + 4 * 2);
    let coords: Vec<(i64, i64)> = w.nodes.iter().map(|n| (n.lat, n.lon)).collect();
    assert_eq!(
        coords,
        vec![(0, 0), (20, 10), (40, 20), (60, 30), (80, 40), (100, 50), (100, 30), (100, 10), (100, -10), (100, -30), (100, -50)]
    );
    assert!(w.nodes[1..5].iter().all(|n| n.id == 0 && n.way_type == Some(6)));

    let mut single = Way { id: 2, nodes: vec![node(1, 5, 5)], tags: vec![] };
    single.interpolate_nodes(10);
    assert_eq!(single.nodes.len(), 1);
    let mut empty = Way { id: 3, nodes: vec![], tags: vec![] };
    empty.interpolate_nodes(10);
    assert_eq!(empty.nodes.len(), 0);
}

#[test]
fn projection_is_half_open() {
    let b = scenario_box();
    assert_eq!(project_node(&b, 4, b.coo[0], b.coo[1]), Some((0, 0)));
    assert_eq!(project_node(&b, 4, b.coo[2], b.coo[3]), None);
    assert_eq!(project_node(&b, 4, b.coo[2], b.coo[1]), None);
    assert_eq!(project_node(&b, 4, b.coo[2] - 1, b.coo[3] - 1), Some((3, 3)));
    assert_eq!(project_node(&b, 4, b.coo[0] - 1, b.coo[1]), None);
    assert_eq!(project_node(&b, 4, 450050000, 40050000), Some((2, 2)));
}

#[test]
fn way_type_comes_from_highway_then_waterway() {
    let w = Way { id: 1, nodes: vec![], tags: tags(&[("name", "A"), ("waterway", "canal"), ("highway", "path")]) };
    assert_eq!(w.way_type(), Some("path".to_string()));
    assert_eq!(w.way_index(), Some(25));
    let w = Way { id: 1, nodes: vec![], tags: tags(&[("waterway", "canal")]) };
    assert_eq!(w.way_index(), Some(30));
    let w = Way { id: 1, nodes: vec![], tags: tags(&[("highway", "proposed")]) };
    assert_eq!(w.way_type(), Some("proposed".to_string()));
    assert_eq!(w.way_index(), None);
    let w = Way { id: 1, nodes: vec![], tags: vec![] };
    assert_eq!(w.way_type(), None);
}

#[test]
fn vector_orientation_buckets() {
    assert_eq!(orientation_of_vector(0, 0), 0);
    assert_eq!(orientation_of_vector(0, 5), 0);
    assert_eq!(orientation_of_vector(1, 10), 0);
    assert_eq!(orientation_of_vector(1, 1), 1);
    assert_eq!(orientation_of_vector(-3, -3), 1);
    assert_eq!(orientation_of_vector(1, -1), 3);
    assert_eq!(orientation_of_vector(10, 1), 2);
    assert_eq!(orientation_of_vector(5, 0), 2);
    assert_eq!(orientation_of_vector(-5, 0), 2);
    assert_eq!(orientation_of_vector(42, 100), 1);
    assert_eq!(orientation_of_vector(42, -100), 3);
    assert_eq!(orientation_of_vector(41, 100), 0);
    assert_eq!(orientation_of_vector(242, 100), 2);
    assert_eq!(orientation_of_vector(241, 100), 1);
}

#[test]
fn coordinates_from_decimal_parts() {
    assert_eq!(coordinate_from_parts(true, 450123456, -7), Some(450123456));
    assert_eq!(coordinate_from_parts(true, 45, 0), Some(450000000));
    assert_eq!(coordinate_from_parts(false, 4, 0), Some(-40000000));
    assert_eq!(coordinate_from_parts(true, 123456789, -10), Some(123456));
    assert_eq!(coordinate_from_parts(true, 181, 0), None);
    assert_eq!(coordinate_from_parts(true, 18, 1), Some(1800000000));
    assert_eq!(coordinate_from_parts(true, 1, 30), None);
    assert_eq!(coordinate_from_parts(true, 0, 300), Some(0));
    assert_eq!(coordinate_from_parts(true, u64::MAX, -300), Some(0));
}

#[test]
fn json_records_are_read() {
    let data = r#"{"elements":[
        {"type":"node","id":1,"lat":45.0,"lon":4.0},
        {"type":"node","id":2,"lat":45.01,"lon":4.01},
        {"type":"node","id":3,"lat":95.0,"lon":4.0},
        {"type":"node","id":4,"lat":45.005,"lon":4.002},
        {"type":"relation","id":5},
        {"type":"way","id":10,"nodes":[1,2],"tags":{"highway":"motorway","lanes":"2"}}
    ]}"#;
    let es = elements_from_json(data).unwrap();
    assert_eq!(es.len(), 4);
    match &es[1] {
        Element::Node { id, lat, lon } => assert_eq!((*id, *lat, *lon), (2, 450100000, 40100000)),
        _ => panic!("expected a node"),
    }
    match &es[3] {
        Element::Way { id, tags, node_ids } => {
            assert_eq!(*id, 10);
            assert_eq!(node_ids, &vec![1, 2]);
            assert!(tags.contains(&("highway".to_string(), "motorway".to_string())));
            assert!(tags.contains(&("lanes".to_string(), "2".to_string())));
        },
        _ => panic!("expected a way"),
    }
    assert!(elements_from_json("not json").is_none());

    let g = MapGenerator::from(data.to_string(), scenario_box()).unwrap();
    assert_eq!(g.display_height, 60);
    assert_eq!(g.ways.len(), 1);
    assert_eq!(g.ways[0].nodes.len(), 2 + 60);
    assert_eq!(g.lone_nodes.len(), 1);
    assert!(MapGenerator::from("{".to_string(), scenario_box()).is_none());
}

#[test]
fn set_size_then_draw() {
    let mut g = MapGenerator::from_elements(&scenario_elements(false), scenario_box(), 4);
    g.set_size(2);
    let m = g.generate_ascii_map();
    assert_eq!(m.height, 2);
    assert_eq!(m.width, 4);
}

#[test]
fn geocoder_answer_gives_a_normalized_box() {
    assert_eq!(coordinate_from_text("48.8155755"), Some(488155755));
    assert_eq!(coordinate_from_text("-0.5"), Some(-5000000));
    assert_eq!(coordinate_from_text("abc"), None);
    assert_eq!(coordinate_from_text("200"), None);
    let answer = r#"[{"place_id":1,"boundingbox":["48.8155755","48.9021560","2.2241220","2.4697602"]}]"#;
    let b = nominatim_box(answer).unwrap();
    let expected = BoundingBox::new(488155755, 22241220, 489021560, 24697602);
    assert_eq!(b.coo, expected.coo);
    assert_eq!(b.dim_deg, expected.dim_deg);
    assert!(b.coo[0] >= 488155755 && b.coo[2] <= 489021560);
    assert!(b.coo[1] >= 22241220 && b.coo[3] <= 24697602);
    assert!(nominatim_box("[]").is_none());
    assert!(nominatim_box(r#"[{"boundingbox":["1","0","2","3"]}]"#).is_none());
    assert!(nominatim_box("oops").is_none());
}

#[test]
fn overlong_digit_runs_are_not_parsed() {
    let long_fraction = format!("0.{}", "0".repeat(32769));
    assert_eq!(coordinate_from_text(&long_fraction), None);
    let data = format!("{{\"elements\":[{{\"type\":\"node\",\"id\":1,\"lat\":{},\"lon\":4.0}}]}}", long_fraction);
    assert!(elements_from_json(&data).is_none());
    assert!(MapGenerator::from(data, scenario_box()).is_none());
    let ok_fraction = format!("0.{}", "0".repeat(100));
    assert_eq!(coordinate_from_text(&ok_fraction), Some(0));
}

#[test]
fn tags_with_non_string_values_are_left_out() {
    let data = r#"{"elements":[{"type":"way","id":7,"nodes":[1,"x",2.5,3],"tags":{"highway":"path","lanes":2}}]}"#;
    let es = elements_from_json(data).unwrap();
    match &es[0] {
        Element::Way { id, tags, node_ids } => {
            assert_eq!(*id, 7);
            assert_eq!(tags, &vec![("highway".to_string(), "path".to_string())]);
            assert_eq!(node_ids, &vec![1, 3]);
        },
        _ => panic!("expected a way"),
    }
}

#[test]
fn geocoder_document_gives_its_box() {
    let corners = ["45.0", "45.01", "4.0", "4.01"].iter().map(|c| Json::Str(c.to_string())).collect();
    let doc = Json::Array(vec![Json::Object(vec![("boundingbox".to_string(), Json::Array(corners))])]);
    let b = box_from_doc(&doc).unwrap();
    assert_eq!(b.coo, scenario_box().coo);
    assert_eq!(b.dim_deg, scenario_box().dim_deg);
    let reversed = ["45.01", "45.0", "4.0", "4.01"].iter().map(|c| Json::Str(c.to_string())).collect();
    let bad = Json::Array(vec![Json::Object(vec![("boundingbox".to_string(), Json::Array(reversed))])]);
    assert!(box_from_doc(&bad).is_none());
    assert!(box_from_doc(&Json::Null).is_none());
    assert!(nominatim_box(r#"[{"boundingbox":[45.0,45.01,4.0,4.01]}]"#).is_none());
}
