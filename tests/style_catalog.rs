use rustreet::style::{get_road_repr, get_way_index, get_way_types, orientation_index, str_equal};

#[test]
fn classify_known_and_unknown_types() {
    assert_eq!(get_way_index("motorway"), Some(0));
    assert_eq!(get_way_index("fish_pass"), Some(35));
    assert_eq!(get_way_index("residential"), Some(6));
    assert_eq!(get_way_index("river"), Some(26));
    assert_eq!(get_way_index("unknown_tag"), None);
    assert_eq!(get_way_index(""), None);
    assert_eq!(get_way_index("Motorway"), None);
}

#[test]
fn detail_level_zero_shows_major_types() {
    assert_eq!(get_way_types(0), vec!["motorway", "motorway_link", "trunk", "trunk_link", "river"]);
    assert_eq!(
        get_way_types(1),
        vec!["motorway", "motorway_link", "trunk", "trunk_link", "river", "primary", "primary_link", "riverbank", "canal"]
    );
}

#[test]
fn detail_levels_are_monotone() {
    for level in 0..6u8 {
        let lower = get_way_types(level);
        let upper = get_way_types(level + 1);
        for t in &lower {
            assert!(upper.contains(t), "level {} type {} missing above", level, t);
        }
        assert!(upper.len() > lower.len());
    }
    assert_eq!(get_way_types(6).len(), 34);
    assert_eq!(get_way_types(7), get_way_types(6));
    assert_eq!(get_way_types(255), get_way_types(6));
}

#[test]
fn every_angle_has_one_orientation() {
    let cases: [(u32, usize); 18] = [
        (0, 0), (224, 0), (225, 1), (450, 1), (674, 1), (675, 2), (900, 2), (1124, 2),
        (1125, 3), (1574, 3), (1575, 0), (1800, 0), (2024, 0), (2025, 1), (2475, 2),
        (2925, 3), (3375, 0), (3599, 0),
    ];
    for (angle, expected) in cases {
        assert_eq!(orientation_index(angle), expected, "angle {}", angle);
    }
    for angle in 0..3600u32 {
        assert!(orientation_index(angle) < 4);
    }
}

#[test]
fn road_glyphs_follow_family_and_orientation() {
    assert_eq!(get_road_repr(0, 450), "\x1b[93m⇗\x1b[0m");
    assert_eq!(get_road_repr(2, 0), "═");
    assert_eq!(get_road_repr(4, 900), "|");
    assert_eq!(get_road_repr(13, 1350), "\\");
    assert_eq!(get_road_repr(26, 2700), "\x1b[34m║\x1b[0m");
    assert_eq!(get_road_repr(35, 3000), "\x1b[34m\\\x1b[0m");
    assert_eq!(get_road_repr(36, 0), " ");
    assert_eq!(get_road_repr(1000, 900), " ");
}

#[test]
fn string_equality_by_characters() {
    assert!(str_equal("⇗a", "⇗a"));
    assert!(!str_equal("ab", "abc"));
    assert!(!str_equal("ab", "ac"));
    assert!(str_equal("", ""));
}
