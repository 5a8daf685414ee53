use rustreet::ascii_map::{scale_legend, AsciiMap};
use rustreet::text::{coordinate, decimal, remove_newlines};

fn grid(rows: &[&[&str]]) -> Vec<Vec<String>> {
    rows.iter().map(|r| r.iter().map(|c| c.to_string()).collect()).collect()
}

#[test]
fn from_reads_height_and_width() {
    let m = AsciiMap::from(grid(&[&["a", "b", "c"], &["d", "e", "f"]]));
    assert_eq!((m.height, m.width, m.is_decorated), (2, 3, false));
    let e = AsciiMap::from(Vec::new());
    assert_eq!((e.height, e.width), (0, 0));
}

#[test]
fn double_repeats_each_cell() {
    let mut m = AsciiMap::from(grid(&[&["a", "b"], &["c", "d"]]));
    m.double();
    assert_eq!(m.width, 4);
    assert_eq!(m.data, grid(&[&["a", "a", "b", "b"], &["c", "c", "d", "d"]]));
}

#[test]
fn decoration_frames_and_marks_north() {
    let m = AsciiMap::from(grid(&[
        &["0", "0", "0", "0"],
        &["1", "1", "1", "1"],
        &["2", "2", "2", "2"],
        &["3", "3", "3", "3"],
    ]));
    let d = m.with_decoration(1105740);
    assert_eq!((d.height, d.width, d.is_decorated), (6, 6, true));
    let framed = "╔════╗\n║3333║\n║N222║\n║⇯111║\n║0000║\n╚════╝\n";
    assert_eq!(d.legend, "├────────┤ 2760 m");
    assert_eq!(d.render(), format!("{framed}├────────┤ 2760 m\n"));
    assert_eq!(m.render_to_text(true, 1105740), format!("{framed}├────────┤ 2760 m\n"));
    assert_eq!(m.render_to_text(false, 1105740), "3333\n2222\n1111\n0000\n");
}

#[test]
fn render_prints_north_first() {
    let m = AsciiMap::from(grid(&[&["s", "t"], &["n", "o"]]));
    assert_eq!(m.render(), "no\nst\n");
}

#[test]
fn scale_legend_in_metres_or_kilometres() {
    assert_eq!(scale_legend(1105740, 60), "├────────┤ 180 m");
    assert_eq!(scale_legend(1105740, 4), "├────────┤ 2760 m");
    assert_eq!(scale_legend(100_000_000, 10), "├────────┤ 100 km");
    assert_eq!(scale_legend(9_999_999, 10), "├────────┤ 10000 m");
    assert_eq!(scale_legend(0, 10), "├────────┤ 0 m");
}

#[test]
fn decimal_and_coordinate_text() {
    assert_eq!(decimal(0), "0");
    assert_eq!(decimal(30), "30");
    assert_eq!(decimal(18446744073709551615), "18446744073709551615");
    assert_eq!(coordinate(450100000), "45.01");
    assert_eq!(coordinate(-40000000), "-4");
    assert_eq!(coordinate(5), "0.0000005");
    assert_eq!(coordinate(0), "0");
    assert_eq!(coordinate(-1800000000), "-180");
    assert_eq!(coordinate(40000335), "4.0000335");
}

#[test]
fn newlines_are_removed() {
    assert_eq!(remove_newlines("a\nb\n\nc⇗\n"), "abc⇗");
    assert_eq!(remove_newlines(""), "");
}

#[test]
fn decoration_of_a_narrow_map() {
    let m = AsciiMap::from(grid(&[&["a", "b", "c"], &["d", "e", "f"]]));
    let d = m.with_decoration(0);
    assert_eq!((d.height, d.width), (4, 5));
    assert_eq!(d.render(), "N═══╗\n⇯def║\n║abc║\n╚═══╝\n├────────┤ 0 m\n");
}
