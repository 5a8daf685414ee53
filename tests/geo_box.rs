use rustreet::geo::BoundingBox;

fn sample() -> BoundingBox {
    BoundingBox::new(450000000, 40000000, 450100000, 40100000)
}

#[test]
fn new_box_is_normalized_to_a_square() {
    let b = sample();
    assert_eq!(b.coo, [450000000, 40000335, 450100000, 40099664]);
    assert_eq!(b.dim_deg, [100000, 99329]);
    assert_eq!(b.dim_mm, [1105740, 1105730]);
}

#[test]
fn normalizing_twice_changes_nothing() {
    let b = sample();
    let mut c = b;
    c.resize();
    assert_eq!(c.coo, b.coo);
    assert_eq!(c.dim_deg, b.dim_deg);
    assert_eq!(c.dim_mm, b.dim_mm);
}

#[test]
fn zoom_keeps_the_box_square() {
    let mut b = sample();
    b.zoom(2000);
    assert_eq!(b.coo, [450025000, 40025167, 450075000, 40074831]);
    assert_eq!(b.dim_deg, [50000, 49664]);
    assert_eq!(b.dim_mm, [552870, 552859]);
    assert!((b.dim_mm[0] - b.dim_mm[1]).abs() <= 12);
    let mut again = b;
    again.resize();
    assert_eq!(again.coo, b.coo);
}

#[test]
fn zoom_out_that_leaves_the_globe_is_refused() {
    let mut b = BoundingBox::new(-900000000, -1800000000, 900000000, 1800000000);
    let before = b.coo;
    b.zoom(500);
    assert_eq!(b.coo, before);
}

#[test]
fn translate_moves_then_normalizes() {
    let mut b = sample();
    b.translate([1000, 2000]);
    assert_eq!(b.coo, [450001000, 40002335, 450101000, 40101664]);
    assert_eq!(b.dim_deg, [100000, 99329]);
}

#[test]
fn compute_size_derives_spans() {
    let mut b = sample();
    b.coo = [0, 0, 200000, 100000];
    b.compute_size();
    assert_eq!(b.dim_deg, [200000, 100000]);
    assert_eq!(b.dim_mm[0], 2211480);
}

#[test]
fn tall_box_shrinks_its_latitude_side() {
    let b = BoundingBox::new(0, 0, 300000, 100000);
    assert_eq!(b.dim_deg[0], 100674);
    assert!(b.coo[0] > 0 && b.coo[2] < 300000);
    assert_eq!(b.coo[1], 0);
}

#[test]
fn tall_boxes_up_to_ninety_degrees_are_squared() {
    let b = BoundingBox::new(-400000000, 0, 400000000, 100000000);
    assert_eq!(b.coo, [-8741371, 41313165, 8741370, 58686834]);
    assert_eq!(b.dim_mm, [193313660, 193313656]);
    let c = BoundingBox::new(-450000000, 0, 440000000, 1000000000);
    assert_eq!(c.coo, [-13796216, 491258611, 3796215, 508741388]);
    assert!((c.dim_mm[0] - c.dim_mm[1]).abs() <= 12);
}
