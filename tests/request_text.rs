use rustreet::api_wrapper;
use rustreet::geo::BoundingBox;
use rustreet::overpass::RequestBuilder;

fn bbox() -> [String; 4] {
    ["45.0".to_string(), "4.0".to_string(), "45.01".to_string(), "4.01".to_string()]
}

#[test]
fn overpass_request_at_each_level() {
    let mut r = RequestBuilder::new(bbox());
    r.set_details_level(5);
    let b = "45.0,4.0,45.01,4.01";
    let expected = format!(
        "[out:json][timeout:30];\n((way[highway=trunk]({b});\nway[waterway=riverbank]({b});\nway[highway=motorway]({b});\n);\nnode(w);\n);\nout;\n"
    );
    assert_eq!(r.get_request_txt(Some(true)), expected);
    assert_eq!(r.get_request_txt(None), expected.replace('\n', ""));
    assert_eq!(r.get_request_txt(Some(false)), expected.replace('\n', ""));
    r.set_details_level(6);
    assert_eq!(
        r.get_request_txt(Some(true)),
        format!("[out:json][timeout:30];\n((way[highway=motorway]({b});\n);\nnode(w);\n);\nout;\n")
    );
    r.set_details_level(0);
    let full = r.get_request_txt(Some(true));
    assert_eq!(full.matches("way[highway=").count(), 7);
    assert_eq!(full.matches("way[waterway=").count(), 6);
    assert!(full.contains("way[highway=residential]") && full.contains("way[waterway=ditch]"));
}

#[test]
fn overpass_building_request() {
    let mut r = RequestBuilder::new(bbox());
    r.get_building(true);
    assert_eq!(r.get_request_txt(Some(true)), "[out:json][timeout:30];\nway[building](45.0,4.0,45.01,4.01); out center;\n");
    assert_eq!(r.get_request_txt(None), "[out:json][timeout:30];way[building](45.0,4.0,45.01,4.01); out center;");
}

#[test]
fn box_request_lists_every_level() {
    let b = BoundingBox::new(450000000, 40000000, 450100000, 40100000);
    let mut r = api_wrapper::RequestBuilder::new(b);
    assert_eq!(api_wrapper::RequestBuilder::get_lvl_details(1105740), 0);
    let text = r.get_request_txt(Some(true));
    assert!(text.starts_with("[out:json][timeout:30];\n(\n(\nway[highway=residential](45,4.0000335,45.01,4.0099664);\n"));
    assert!(text.ends_with("way[highway=motorway](45,4.0000335,45.01,4.0099664);\n);\nnode(w);\n);\nout;\n"));
    assert!(!r.get_request_txt(None).contains('\n'));
    r.get_building(true);
    assert_eq!(
        r.get_request_txt(None),
        "[out:json][timeout:30];way[building](45,4.0000335,45.01,4.0099664);+out+center;"
    );
}
