use goban_svg::style::{collect_defs, Def, GobanStyle, Value};
use goban_svg::{MakeSvgError, StoneColor};

fn first_id(d: &Def) -> String {
    match d {
        Def::Built(n) => match &n.attrs[0].1 {
            Value::Text(t) => t.clone(),
            _ => String::new(),
        },
        Def::Parsed(_) => String::new(),
    }
}

#[test]
fn accessors_follow_the_fields() {
    let mut s = GobanStyle::default();
    s.black_stone_fill = Some("#111".to_string());
    s.white_stone_stroke = Some(String::new());
    assert_eq!(s.stone_fill(StoneColor::Black), Some("#111"));
    assert_eq!(s.stone_fill(StoneColor::White), None);
    assert_eq!(s.stone_stroke(StoneColor::White), Some(""));
    assert_eq!(s.stone_stroke(StoneColor::Black), None);
    assert_eq!(s.line_color(), "black");
    assert_eq!(s.line_width(), 30);
    assert_eq!(s.hoshi_radius(), 90);
    assert_eq!(s.markup_stroke_width(), 50);
    assert_eq!(s.background_fill(), "#dcb35c");
    assert_eq!(s.label_color(), "#4e4e4e");
}

#[test]
fn empty_point_colors() {
    let s = GobanStyle::default();
    assert_eq!(s.markup_color(None), "black");
    assert_eq!(s.markup_color(Some(StoneColor::Black)), "white");
    assert_eq!(s.markup_color(Some(StoneColor::White)), "black");
    assert_eq!(s.selected_color(None), "green");
    assert_eq!(s.selected_color(Some(StoneColor::Black)), "red");
    assert_eq!(s.selected_color(Some(StoneColor::White)), "blue");
}

#[test]
fn base_defs_are_two_markers() {
    let s = GobanStyle::default();
    let d = s.defs().unwrap();
    assert_eq!(d.len(), 2);
    assert_eq!(first_id(&d[0]), "linehead");
    assert_eq!(first_id(&d[1]), "arrowhead");
    match &d[1] {
        Def::Built(n) => assert_eq!(n.children[0].name, "polygon"),
        _ => panic!("expected a built marker"),
    }
}

#[test]
fn extra_defs_are_parsed_and_appended() {
    let mut s = GobanStyle::default();
    s.defs = Some("<linearGradient id=\"a\"/><pattern id=\"b\"/>".to_string());
    let d = s.defs().unwrap();
    assert_eq!(d.len(), 4);
    match (&d[2], &d[3]) {
        (Def::Parsed(a), Def::Parsed(b)) => {
            assert_eq!(a.name(), "linearGradient");
            assert_eq!(a.attr("id"), Some("a"));
            assert_eq!(b.name(), "pattern");
        },
        _ => panic!("expected parsed definitions"),
    }
}

#[test]
fn malformed_extra_defs_fail() {
    let mut s = GobanStyle::default();
    s.defs = Some("<g><circle></g>".to_string());
    assert_eq!(s.defs().unwrap_err(), MakeSvgError::StyleDefError);
}

#[test]
fn collect_defs_cases() {
    assert_eq!(collect_defs(None).unwrap().len(), 2);
    let parsed: minidom::Element = "<svg xmlns=\"http://www.w3.org/2000/svg\"><g/></svg>".parse().unwrap();
    let kids: Vec<minidom::Element> = parsed.children().cloned().collect();
    assert_eq!(collect_defs(Some(Ok(kids))).unwrap().len(), 3);
    let bad = "<svg".parse::<minidom::Element>().unwrap_err();
    assert_eq!(collect_defs(Some(Err(bad))).unwrap_err(), MakeSvgError::StyleDefError);
}

fn int_attr(n: &goban_svg::style::Node, k: &str) -> Option<Value> {
    n.attrs.iter().find(|(a, _)| a == k).map(|(_, v)| v.clone())
}

#[test]
fn marker_geometry() {
    let s = GobanStyle::default();
    let d = s.defs().unwrap();
    match (&d[0], &d[1]) {
        (Def::Built(dot), Def::Built(arrow)) => {
            assert_eq!(int_attr(dot, "markerWidth"), Some(Value::Int(4)));
            assert_eq!(int_attr(dot, "refX"), Some(Value::Int(2)));
            assert_eq!(int_attr(&dot.children[0], "r"), Some(Value::Int(2)));
            assert_eq!(int_attr(arrow, "refY"), Some(Value::Milli(2500)));
            assert_eq!(int_attr(arrow, "orient"), Some(Value::Text("auto".to_string())));
            assert_eq!(
                int_attr(&arrow.children[0], "points"),
                Some(Value::MilliList(vec![0, 0, 7000, 2500, 0, 5000]))
            );
        },
        _ => panic!("expected built markers"),
    }
}

#[test]
fn defs_twice_are_equal() {
    let mut s = GobanStyle::default();
    s.defs = Some("<g id=\"x\"/>".to_string());
    assert_eq!(format!("{:?}", s.defs().unwrap()), format!("{:?}", s.defs().unwrap()));
}
