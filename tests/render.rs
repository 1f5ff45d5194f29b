use goban_svg::board::{replay, Board, Markup, MoveRecord};
use goban_svg::layout::Layout;
use goban_svg::render::{gradient_def, render, Diagram};
use goban_svg::style::{Def, GobanStyle, Node, Value};
use goban_svg::{Point, StoneColor};

fn pt(x: usize, y: usize) -> Point {
    Point { x, y }
}

fn attr<'a>(n: &'a Node, key: &str) -> Option<&'a Value> {
    n.attrs.iter().find(|(k, _)| k == key).map(|(_, v)| v)
}

fn draw(b: &Board, s: &GobanStyle) -> Diagram {
    let l = Layout::new(b.width, b.height, 100, 100).unwrap();
    render(b, s, &l).unwrap()
}

fn has_gradient(d: &Diagram, id: &str) -> bool {
    d.defs.iter().any(|x| match x {
        Def::Built(n) => n.name == "radialGradient" && attr(n, "id") == Some(&Value::Text(id.to_string())),
        _ => false,
    })
}

#[test]
fn one_black_stone_diagram() {
    let b = replay(19, 19, &vec![MoveRecord::Placement(StoneColor::Black, pt(3, 3))], 1, 1, vec![]).unwrap();
    let d = draw(&b, &GobanStyle::default());
    assert_eq!(d.stones.children.len(), 1);
    let stone = &d.stones.children[0];
    assert_eq!(stone.name, "circle");
    assert_eq!(attr(stone, "cx"), Some(&Value::Int(400)));
    assert_eq!(attr(stone, "cy"), Some(&Value::Int(400)));
    assert!(d.markup.children.is_empty());
    assert!(d.selected.children.is_empty());
    assert!(d.dimmed.children.is_empty());
    assert_eq!(d.labels.children.len(), 1);
    assert_eq!(d.labels.children[0].content, Some(Value::Int(1)));
    assert_eq!(d.grid.children.len(), 38);
    assert_eq!(d.hoshi.children.len(), 9);
    assert_eq!((d.width, d.height), (2000, 2000));
}

#[test]
fn unset_fill_uses_gradient() {
    let mut b = Board::new(9, 9).unwrap();
    b.place(StoneColor::Black, pt(2, 2), None).unwrap();
    let d = draw(&b, &GobanStyle::default());
    let stone = &d.stones.children[0];
    assert_eq!(attr(stone, "fill"), Some(&Value::Text("url(#black-stone-fill)".to_string())));
    assert!(has_gradient(&d, "black-stone-fill"));
}

#[test]
fn set_fill_is_used_literally() {
    let mut b = Board::new(9, 9).unwrap();
    b.place(StoneColor::Black, pt(2, 2), None).unwrap();
    b.place(StoneColor::White, pt(3, 2), None).unwrap();
    let mut s = GobanStyle::default();
    s.black_stone_fill = Some("#222".to_string());
    s.black_stone_stroke = Some("red".to_string());
    let d = draw(&b, &s);
    assert_eq!(attr(&d.stones.children[0], "fill"), Some(&Value::Text("#222".to_string())));
    assert_eq!(attr(&d.stones.children[0], "stroke"), Some(&Value::Text("red".to_string())));
    assert_eq!(attr(&d.stones.children[1], "fill"), Some(&Value::Text("url(#white-stone-fill)".to_string())));
    assert_eq!(attr(&d.stones.children[1], "stroke"), Some(&Value::Text("black".to_string())));
    assert!(!has_gradient(&d, "black-stone-fill"));
    assert!(has_gradient(&d, "white-stone-fill"));
}

#[test]
fn labels_follow_the_range() {
    let records = vec![
        MoveRecord::Placement(StoneColor::Black, pt(0, 0)),
        MoveRecord::Placement(StoneColor::White, pt(1, 1)),
        MoveRecord::Placement(StoneColor::Black, pt(2, 2)),
    ];
    let b = replay(9, 9, &records, 2, 3, vec![]).unwrap();
    let d = draw(&b, &GobanStyle::default());
    assert_eq!(d.stones.children.len(), 3);
    let numbers: Vec<Value> = d.labels.children.iter().map(|n| n.content.clone().unwrap()).collect();
    assert_eq!(numbers, vec![Value::Int(2), Value::Int(3)]);
    assert_eq!(attr(&d.labels.children[0], "x"), Some(&Value::Int(200)));
    assert_eq!(attr(&d.labels.children[0], "fill"), Some(&Value::Text("black".to_string())));
}

#[test]
fn rendering_twice_is_identical() {
    let records = vec![
        MoveRecord::Placement(StoneColor::Black, pt(3, 3)),
        MoveRecord::Placement(StoneColor::White, pt(4, 3)),
    ];
    let marks = vec![(pt(5, 5), Markup::Triangle), (pt(3, 3), Markup::Selected)];
    let first = replay(9, 9, &records, 1, 2, marks.clone()).unwrap();
    let second = replay(9, 9, &records, 1, 2, marks).unwrap();
    let a = format!("{:?}", draw(&first, &GobanStyle::default()));
    let b = format!("{:?}", draw(&second, &GobanStyle::default()));
    assert_eq!(a, b);
}

#[test]
fn numbered_stone_hides_shape_markup() {
    let records = vec![
        MoveRecord::Placement(StoneColor::Black, pt(3, 3)),
        MoveRecord::Placement(StoneColor::White, pt(4, 4)),
    ];
    let marks = vec![
        (pt(3, 3), Markup::Triangle),
        (pt(4, 4), Markup::Circle),
        (pt(5, 5), Markup::Label("A".to_string())),
    ];
    let b = replay(9, 9, &records, 2, 2, marks).unwrap();
    let d = draw(&b, &GobanStyle::default());
    let names: Vec<&str> = d.markup.children.iter().map(|n| n.name.as_str()).collect();
    assert_eq!(names, vec!["polygon", "text"]);
    assert_eq!(attr(&d.markup.children[0], "stroke"), Some(&Value::Text("white".to_string())));
    assert_eq!(d.markup.children[1].content, Some(Value::Text("A".to_string())));
    assert_eq!(d.labels.children.len(), 1);
}

#[test]
fn lines_arrows_and_overlays() {
    let records = vec![MoveRecord::Placement(StoneColor::White, pt(1, 1))];
    let marks = vec![
        (pt(0, 0), Markup::Arrow(pt(1, 0))),
        (pt(0, 1), Markup::Line(pt(0, 2))),
        (pt(1, 1), Markup::Selected),
        (pt(2, 2), Markup::Dimmed),
        (pt(2, 0), Markup::Cross),
        (pt(2, 1), Markup::Square),
    ];
    let b = replay(5, 5, &records, 1, 1, marks).unwrap();
    let d = draw(&b, &GobanStyle::default());
    let arrow = &d.markup.children[0];
    assert_eq!(arrow.name, "line");
    assert_eq!(attr(arrow, "x2"), Some(&Value::Int(200)));
    assert_eq!(attr(arrow, "marker-end"), Some(&Value::Text("url(#arrowhead)".to_string())));
    let line = &d.markup.children[2];
    assert_eq!(attr(line, "y2"), Some(&Value::Int(300)));
    assert_eq!(attr(line, "marker-end"), Some(&Value::Text("url(#linehead)".to_string())));
    assert_eq!(d.markup.children[1].name, "g");
    assert_eq!(d.markup.children[1].children.len(), 2);
    assert_eq!(d.markup.children[3].name, "rect");
    let sel = &d.selected.children[0];
    assert_eq!(attr(sel, "fill"), Some(&Value::Text("blue".to_string())));
    assert_eq!(attr(sel, "x"), Some(&Value::Int(150)));
    assert_eq!(d.dimmed.children.len(), 1);
    assert_eq!(attr(&d.dimmed.children[0], "fill"), Some(&Value::Text("#dcb35c".to_string())));
}

#[test]
fn background_and_grid() {
    let b = Board::new(7, 5).unwrap();
    let d = draw(&b, &GobanStyle::default());
    assert_eq!((d.width, d.height), (800, 600));
    assert_eq!(attr(&d.background, "width"), Some(&Value::Int(800)));
    assert_eq!(d.grid.children.len(), 12);
    assert!(d.hoshi.children.is_empty());
    let last_row = &d.grid.children[11];
    assert_eq!(attr(last_row, "y1"), Some(&Value::Int(500)));
    assert_eq!(attr(last_row, "x2"), Some(&Value::Int(700)));
}

#[test]
fn gradient_ids() {
    match gradient_def(StoneColor::White) {
        Def::Built(n) => assert_eq!(attr(&n, "id"), Some(&Value::Text("white-stone-fill".to_string()))),
        _ => panic!("expected a built gradient"),
    }
}

#[test]
fn malformed_style_defs_fail_render() {
    let b = Board::new(9, 9).unwrap();
    let mut s = GobanStyle::default();
    s.defs = Some("<oops".to_string());
    let l = Layout::new(9, 9, 100, 100).unwrap();
    assert_eq!(render(&b, &s, &l).unwrap_err(), goban_svg::MakeSvgError::StyleDefError);
}

#[test]
fn oversized_style_width_is_rejected() {
    let b = Board::new(9, 9).unwrap();
    let mut s = GobanStyle::default();
    s.line_width = goban_svg::render::MAX_WIDTH + 1;
    let l = Layout::new(9, 9, 100, 100).unwrap();
    assert_eq!(render(&b, &s, &l).unwrap_err(), goban_svg::MakeSvgError::InvalidStyleWidth);
}

#[test]
fn captured_point_takes_empty_colors() {
    let records = vec![
        MoveRecord::Placement(StoneColor::White, pt(1, 1)),
        MoveRecord::Placement(StoneColor::Black, pt(1, 0)),
        MoveRecord::Placement(StoneColor::Black, pt(0, 1)),
        MoveRecord::Placement(StoneColor::Black, pt(2, 1)),
        MoveRecord::Placement(StoneColor::Black, pt(1, 2)),
    ];
    let marks = vec![(pt(1, 1), Markup::Circle), (pt(1, 1), Markup::Selected)];
    let b = replay(9, 9, &records, 1, 5, marks).unwrap();
    let s = GobanStyle::default();
    assert_eq!(b.stone_at(pt(1, 1)), None);
    assert_eq!(s.markup_color(b.stone_at(pt(1, 1))), s.empty_markup_color.as_str());
    let d = draw(&b, &s);
    assert_eq!(attr(&d.markup.children[0], "stroke"), Some(&Value::Text("black".to_string())));
    assert_eq!(attr(&d.selected.children[0], "fill"), Some(&Value::Text("green".to_string())));
}

#[test]
fn layers_in_drawing_order() {
    let b = Board::new(9, 9).unwrap();
    let d = draw(&b, &GobanStyle::default());
    let (defs, layers) = d.into_parts();
    assert_eq!(defs.len(), 4);
    assert_eq!(layers.len(), 8);
    assert_eq!(layers[0].name, "rect");
    assert_eq!(layers[1].children.len(), 18);
    assert_eq!(layers[2].children.len(), 5);
}
