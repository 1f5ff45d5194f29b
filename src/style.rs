//! The visual parameters of a diagram.
use vstd::prelude::*;
use vstd::string::*;

use crate::{MakeSvgError, StoneColor};

verus! {

/// The namespace of every element of the drawing.
pub const NAMESPACE: &'static str = "http://www.w3.org/2000/svg";

/// An attribute value or text content: a string, an integer, a number
/// given in thousandths, or a list of such numbers.
#[derive(Clone, Debug, PartialEq, Eq)]
pub enum Value {
    Text(String),
    Int(u64),
    Milli(u64),
    MilliList(Vec<u64>),
}

/// One element of the drawing: a name, its attributes in order, optional
/// text content, and its children.
#[derive(Debug)]
pub struct Node {
    pub name: String,
    pub attrs: Vec<(String, Value)>,
    pub content: Option<Value>,
    pub children: Vec<Node>,
}

/// An entry of the reusable-definitions region: one built here, or one parsed
/// from a style's extra definitions.
#[derive(Debug)]
pub enum Def {
    Built(Node),
    Parsed(minidom::Element),
}

#[verifier::external_type_specification]
#[verifier::external_body]
pub struct ExDomElement(minidom::Element);

#[verifier::external_type_specification]
#[verifier::external_body]
pub struct ExDomError(minidom::Error);

/// Whether the XML parser reads a root element from a text without error.
pub uninterp spec fn parses_as_element(s: Seq<char>) -> bool;

/// The number of child elements of the root element the XML parser reads
/// from a text.
pub uninterp spec fn child_count_of(s: Seq<char>) -> nat;

/// Relies on `<minidom::Element as FromStr>::from_str`, which reads the text
/// up to the end of its root element and fails when that part is not
/// well-formed; its outcome depends on the text alone. On success, relies on
/// `minidom::Element::children` for copies of the root's child elements, in
/// order.
#[verifier::external_body]
fn parse_children(s: &str) -> (r: Result<Vec<minidom::Element>, minidom::Error>)
    ensures
        r.is_ok() == parses_as_element(s@),
        r matches Ok(v) ==> v@.len() == child_count_of(s@),
{
    s.parse::<minidom::Element>().map(|e| e.children().cloned().collect())
}

/// The text wrapped round a style's extra definitions before parsing.
pub open spec fn wrapped_defs(s: Seq<char>) -> Seq<char> {
    "<svg xmlns=\"http://www.w3.org/2000/svg\">"@ + s + "</svg>"@
}

/// A text value.
pub fn text(s: &str) -> (r: Value)
    ensures
        r matches Value::Text(t) && t@ == s@,
{
    Value::Text(String::from_str(s))
}

/// A named attribute value.
pub fn attr(k: &str, v: Value) -> (r: (String, Value))
    ensures
        r.0@ == k@,
        r.1 == v,
{
    (String::from_str(k), v)
}

/// An element without attributes, content or children.
pub fn new_node(name: &str) -> (r: Node)
    ensures
        r.name@ == name@,
        r.attrs@.len() == 0,
        r.content is None,
        r.children@.len() == 0,
{
    Node { name: String::from_str(name), attrs: Vec::new(), content: None, children: Vec::new() }
}

/// The marker drawn at the end of a line: a dot of radius 2 in a 4 by 4 box.
pub fn linehead_marker() -> (r: Node)
    ensures
        is_linehead(r),
{
    let mut circle = new_node("circle");
    circle.attrs.push(attr("cx", Value::Int(2)));
    circle.attrs.push(attr("cy", Value::Int(2)));
    circle.attrs.push(attr("r", Value::Int(2)));
    let mut m = new_node("marker");
    m.attrs.push(attr("id", text("linehead")));
    m.attrs.push(attr("markerWidth", Value::Int(4)));
    m.attrs.push(attr("markerHeight", Value::Int(4)));
    m.attrs.push(attr("refX", Value::Int(2)));
    m.attrs.push(attr("refY", Value::Int(2)));
    m.children.push(circle);
    m
}

/// The marker drawn at the head of an arrow: a triangle 7 wide and 5 high.
pub fn arrowhead_marker() -> (r: Node)
    ensures
        is_arrowhead(r),
{
    let mut pts: Vec<u64> = Vec::new();
    pts.push(0);
    pts.push(0);
    pts.push(7000);
    pts.push(2500);
    pts.push(0);
    pts.push(5000);
    assert(pts@ =~= seq![0u64, 0u64, 7000u64, 2500u64, 0u64, 5000u64]);
    let mut polygon = new_node("polygon");
    polygon.attrs.push(attr("points", Value::MilliList(pts)));
    let mut m = new_node("marker");
    m.attrs.push(attr("id", text("arrowhead")));
    m.attrs.push(attr("markerWidth", Value::Int(7)));
    m.attrs.push(attr("markerHeight", Value::Int(5)));
    m.attrs.push(attr("refX", Value::Int(7)));
    m.attrs.push(attr("refY", Value::Milli(2500)));
    m.attrs.push(attr("orient", text("auto")));
    m.children.push(polygon);
    m
}

/// The constants a diagram is drawn with. Widths and radii are given in
/// thousandths of a board cell. An absent stone fill or stroke means that
/// the drawing supplies its own default.
#[derive(Clone, Debug)]
pub struct GobanStyle {
    pub line_color: String,
    pub line_width: u64,
    pub hoshi_radius: u64,
    pub background_fill: String,
    pub label_color: String,
    pub black_stone_fill: Option<String>,
    pub white_stone_fill: Option<String>,
    pub black_stone_stroke: Option<String>,
    pub white_stone_stroke: Option<String>,
    pub markup_stroke_width: u64,
    pub black_stone_markup_color: String,
    pub white_stone_markup_color: String,
    pub empty_markup_color: String,
    pub black_stone_selected_color: String,
    pub white_stone_selected_color: String,
    pub empty_selected_color: String,
    pub defs: Option<String>,
}

/// Attribute `k` of `n` is `key` with integer value `v`.
pub open spec fn attr_int(n: Node, k: int, key: Seq<char>, v: int) -> bool {
    0 <= k < n.attrs@.len() && n.attrs@[k].0@ == key && match n.attrs@[k].1 {
        Value::Int(x) => x == v,
        _ => false,
    }
}

/// Attribute `k` of `n` is `key` with a value of `v` thousandths.
pub open spec fn attr_milli(n: Node, k: int, key: Seq<char>, v: int) -> bool {
    0 <= k < n.attrs@.len() && n.attrs@[k].0@ == key && match n.attrs@[k].1 {
        Value::Milli(x) => x == v,
        _ => false,
    }
}

/// Attribute `k` of `n` is `key` with text `t`.
pub open spec fn attr_text(n: Node, k: int, key: Seq<char>, t: Seq<char>) -> bool {
    0 <= k < n.attrs@.len() && n.attrs@[k].0@ == key && match n.attrs@[k].1 {
        Value::Text(x) => x@ == t,
        _ => false,
    }
}

/// The marker drawn at the end of a line: a 4 by 4 box anchored at its
/// centre, holding a dot of radius 2 there.
pub open spec fn is_linehead(n: Node) -> bool {
    &&& n.name@ == "marker"@
    &&& n.attrs@.len() == 5
    &&& attr_text(n, 0, "id"@, "linehead"@)
    &&& attr_int(n, 1, "markerWidth"@, 4)
    &&& attr_int(n, 2, "markerHeight"@, 4)
    &&& attr_int(n, 3, "refX"@, 2)
    &&& attr_int(n, 4, "refY"@, 2)
    &&& n.content is None
    &&& n.children@.len() == 1
    &&& n.children@[0].name@ == "circle"@
    &&& n.children@[0].attrs@.len() == 3
    &&& attr_int(n.children@[0], 0, "cx"@, 2)
    &&& attr_int(n.children@[0], 1, "cy"@, 2)
    &&& attr_int(n.children@[0], 2, "r"@, 2)
    &&& n.children@[0].content is None
    &&& n.children@[0].children@.len() == 0
}

/// The marker drawn at the head of an arrow: a 7 by 5 box anchored at the
/// tip (7, 2.5) of a triangle with corners (0, 0), (7, 2.5) and (0, 5),
/// turned along the line.
pub open spec fn is_arrowhead(n: Node) -> bool {
    &&& n.name@ == "marker"@
    &&& n.attrs@.len() == 6
    &&& attr_text(n, 0, "id"@, "arrowhead"@)
    &&& attr_int(n, 1, "markerWidth"@, 7)
    &&& attr_int(n, 2, "markerHeight"@, 5)
    &&& attr_int(n, 3, "refX"@, 7)
    &&& attr_milli(n, 4, "refY"@, 2500)
    &&& attr_text(n, 5, "orient"@, "auto"@)
    &&& n.content is None
    &&& n.children@.len() == 1
    &&& n.children@[0].name@ == "polygon"@
    &&& n.children@[0].attrs@.len() == 1
    &&& n.children@[0].attrs@[0].0@ == "points"@
    &&& (match n.children@[0].attrs@[0].1 {
        Value::MilliList(v) => v@ == seq![0u64, 0u64, 7000u64, 2500u64, 0u64, 5000u64],
        _ => false,
    })
    &&& n.children@[0].content is None
    &&& n.children@[0].children@.len() == 0
}

pub open spec fn is_linehead_def(d: Def) -> bool {
    d matches Def::Built(n) && is_linehead(n)
}

pub open spec fn is_arrowhead_def(d: Def) -> bool {
    d matches Def::Built(n) && is_arrowhead(n)
}

/// Whether an optional text is the view of an optional string.
pub open spec fn opt_view(r: Option<&str>, s: Option<String>) -> bool {
    match (r, s) {
        (Some(a), Some(b)) => a@ == b@,
        (None, None) => true,
        _ => false,
    }
}

fn opt_str(s: &Option<String>) -> (r: Option<&str>)
    ensures
        opt_view(r, *s),
{
    match s {
        Some(t) => Some(t.as_str()),
        None => None,
    }
}

/// Builds the definitions from the parsed wrapper of a style's extra
/// definitions, if it has any: the line-end and arrowhead markers, then the
/// parsed elements in order. A parse failure is a `StyleDefError`.
pub fn collect_defs(extra: Option<Result<Vec<minidom::Element>, minidom::Error>>) -> (r: Result<
    Vec<Def>,
    MakeSvgError,
>)
    ensures
        r is Err <==> extra matches Some(Err(_)),
        r matches Err(e) ==> e == MakeSvgError::StyleDefError,
        r matches Ok(v) ==> {
            &&& v@.len() == 2 + match extra {
                Some(Ok(x)) => x@.len(),
                _ => 0,
            }
            &&& is_linehead_def(v@[0])
            &&& is_arrowhead_def(v@[1])
            &&& forall|k: int| 2 <= k < v@.len() ==> #[trigger] v@[k] is Parsed
            &&& extra matches Some(Ok(x)) ==> forall|k: int|
                0 <= k < x@.len() ==> #[trigger] v@[k + 2] == Def::Parsed(x@[k])
        },
{
    let mut v: Vec<Def> = Vec::new();
    v.push(Def::Built(linehead_marker()));
    v.push(Def::Built(arrowhead_marker()));
    match extra {
        None => Ok(v),
        Some(Err(_)) => Err(MakeSvgError::StyleDefError),
        Some(Ok(mut x)) => {
            let ghost all = x@;
            while x.len() > 0
                invariant
                    v@.len() >= 2,
                    v@.len() - 2 + x@.len() == all.len(),
                    x@ == all.subrange(v@.len() - 2, all.len() as int),
                    is_linehead_def(v@[0]),
                    is_arrowhead_def(v@[1]),
                    forall|k: int| 0 <= k < v@.len() - 2 ==> #[trigger] v@[k + 2] == Def::Parsed(all[k]),
                    forall|k: int| 2 <= k < v@.len() ==> #[trigger] v@[k] is Parsed,
                decreases x.len(),
            {
                let e = x.remove(0);
                v.push(Def::Parsed(e));
            }
            Ok(v)
        },
    }
}

impl GobanStyle {
    pub fn line_color(&self) -> (r: &str)
        ensures
            r@ == self.line_color@,
    {
        self.line_color.as_str()
    }

    pub fn line_width(&self) -> (r: u64)
        ensures
            r == self.line_width,
    {
        self.line_width
    }

    pub fn hoshi_radius(&self) -> (r: u64)
        ensures
            r == self.hoshi_radius,
    {
        self.hoshi_radius
    }

    pub fn background_fill(&self) -> (r: &str)
        ensures
            r@ == self.background_fill@,
    {
        self.background_fill.as_str()
    }

    pub fn label_color(&self) -> (r: &str)
        ensures
            r@ == self.label_color@,
    {
        self.label_color.as_str()
    }

    /// The fill configured for stones of a colour, if any.
    pub open spec fn fill_of(&self, c: StoneColor) -> Option<String> {
        match c {
            StoneColor::Black => self.black_stone_fill,
            StoneColor::White => self.white_stone_fill,
        }
    }

    /// The stroke configured for stones of a colour, if any.
    pub open spec fn stroke_of(&self, c: StoneColor) -> Option<String> {
        match c {
            StoneColor::Black => self.black_stone_stroke,
            StoneColor::White => self.white_stone_stroke,
        }
    }

    /// The markup colour over a stone of a colour, or over an empty point.
    pub open spec fn markup_color_of(&self, c: Option<StoneColor>) -> String {
        match c {
            Some(StoneColor::Black) => self.black_stone_markup_color,
            Some(StoneColor::White) => self.white_stone_markup_color,
            None => self.empty_markup_color,
        }
    }

    /// The selection colour over a stone of a colour, or over an empty point.
    pub open spec fn selected_color_of(&self, c: Option<StoneColor>) -> String {
        match c {
            Some(StoneColor::Black) => self.black_stone_selected_color,
            Some(StoneColor::White) => self.white_stone_selected_color,
            None => self.empty_selected_color,
        }
    }

    /// The configured fill of a colour's stones, or `None` when unset.
    pub fn stone_fill(&self, color: StoneColor) -> (r: Option<&str>)
        ensures
            opt_view(r, self.fill_of(color)),
    {
        match color {
            StoneColor::Black => opt_str(&self.black_stone_fill),
            StoneColor::White => opt_str(&self.white_stone_fill),
        }
    }

    /// The configured stroke of a colour's stones, or `None` when unset.
    pub fn stone_stroke(&self, color: StoneColor) -> (r: Option<&str>)
        ensures
            opt_view(r, self.stroke_of(color)),
    {
        match color {
            StoneColor::Black => opt_str(&self.black_stone_stroke),
            StoneColor::White => opt_str(&self.white_stone_stroke),
        }
    }

    /// The markup colour for a point with a stone of `color`, or for an
    /// empty point when `color` is `None`.
    pub fn markup_color(&self, color: Option<StoneColor>) -> (r: &str)
        ensures
            r@ == self.markup_color_of(color)@,
    {
        match color {
            Some(StoneColor::Black) => self.black_stone_markup_color.as_str(),
            Some(StoneColor::White) => self.white_stone_markup_color.as_str(),
            None => self.empty_markup_color.as_str(),
        }
    }

    pub fn markup_stroke_width(&self) -> (r: u64)
        ensures
            r == self.markup_stroke_width,
    {
        self.markup_stroke_width
    }

    /// The selection colour for a point with a stone of `color`, or for an
    /// empty point when `color` is `None`.
    pub fn selected_color(&self, color: Option<StoneColor>) -> (r: &str)
        ensures
            r@ == self.selected_color_of(color)@,
    {
        match color {
            Some(StoneColor::Black) => self.black_stone_selected_color.as_str(),
            Some(StoneColor::White) => self.white_stone_selected_color.as_str(),
            None => self.empty_selected_color.as_str(),
        }
    }

    /// The reusable definitions of a drawing: a dot marker for line ends,
    /// a triangle marker for arrowheads, then the elements of the style's
    /// extra definitions, if it has any. Extra definitions that are not
    /// well-formed markup are a `StyleDefError`.
    pub fn defs(&self) -> (r: Result<Vec<Def>, MakeSvgError>)
        ensures
            r is Err <==> (self.defs matches Some(s) && !parses_as_element(wrapped_defs(s@))),
            r matches Err(e) ==> e == MakeSvgError::StyleDefError,
            r matches Ok(v) ==> {
                &&& v@.len() == 2 + match self.defs {
                    Some(s) => child_count_of(wrapped_defs(s@)),
                    None => 0,
                }
                &&& forall|k: int| 2 <= k < v@.len() ==> #[trigger] v@[k] is Parsed
                &&& is_linehead_def(v@[0])
                &&& is_arrowhead_def(v@[1])
            },
    {
        let extra = match &self.defs {
            None => None,
            Some(s) => {
                let mut wrapped = String::from_str("<svg xmlns=\"http://www.w3.org/2000/svg\">");
                wrapped.append(s.as_str());
                wrapped.append("</svg>");
                Some(parse_children(wrapped.as_str()))
            },
        };
        collect_defs(extra)
    }
}

impl Default for GobanStyle {
    /// A plain style: black lines on a light wood colour, stones drawn with
    /// the default gradients.
    fn default() -> (r: GobanStyle)
        ensures
            r.black_stone_fill is None,
            r.white_stone_fill is None,
            r.black_stone_stroke is None,
            r.white_stone_stroke is None,
            r.defs is None,
            r.line_width == 30,
            r.hoshi_radius == 90,
            r.markup_stroke_width == 50,
    {
        GobanStyle {
            line_color: String::from_str("black"),
            line_width: 30,
            hoshi_radius: 90,
            background_fill: String::from_str("#dcb35c"),
            label_color: String::from_str("#4e4e4e"),
            black_stone_fill: None,
            white_stone_fill: None,
            black_stone_stroke: None,
            white_stone_stroke: None,
            markup_stroke_width: 50,
            black_stone_markup_color: String::from_str("white"),
            white_stone_markup_color: String::from_str("black"),
            empty_markup_color: String::from_str("black"),
            black_stone_selected_color: String::from_str("red"),
            white_stone_selected_color: String::from_str("blue"),
            empty_selected_color: String::from_str("green"),
            defs: None,
        }
    }
}

} // verus!
