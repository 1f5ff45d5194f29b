//! Turns a position and a style into layers of drawing elements.
use vstd::prelude::*;
use vstd::string::*;

use crate::board::{index_of, mark_fits, origins_explain, Board, Markup, MoveRecord};
use crate::layout::{coord, hoshi, hoshi_points, Layout};
use crate::style::{attr, attr_int, attr_milli, attr_text, new_node, text, Def, GobanStyle, Node, Value};
use crate::{MakeSvgError, Point, StoneColor};

verus! {

/// The largest width or radius a style may give, in thousandths of a cell.
pub const MAX_WIDTH: u64 = 1_000_000;

/// The radius of a stone, in thousandths of a cell.
pub const STONE_RADIUS: u64 = 480;

/// A rendered diagram: its size, its reusable definitions, and its layers,
/// drawn in order: background, grid, star points, stones, dimming, markup,
/// selection, move numbers.
#[derive(Debug)]
pub struct Diagram {
    pub width: u64,
    pub height: u64,
    pub defs: Vec<Def>,
    pub background: Node,
    pub grid: Node,
    pub hoshi: Node,
    pub stones: Node,
    pub dimmed: Node,
    pub markup: Node,
    pub selected: Node,
    pub labels: Node,
}

impl Diagram {
    /// The definitions, and the layers in drawing order: background, grid,
    /// star points, stones, dimming, markup, selection, move numbers, so
    /// that later layers are never hidden by earlier ones.
    pub fn into_parts(self) -> (r: (Vec<Def>, Vec<Node>))
        ensures
            r.0 == self.defs,
            r.1@ == seq![
                self.background,
                self.grid,
                self.hoshi,
                self.stones,
                self.dimmed,
                self.markup,
                self.selected,
                self.labels,
            ],
    {
        let mut layers: Vec<Node> = Vec::new();
        layers.push(self.background);
        layers.push(self.grid);
        layers.push(self.hoshi);
        layers.push(self.stones);
        layers.push(self.dimmed);
        layers.push(self.markup);
        layers.push(self.selected);
        layers.push(self.labels);
        assert(layers@ =~= seq![
            self.background,
            self.grid,
            self.hoshi,
            self.stones,
            self.dimmed,
            self.markup,
            self.selected,
            self.labels,
        ]);
        (self.defs, layers)
    }
}

/// The identifier of the default fill of a colour's stones.
pub open spec fn gradient_id(c: StoneColor) -> Seq<char> {
    match c {
        StoneColor::Black => "black-stone-fill"@,
        StoneColor::White => "white-stone-fill"@,
    }
}

/// A reference to the default fill of a colour's stones.
pub open spec fn gradient_url(c: StoneColor) -> Seq<char> {
    match c {
        StoneColor::Black => "url(#black-stone-fill)"@,
        StoneColor::White => "url(#white-stone-fill)"@,
    }
}

/// The fill a stone is drawn with: the style's, or a reference to the
/// default gradient when the style has none.
pub open spec fn fill_text(s: GobanStyle, c: StoneColor) -> Seq<char> {
    match s.fill_of(c) {
        Some(f) => f@,
        None => gradient_url(c),
    }
}

/// The stroke a stone is drawn with: the style's, or the line colour when
/// the style has none.
pub open spec fn stroke_text(s: GobanStyle, c: StoneColor) -> Seq<char> {
    match s.stroke_of(c) {
        Some(f) => f@,
        None => s.line_color@,
    }
}

/// The point stored at index `i` of a board of width `w`.
pub open spec fn cell_point(w: int, i: int) -> Point {
    Point { x: (i % w) as usize, y: (i / w) as usize }
}

/// The indices below `n` that satisfy `f`, in increasing order.
pub open spec fn filter_cells(n: int, f: spec_fn(int) -> bool) -> Seq<int>
    decreases n,
{
    if n <= 0 {
        seq![]
    } else {
        filter_cells(n - 1, f) + if f(n - 1) {
            seq![n - 1]
        } else {
            seq![]
        }
    }
}

/// Points with a stone.
pub open spec fn occupied(b: Board) -> spec_fn(int) -> bool {
    |i: int| b.stones@[i] is Some
}

/// Points with a stone that shows its move number.
pub open spec fn numbered(b: Board) -> spec_fn(int) -> bool {
    |i: int| b.stones@[i] is Some && b.numbers@[i] is Some
}

/// Points whose shape annotation is drawn: those with one, except numbered
/// stones, which show their number instead.
pub open spec fn marked(b: Board) -> spec_fn(int) -> bool {
    |i: int| b.marks@[i] is Some && !(b.stones@[i] is Some && b.numbers@[i] is Some)
}

/// Selected points.
pub open spec fn selected(b: Board) -> spec_fn(int) -> bool {
    |i: int| b.selected@[i]
}

/// Dimmed points.
pub open spec fn dimmed(b: Board) -> spec_fn(int) -> bool {
    |i: int| b.dimmed@[i]
}

/// The drawing of the stone at index `i`: a circle at the point's position,
/// filled and stroked as the style says for colour `c`.
pub open spec fn is_stone_node(n: Node, s: GobanStyle, l: Layout, i: int, c: StoneColor) -> bool {
    let pos = l.pixel(cell_point(l.width as int, i));
    &&& n.name@ == "circle"@
    &&& n.attrs@.len() == 6
    &&& attr_int(n, 0, "cx"@, pos.0)
    &&& attr_int(n, 1, "cy"@, pos.1)
    &&& attr_milli(n, 2, "r"@, STONE_RADIUS * l.cell)
    &&& attr_text(n, 3, "fill"@, fill_text(s, c))
    &&& attr_text(n, 4, "stroke"@, stroke_text(s, c))
    &&& attr_milli(n, 5, "stroke-width"@, s.line_width * l.cell)
    &&& n.children@.len() == 0
}

/// The move number `k` over the stone of colour `c` at index `i`.
pub open spec fn is_label_node(n: Node, s: GobanStyle, l: Layout, i: int, c: StoneColor, k: u64) -> bool {
    let pos = l.pixel(cell_point(l.width as int, i));
    &&& n.name@ == "text"@
    &&& attr_int(n, 0, "x"@, pos.0)
    &&& attr_int(n, 1, "y"@, pos.1)
    &&& attr_text(n, 2, "fill"@, s.markup_color_of(Some(c))@)
    &&& n.content matches Some(v) && v == Value::Int(k)
}

/// The element name that draws an annotation.
pub open spec fn markup_name(m: Markup) -> Seq<char> {
    match m {
        Markup::Triangle => "polygon"@,
        Markup::Square => "rect"@,
        Markup::Circle => "circle"@,
        Markup::Cross => "g"@,
        Markup::Label(_) => "text"@,
        _ => "line"@,
    }
}

/// The drawing of annotation `m` at index `i`, in the markup colour of what
/// stands there.
pub open spec fn is_markup_node(n: Node, s: GobanStyle, l: Layout, b: Board, i: int, m: Markup) -> bool {
    let pos = l.pixel(cell_point(l.width as int, i));
    &&& n.name@ == markup_name(m)
    &&& attr_text(n, 0, if m is Label { "fill"@ } else { "stroke"@ }, s.markup_color_of(b.stones@[i])@)
    &&& (m matches Markup::Label(t) ==> n.content matches Some(v) && (match v {
        Value::Text(x) => x@ == t@,
        _ => false,
    }))
    &&& (m matches Markup::Line(q) ==> attr_int(n, 2, "x1"@, pos.0) && attr_int(n, 3, "y1"@, pos.1)
        && attr_int(n, 4, "x2"@, l.pixel(q).0) && attr_int(n, 5, "y2"@, l.pixel(q).1)
        && attr_text(n, 6, "marker-end"@, "url(#linehead)"@))
    &&& (m matches Markup::Arrow(q) ==> attr_int(n, 2, "x1"@, pos.0) && attr_int(n, 3, "y1"@, pos.1)
        && attr_int(n, 4, "x2"@, l.pixel(q).0) && attr_int(n, 5, "y2"@, l.pixel(q).1)
        && attr_text(n, 6, "marker-end"@, "url(#arrowhead)"@))
}

/// A square over the point at index `i` in colour `fill`.
pub open spec fn is_overlay_node(n: Node, l: Layout, i: int, fill: Seq<char>) -> bool {
    let pos = l.pixel(cell_point(l.width as int, i));
    &&& n.name@ == "rect"@
    &&& attr_int(n, 0, "x"@, pos.0 - l.cell / 2)
    &&& attr_int(n, 1, "y"@, pos.1 - l.cell / 2)
    &&& attr_int(n, 2, "width"@, l.cell as int)
    &&& attr_int(n, 3, "height"@, l.cell as int)
    &&& attr_text(n, 4, "fill"@, fill)
}

/// The style's widths and radii are at most `MAX_WIDTH`.
pub open spec fn widths_drawable(s: GobanStyle) -> bool {
    s.line_width <= MAX_WIDTH && s.hoshi_radius <= MAX_WIDTH && s.markup_stroke_width <= MAX_WIDTH
}

/// Board, style and layout fit together.
pub open spec fn render_ready(b: Board, s: GobanStyle, l: Layout) -> bool {
    &&& b.stones.len() == b.width * b.height
    &&& b.wf()
    &&& l.wf()
    &&& l.width == b.width
    &&& l.height == b.height
    &&& s.line_width <= MAX_WIDTH
    &&& s.hoshi_radius <= MAX_WIDTH
    &&& s.markup_stroke_width <= MAX_WIDTH
}

proof fn lemma_cell_point(w: int, h: int, i: int)
    requires
        1 <= w,
        0 <= i < w * h,
        w * h <= crate::board::MAX_SIDE * crate::board::MAX_SIDE,
    ensures
        cell_point(w, i).x < w,
        cell_point(w, i).y < h,
        0 <= i % w < w,
        0 <= i / w < h,
        index_of(w, cell_point(w, i)) == i,
{
    assert(0 <= i % w < w) by (nonlinear_arith)
        requires
            1 <= w,
            0 <= i,
    ;
    assert(0 <= i / w < h) by (nonlinear_arith)
        requires
            1 <= w,
            0 <= i < w * h,
    ;
    assert((i / w) * w + i % w == i) by (nonlinear_arith)
        requires
            1 <= w,
    ;
    assert(cell_point(w, i).x as int == i % w);
    assert(cell_point(w, i).y as int == i / w);
}

/// The position of the point stored at index `i`.
fn cell_pixel(b: &Board, l: &Layout, i: usize) -> (r: (u64, u64))
    requires
        b.wf(),
        l.wf(),
        l.width == b.width,
        l.height == b.height,
        i < b.stones.len(),
    ensures
        r.0 == l.pixel(cell_point(l.width as int, i as int)).0,
        r.1 == l.pixel(cell_point(l.width as int, i as int)).1,
        r.0 <= crate::layout::MAX_CELL + crate::board::MAX_SIDE * crate::layout::MAX_CELL,
        r.1 <= crate::layout::MAX_CELL + crate::board::MAX_SIDE * crate::layout::MAX_CELL,
{
    proof {
        assert(b.width * b.height <= crate::board::MAX_SIDE * crate::board::MAX_SIDE) by (nonlinear_arith)
            requires
                b.width <= crate::board::MAX_SIDE,
                b.height <= crate::board::MAX_SIDE,
        ;
        lemma_cell_point(b.width as int, b.height as int, i as int);
    }
    let p = Point { x: i % b.width, y: i / b.width };
    (l.line_coord(p.x), l.line_coord(p.y))
}

fn copy_string(s: &str) -> (r: String)
    ensures
        r@ == s@,
{
    String::from_str(s)
}

/// The drawing of a stone of colour `c` at index `i`.
pub fn stone_node(b: &Board, s: &GobanStyle, l: &Layout, i: usize, c: StoneColor) -> (r: Node)
    requires
        render_ready(*b, *s, *l),
        i < b.stones.len(),
    ensures
        is_stone_node(r, *s, *l, i as int, c),
{
    let (x, y) = cell_pixel(b, l, i);
    let fill = match s.stone_fill(c) {
        Some(f) => copy_string(f),
        None => match c {
            StoneColor::Black => String::from_str("url(#black-stone-fill)"),
            StoneColor::White => String::from_str("url(#white-stone-fill)"),
        },
    };
    let stroke = match s.stone_stroke(c) {
        Some(f) => copy_string(f),
        None => copy_string(s.line_color()),
    };
    assert(s.line_width * l.cell <= MAX_WIDTH * crate::layout::MAX_CELL) by (nonlinear_arith)
        requires
            s.line_width <= MAX_WIDTH,
            l.cell <= crate::layout::MAX_CELL,
    ;
    let mut n = new_node("circle");
    n.attrs.push(attr("cx", Value::Int(x)));
    n.attrs.push(attr("cy", Value::Int(y)));
    n.attrs.push(attr("r", Value::Milli(STONE_RADIUS * l.cell)));
    n.attrs.push(attr("fill", Value::Text(fill)));
    n.attrs.push(attr("stroke", Value::Text(stroke)));
    n.attrs.push(attr("stroke-width", Value::Milli(s.line_width * l.cell)));
    n
}

/// `g` is a group whose children draw the given cells in order, each as `ok` says.
pub open spec fn layer_of(g: Node, cells: Seq<int>, ok: spec_fn(Node, int) -> bool) -> bool {
    &&& g.name@ == "g"@
    &&& g.children@.len() == cells.len()
    &&& forall|k: int| 0 <= k < cells.len() ==> #[trigger] ok(g.children@[k], cells[k])
}

/// How a stone is drawn.
pub open spec fn stone_drawn(s: GobanStyle, l: Layout, b: Board) -> spec_fn(Node, int) -> bool {
    |n: Node, i: int| b.stones@[i] matches Some(c) && is_stone_node(n, s, l, i, c)
}

/// How a move number is drawn.
pub open spec fn label_drawn(s: GobanStyle, l: Layout, b: Board) -> spec_fn(Node, int) -> bool {
    |n: Node, i: int|
        b.stones@[i] matches Some(c) && b.numbers@[i] matches Some(k) && is_label_node(n, s, l, i, c, k)
}

/// How an annotation is drawn.
pub open spec fn markup_drawn(s: GobanStyle, l: Layout, b: Board) -> spec_fn(Node, int) -> bool {
    |n: Node, i: int| b.marks@[i] matches Some(m) && is_markup_node(n, s, l, b, i, m)
}

/// How a selection is drawn.
pub open spec fn selection_drawn(s: GobanStyle, l: Layout, b: Board) -> spec_fn(Node, int) -> bool {
    |n: Node, i: int| is_overlay_node(n, l, i, s.selected_color_of(b.stones@[i])@)
}

/// How a dimmed point is drawn.
pub open spec fn dimming_drawn(s: GobanStyle, l: Layout) -> spec_fn(Node, int) -> bool {
    |n: Node, i: int| is_overlay_node(n, l, i, s.background_fill@)
}

proof fn lemma_filter_step(n: int, f: spec_fn(int) -> bool)
    requires
        0 <= n,
    ensures
        filter_cells(n + 1, f) == filter_cells(n, f) + if f(n) {
            seq![n]
        } else {
            seq![]
        },
        forall|k: int| 0 <= k < filter_cells(n, f).len() ==> 0 <= #[trigger] filter_cells(n, f)[k] < n,
    decreases n,
{
    if n > 0 {
        lemma_filter_step(n - 1, f);
    }
}

/// A stone for each occupied point, in index order.
pub fn stones_layer(b: &Board, s: &GobanStyle, l: &Layout) -> (r: Node)
    requires
        render_ready(*b, *s, *l),
    ensures
        layer_of(r, filter_cells(b.stones.len() as int, occupied(*b)), stone_drawn(*s, *l, *b)),
{
    let mut g = new_node("g");
    let n = b.stones.len();
    let mut i: usize = 0;
    while i < n
        invariant
            render_ready(*b, *s, *l),
            n == b.stones.len(),
            i <= n,
            layer_of(g, filter_cells(i as int, occupied(*b)), stone_drawn(*s, *l, *b)),
        decreases n - i,
    {
        proof {
            lemma_filter_step(i as int, occupied(*b));
        }
        match b.stones[i] {
            Some(c) => {
                let node = stone_node(b, s, l, i, c);
                g.children.push(node);
            },
            None => {},
        }
        i += 1;
    }
    g
}

/// The move number of a numbered stone.
fn label_node(b: &Board, s: &GobanStyle, l: &Layout, i: usize, c: StoneColor, k: u64) -> (r: Node)
    requires
        render_ready(*b, *s, *l),
        i < b.stones.len(),
    ensures
        is_label_node(r, *s, *l, i as int, c, k),
{
    let (x, y) = cell_pixel(b, l, i);
    let mut n = new_node("text");
    n.attrs.push(attr("x", Value::Int(x)));
    n.attrs.push(attr("y", Value::Int(y)));
    n.attrs.push(attr("fill", Value::Text(copy_string(s.markup_color(Some(c))))));
    n.attrs.push(attr("text-anchor", text("middle")));
    n.attrs.push(attr("dominant-baseline", text("central")));
    n.content = Some(Value::Int(k));
    n
}

/// A move number for each numbered stone, in index order.
pub fn labels_layer(b: &Board, s: &GobanStyle, l: &Layout) -> (r: Node)
    requires
        render_ready(*b, *s, *l),
    ensures
        layer_of(r, filter_cells(b.stones.len() as int, numbered(*b)), label_drawn(*s, *l, *b)),
{
    let mut g = new_node("g");
    let n = b.stones.len();
    let mut i: usize = 0;
    while i < n
        invariant
            render_ready(*b, *s, *l),
            n == b.stones.len(),
            i <= n,
            layer_of(g, filter_cells(i as int, numbered(*b)), label_drawn(*s, *l, *b)),
        decreases n - i,
    {
        proof {
            lemma_filter_step(i as int, numbered(*b));
        }
        match (b.stones[i], b.numbers[i]) {
            (Some(c), Some(k)) => {
                let node = label_node(b, s, l, i, c, k);
                g.children.push(node);
            },
            _ => {},
        }
        i += 1;
    }
    g
}

/// A square the size of a cell over the point at index `i`.
fn overlay_node(b: &Board, l: &Layout, i: usize, fill: String) -> (r: Node)
    requires
        b.wf(),
        l.wf(),
        l.width == b.width,
        l.height == b.height,
        i < b.stones.len(),
    ensures
        is_overlay_node(r, *l, i as int, fill@),
{
    let (x, y) = cell_pixel(b, l, i);
    proof {
        assert(b.width * b.height <= crate::board::MAX_SIDE * crate::board::MAX_SIDE) by (nonlinear_arith)
            requires
                b.width <= crate::board::MAX_SIDE,
                b.height <= crate::board::MAX_SIDE,
        ;
        lemma_cell_point(b.width as int, b.height as int, i as int);
        assert(x >= l.margin && y >= l.margin) by (nonlinear_arith)
            requires
                x == l.margin + (i % b.width) * l.cell,
                y == l.margin + (i / b.width) * l.cell,
                0 <= i % b.width,
                0 <= i / b.width,
                l.cell >= 1,
        ;
    }
    let half = l.cell / 2;
    let mut n = new_node("rect");
    n.attrs.push(attr("x", Value::Int(x - half)));
    n.attrs.push(attr("y", Value::Int(y - half)));
    n.attrs.push(attr("width", Value::Int(l.cell)));
    n.attrs.push(attr("height", Value::Int(l.cell)));
    n.attrs.push(attr("fill", Value::Text(fill)));
    n
}

/// Thousandths of the position of the point at index `i`, with bounds that
/// keep the offsets of a shape inside `u64`.
fn cell_milli(b: &Board, l: &Layout, i: usize) -> (r: (u64, u64))
    requires
        b.wf(),
        l.wf(),
        l.width == b.width,
        l.height == b.height,
        i < b.stones.len(),
    ensures
        r.0 == 1000 * l.pixel(cell_point(l.width as int, i as int)).0,
        r.1 == 1000 * l.pixel(cell_point(l.width as int, i as int)).1,
        500 * l.cell <= r.0 <= 1_000_000_000_000_000,
        500 * l.cell <= r.1 <= 1_000_000_000_000_000,
{
    let (x, y) = cell_pixel(b, l, i);
    proof {
        assert(b.width * b.height <= crate::board::MAX_SIDE * crate::board::MAX_SIDE) by (nonlinear_arith)
            requires
                b.width <= crate::board::MAX_SIDE,
                b.height <= crate::board::MAX_SIDE,
        ;
        lemma_cell_point(b.width as int, b.height as int, i as int);
        assert(x >= l.margin && y >= l.margin) by (nonlinear_arith)
            requires
                x == l.margin + (i % b.width) * l.cell,
                y == l.margin + (i / b.width) * l.cell,
                0 <= i % b.width,
                0 <= i / b.width,
                l.cell >= 1,
        ;
    }
    (x * 1000, y * 1000)
}

fn milli_line(x1: u64, y1: u64, x2: u64, y2: u64) -> (r: Node)
    ensures
        r.name@ == "line"@,
{
    let mut n = new_node("line");
    n.attrs.push(attr("x1", Value::Milli(x1)));
    n.attrs.push(attr("y1", Value::Milli(y1)));
    n.attrs.push(attr("x2", Value::Milli(x2)));
    n.attrs.push(attr("y2", Value::Milli(y2)));
    n
}

/// The drawing of annotation `m` stored at index `i`.
fn markup_node(b: &Board, s: &GobanStyle, l: &Layout, i: usize, m: &Markup) -> (r: Node)
    requires
        render_ready(*b, *s, *l),
        i < b.stones.len(),
        b.marks@[i as int] == Some(*m),
    ensures
        is_markup_node(r, *s, *l, *b, i as int, *m),
{
    let (x, y) = cell_pixel(b, l, i);
    let (xm, ym) = cell_milli(b, l, i);
    let c = l.cell;
    let color = copy_string(s.markup_color(b.stones[i]));
    assert(s.markup_stroke_width * c <= MAX_WIDTH * crate::layout::MAX_CELL) by (nonlinear_arith)
        requires
            s.markup_stroke_width <= MAX_WIDTH,
            c <= crate::layout::MAX_CELL,
    ;
    let width = Value::Milli(s.markup_stroke_width * c);
    proof {
        assert(mark_fits(b.marks@[i as int], b.width as int, b.height as int));
    }
    match m {
        Markup::Label(t) => {
            let mut n = new_node("text");
            n.attrs.push(attr("fill", Value::Text(color)));
            n.attrs.push(attr("x", Value::Int(x)));
            n.attrs.push(attr("y", Value::Int(y)));
            n.attrs.push(attr("text-anchor", text("middle")));
            n.attrs.push(attr("dominant-baseline", text("central")));
            n.content = Some(Value::Text(t.clone()));
            n
        },
        Markup::Line(q) => {
            let (qx, qy) = l.to_pixel(*q);
            let mut n = new_node("line");
            n.attrs.push(attr("stroke", Value::Text(color)));
            n.attrs.push(attr("stroke-width", width));
            n.attrs.push(attr("x1", Value::Int(x)));
            n.attrs.push(attr("y1", Value::Int(y)));
            n.attrs.push(attr("x2", Value::Int(qx)));
            n.attrs.push(attr("y2", Value::Int(qy)));
            n.attrs.push(attr("marker-end", text("url(#linehead)")));
            n.attrs.push(attr("marker-start", text("url(#linehead)")));
            n
        },
        Markup::Arrow(q) => {
            let (qx, qy) = l.to_pixel(*q);
            let mut n = new_node("line");
            n.attrs.push(attr("stroke", Value::Text(color)));
            n.attrs.push(attr("stroke-width", width));
            n.attrs.push(attr("x1", Value::Int(x)));
            n.attrs.push(attr("y1", Value::Int(y)));
            n.attrs.push(attr("x2", Value::Int(qx)));
            n.attrs.push(attr("y2", Value::Int(qy)));
            n.attrs.push(attr("marker-end", text("url(#arrowhead)")));
            n.attrs.push(attr("marker-start", text("url(#linehead)")));
            n
        },
        Markup::Triangle => {
            let mut pts: Vec<u64> = Vec::new();
            pts.push(xm);
            pts.push(ym - 300 * c);
            pts.push(xm - 260 * c);
            pts.push(ym + 150 * c);
            pts.push(xm + 260 * c);
            pts.push(ym + 150 * c);
            let mut n = new_node("polygon");
            n.attrs.push(attr("stroke", Value::Text(color)));
            n.attrs.push(attr("stroke-width", width));
            n.attrs.push(attr("fill", text("none")));
            n.attrs.push(attr("points", Value::MilliList(pts)));
            n
        },
        Markup::Square => {
            let mut n = new_node("rect");
            n.attrs.push(attr("stroke", Value::Text(color)));
            n.attrs.push(attr("stroke-width", width));
            n.attrs.push(attr("fill", text("none")));
            n.attrs.push(attr("x", Value::Milli(xm - 250 * c)));
            n.attrs.push(attr("y", Value::Milli(ym - 250 * c)));
            n.attrs.push(attr("width", Value::Milli(500 * c)));
            n.attrs.push(attr("height", Value::Milli(500 * c)));
            n
        },
        Markup::Circle => {
            let mut n = new_node("circle");
            n.attrs.push(attr("stroke", Value::Text(color)));
            n.attrs.push(attr("stroke-width", width));
            n.attrs.push(attr("fill", text("none")));
            n.attrs.push(attr("cx", Value::Int(x)));
            n.attrs.push(attr("cy", Value::Int(y)));
            n.attrs.push(attr("r", Value::Milli(250 * c)));
            n
        },
        _ => {
            let mut n = new_node("g");
            n.attrs.push(attr("stroke", Value::Text(color)));
            n.attrs.push(attr("stroke-width", width));
            n.children.push(milli_line(xm - 250 * c, ym - 250 * c, xm + 250 * c, ym + 250 * c));
            n.children.push(milli_line(xm - 250 * c, ym + 250 * c, xm + 250 * c, ym - 250 * c));
            n
        },
    }
}

/// A drawing for each shape annotation, in index order; numbered stones
/// show their number instead.
pub fn markup_layer(b: &Board, s: &GobanStyle, l: &Layout) -> (r: Node)
    requires
        render_ready(*b, *s, *l),
    ensures
        layer_of(r, filter_cells(b.stones.len() as int, marked(*b)), markup_drawn(*s, *l, *b)),
{
    let mut g = new_node("g");
    let n = b.stones.len();
    let mut i: usize = 0;
    while i < n
        invariant
            render_ready(*b, *s, *l),
            n == b.stones.len(),
            i <= n,
            layer_of(g, filter_cells(i as int, marked(*b)), markup_drawn(*s, *l, *b)),
        decreases n - i,
    {
        proof {
            lemma_filter_step(i as int, marked(*b));
        }
        let numbered_stone = b.stones[i].is_some() && b.numbers[i].is_some();
        match &b.marks[i] {
            Some(m) => {
                if !numbered_stone {
                    let node = markup_node(b, s, l, i, m);
                    g.children.push(node);
                }
            },
            None => {},
        }
        i += 1;
    }
    g
}

/// A square in the selection colour over each selected point, in index order.
pub fn selected_layer(b: &Board, s: &GobanStyle, l: &Layout) -> (r: Node)
    requires
        render_ready(*b, *s, *l),
    ensures
        layer_of(r, filter_cells(b.stones.len() as int, selected(*b)), selection_drawn(*s, *l, *b)),
{
    let mut g = new_node("g");
    let n = b.stones.len();
    let mut i: usize = 0;
    while i < n
        invariant
            render_ready(*b, *s, *l),
            n == b.stones.len(),
            i <= n,
            layer_of(g, filter_cells(i as int, selected(*b)), selection_drawn(*s, *l, *b)),
        decreases n - i,
    {
        proof {
            lemma_filter_step(i as int, selected(*b));
        }
        if b.selected[i] {
            let node = overlay_node(b, l, i, copy_string(s.selected_color(b.stones[i])));
            g.children.push(node);
        }
        i += 1;
    }
    g
}

/// A half-transparent square in the background colour over each dimmed
/// point, in index order.
pub fn dimmed_layer(b: &Board, s: &GobanStyle, l: &Layout) -> (r: Node)
    requires
        render_ready(*b, *s, *l),
    ensures
        layer_of(r, filter_cells(b.stones.len() as int, dimmed(*b)), dimming_drawn(*s, *l)),
{
    let mut g = new_node("g");
    g.attrs.push(attr("opacity", Value::Milli(500)));
    let n = b.stones.len();
    let mut i: usize = 0;
    while i < n
        invariant
            render_ready(*b, *s, *l),
            n == b.stones.len(),
            i <= n,
            layer_of(g, filter_cells(i as int, dimmed(*b)), dimming_drawn(*s, *l)),
        decreases n - i,
    {
        proof {
            lemma_filter_step(i as int, dimmed(*b));
        }
        if b.dimmed[i] {
            let node = overlay_node(b, l, i, copy_string(s.background_fill()));
            g.children.push(node);
        }
        i += 1;
    }
    g
}

/// Line `k` across the board: vertical when `vertical`, else horizontal.
pub open spec fn is_grid_line(n: Node, l: Layout, k: int, vertical: bool) -> bool {
    let m = l.margin as int;
    let c = l.cell as int;
    let far_x = coord(m, c, l.width - 1);
    let far_y = coord(m, c, l.height - 1);
    &&& n.name@ == "line"@
    &&& n.attrs@.len() == 4
    &&& if vertical {
        attr_int(n, 0, "x1"@, coord(m, c, k)) && attr_int(n, 1, "y1"@, m) && attr_int(n, 2, "x2"@, coord(m, c, k))
            && attr_int(n, 3, "y2"@, far_y)
    } else {
        attr_int(n, 0, "x1"@, m) && attr_int(n, 1, "y1"@, coord(m, c, k)) && attr_int(n, 2, "x2"@, far_x)
            && attr_int(n, 3, "y2"@, coord(m, c, k))
    }
}

/// The grid: a group stroked in the line colour, holding one vertical line
/// per column, then one horizontal line per row.
pub open spec fn is_grid(g: Node, s: GobanStyle, l: Layout) -> bool {
    &&& g.name@ == "g"@
    &&& attr_text(g, 0, "stroke"@, s.line_color@)
    &&& attr_milli(g, 1, "stroke-width"@, s.line_width * l.cell)
    &&& g.children@.len() == l.width + l.height
    &&& forall|k: int| 0 <= k < l.width ==> #[trigger] is_grid_line(g.children@[k], l, k, true)
    &&& forall|k: int| 0 <= k < l.height ==> #[trigger] is_grid_line(g.children@[l.width + k], l, k, false)
}

/// The star points: a group filled in the line colour, holding a dot at
/// each star point of the board, in order.
pub open spec fn is_hoshi_layer(g: Node, s: GobanStyle, l: Layout) -> bool {
    let pts = hoshi_points(l.width as int, l.height as int);
    &&& g.name@ == "g"@
    &&& attr_text(g, 0, "fill"@, s.line_color@)
    &&& g.children@.len() == pts.len()
    &&& forall|k: int|
        0 <= k < pts.len() ==> {
            let n = #[trigger] g.children@[k];
            &&& n.name@ == "circle"@
            &&& attr_int(n, 0, "cx"@, l.pixel(pts[k]).0)
            &&& attr_int(n, 1, "cy"@, l.pixel(pts[k]).1)
            &&& attr_milli(n, 2, "r"@, s.hoshi_radius * l.cell)
        }
}

/// The background: a rectangle over the whole drawing in the background colour.
pub open spec fn is_background(n: Node, s: GobanStyle, w: int, h: int) -> bool {
    &&& n.name@ == "rect"@
    &&& attr_int(n, 0, "x"@, 0)
    &&& attr_int(n, 1, "y"@, 0)
    &&& attr_int(n, 2, "width"@, w)
    &&& attr_int(n, 3, "height"@, h)
    &&& attr_text(n, 4, "fill"@, s.background_fill@)
}

/// The default fill of a colour's stones: a radial gradient under its identifier.
pub open spec fn is_gradient_def(d: Def, c: StoneColor) -> bool {
    match d {
        Def::Built(n) => n.name@ == "radialGradient"@ && attr_text(n, 0, "id"@, gradient_id(c)),
        _ => false,
    }
}

fn grid_line(l: &Layout, k: usize, vertical: bool) -> (r: Node)
    requires
        l.wf(),
        vertical ==> k < l.width,
        !vertical ==> k < l.height,
    ensures
        is_grid_line(r, *l, k as int, vertical),
{
    let near = l.line_coord(0);
    let at = l.line_coord(k);
    let mut n = new_node("line");
    if vertical {
        let far = l.line_coord(l.height - 1);
        n.attrs.push(attr("x1", Value::Int(at)));
        n.attrs.push(attr("y1", Value::Int(near)));
        n.attrs.push(attr("x2", Value::Int(at)));
        n.attrs.push(attr("y2", Value::Int(far)));
    } else {
        let far = l.line_coord(l.width - 1);
        n.attrs.push(attr("x1", Value::Int(near)));
        n.attrs.push(attr("y1", Value::Int(at)));
        n.attrs.push(attr("x2", Value::Int(far)));
        n.attrs.push(attr("y2", Value::Int(at)));
    }
    n
}

/// The grid of the board.
pub fn grid_layer(s: &GobanStyle, l: &Layout) -> (r: Node)
    requires
        l.wf(),
        s.line_width <= MAX_WIDTH,
    ensures
        is_grid(r, *s, *l),
{
    assert(s.line_width * l.cell <= MAX_WIDTH * crate::layout::MAX_CELL) by (nonlinear_arith)
        requires
            s.line_width <= MAX_WIDTH,
            l.cell <= crate::layout::MAX_CELL,
    ;
    let mut g = new_node("g");
    g.attrs.push(attr("stroke", Value::Text(copy_string(s.line_color()))));
    g.attrs.push(attr("stroke-width", Value::Milli(s.line_width * l.cell)));
    let mut k: usize = 0;
    while k < l.width
        invariant
            l.wf(),
            k <= l.width,
            g.name@ == "g"@,
            attr_text(g, 0, "stroke"@, s.line_color@),
            attr_milli(g, 1, "stroke-width"@, s.line_width * l.cell),
            g.children@.len() == k,
            forall|j: int| 0 <= j < k ==> #[trigger] is_grid_line(g.children@[j], *l, j, true),
        decreases l.width - k,
    {
        g.children.push(grid_line(l, k, true));
        k += 1;
    }
    let mut k: usize = 0;
    while k < l.height
        invariant
            l.wf(),
            k <= l.height,
            g.name@ == "g"@,
            attr_text(g, 0, "stroke"@, s.line_color@),
            attr_milli(g, 1, "stroke-width"@, s.line_width * l.cell),
            g.children@.len() == l.width + k,
            forall|j: int| 0 <= j < l.width ==> #[trigger] is_grid_line(g.children@[j], *l, j, true),
            forall|j: int| 0 <= j < k ==> #[trigger] is_grid_line(g.children@[l.width + j], *l, j, false),
        decreases l.height - k,
    {
        g.children.push(grid_line(l, k, false));
        k += 1;
    }
    g
}

/// The star points of the board.
pub fn hoshi_layer(s: &GobanStyle, l: &Layout) -> (r: Node)
    requires
        l.wf(),
        s.hoshi_radius <= MAX_WIDTH,
    ensures
        is_hoshi_layer(r, *s, *l),
{
    assert(s.hoshi_radius * l.cell <= MAX_WIDTH * crate::layout::MAX_CELL) by (nonlinear_arith)
        requires
            s.hoshi_radius <= MAX_WIDTH,
            l.cell <= crate::layout::MAX_CELL,
    ;
    let pts = hoshi(l.width, l.height);
    let ghost hp = hoshi_points(l.width as int, l.height as int);
    assert(forall|k: int| 0 <= k < hp.len() ==> hp[k].x <= 15 && hp[k].y <= 15);
    let mut g = new_node("g");
    g.attrs.push(attr("fill", Value::Text(copy_string(s.line_color()))));
    let mut k: usize = 0;
    while k < pts.len()
        invariant
            l.wf(),
            s.hoshi_radius <= MAX_WIDTH,
            s.hoshi_radius * l.cell <= MAX_WIDTH * crate::layout::MAX_CELL,
            pts@ == hp,
            hp == hoshi_points(l.width as int, l.height as int),
            forall|j: int| 0 <= j < hp.len() ==> hp[j].x <= 15 && hp[j].y <= 15,
            k <= pts.len(),
            g.name@ == "g"@,
            attr_text(g, 0, "fill"@, s.line_color@),
            g.children@.len() == k,
            forall|j: int|
                0 <= j < k ==> {
                    let n = #[trigger] g.children@[j];
                    &&& n.name@ == "circle"@
                    &&& attr_int(n, 0, "cx"@, l.pixel(hp[j]).0)
                    &&& attr_int(n, 1, "cy"@, l.pixel(hp[j]).1)
                    &&& attr_milli(n, 2, "r"@, s.hoshi_radius * l.cell)
                },
        decreases pts.len() - k,
    {
        let p = pts[k];
        let mut n = new_node("circle");
        n.attrs.push(attr("cx", Value::Int(l.line_coord(p.x))));
        n.attrs.push(attr("cy", Value::Int(l.line_coord(p.y))));
        n.attrs.push(attr("r", Value::Milli(s.hoshi_radius * l.cell)));
        g.children.push(n);
        k += 1;
    }
    g
}

fn gradient_stop(offset: u64, color: &str) -> (r: Node) {
    let mut n = new_node("stop");
    n.attrs.push(attr("offset", Value::Milli(offset)));
    n.attrs.push(attr("stop-color", text(color)));
    n
}

/// The default fill of a colour's stones: a radial gradient, lit from the
/// upper left.
pub fn gradient_def(c: StoneColor) -> (r: Def)
    ensures
        is_gradient_def(r, c),
{
    let mut n = new_node("radialGradient");
    match c {
        StoneColor::Black => {
            n.attrs.push(attr("id", text("black-stone-fill")));
            n.children.push(gradient_stop(0, "#666666"));
            n.children.push(gradient_stop(1000, "#000000"));
        },
        StoneColor::White => {
            n.attrs.push(attr("id", text("white-stone-fill")));
            n.children.push(gradient_stop(0, "#ffffff"));
            n.children.push(gradient_stop(1000, "#bbbbbb"));
        },
    }
    n.attrs.push(attr("cx", Value::Milli(350)));
    n.attrs.push(attr("cy", Value::Milli(350)));
    n.attrs.push(attr("r", Value::Milli(650)));
    Def::Built(n)
}

/// Draws a position. The definitions are the style's, followed by the
/// default gradient of each colour whose stone fill the style leaves unset.
/// Fails with `StyleDefError` exactly when the style's extra definitions are
/// not well-formed.
pub fn render(b: &Board, s: &GobanStyle, l: &Layout) -> (r: Result<Diagram, MakeSvgError>)
    requires
        b.stones.len() == b.width * b.height,
        b.wf(),
        l.wf(),
        l.width == b.width,
        l.height == b.height,
    ensures
        r is Err <==> !widths_drawable(*s) || (s.defs matches Some(t) && !crate::style::parses_as_element(
            crate::style::wrapped_defs(t@),
        )),
        r matches Err(e) ==> e == if !widths_drawable(*s) {
            MakeSvgError::InvalidStyleWidth
        } else {
            MakeSvgError::StyleDefError
        },
        r matches Ok(d) ==> {
            let n = b.stones.len() as int;
            &&& d.width == coord(l.margin as int, l.cell as int, l.width - 1) + l.margin
            &&& d.height == coord(l.margin as int, l.cell as int, l.height - 1) + l.margin
            &&& crate::style::is_linehead_def(d.defs@[0])
            &&& crate::style::is_arrowhead_def(d.defs@[1])
            &&& forall|c: StoneColor|
                #[trigger] s.fill_of(c) is None ==> exists|k: int| 0 <= k < d.defs@.len() && #[trigger] is_gradient_def(d.defs@[k], c)
            &&& is_background(d.background, *s, d.width as int, d.height as int)
            &&& is_grid(d.grid, *s, *l)
            &&& is_hoshi_layer(d.hoshi, *s, *l)
            &&& layer_of(d.stones, filter_cells(n, occupied(*b)), stone_drawn(*s, *l, *b))
            &&& layer_of(d.dimmed, filter_cells(n, dimmed(*b)), dimming_drawn(*s, *l))
            &&& layer_of(d.markup, filter_cells(n, marked(*b)), markup_drawn(*s, *l, *b))
            &&& layer_of(d.selected, filter_cells(n, selected(*b)), selection_drawn(*s, *l, *b))
            &&& layer_of(d.labels, filter_cells(n, numbered(*b)), label_drawn(*s, *l, *b))
        },
{
    if s.line_width > MAX_WIDTH || s.hoshi_radius > MAX_WIDTH || s.markup_stroke_width > MAX_WIDTH {
        return Err(MakeSvgError::InvalidStyleWidth);
    }
    let mut defs = match s.defs() {
        Ok(v) => v,
        Err(e) => {
            return Err(e);
        },
    };
    let ghost base = defs@;
    if s.stone_fill(StoneColor::Black).is_none() {
        defs.push(gradient_def(StoneColor::Black));
    }
    let ghost after_black = defs@;
    if s.stone_fill(StoneColor::White).is_none() {
        defs.push(gradient_def(StoneColor::White));
    }
    proof {
        assert(defs@[0] == base[0] && defs@[1] == base[1]);
        assert forall|c: StoneColor| #[trigger] s.fill_of(c) is None implies exists|k: int|
            0 <= k < defs@.len() && #[trigger] is_gradient_def(defs@[k], c) by {
            if c == StoneColor::Black {
                assert(is_gradient_def(defs@[base.len() as int], StoneColor::Black));
            } else {
                assert(is_gradient_def(defs@[after_black.len() as int], StoneColor::White));
            }
        }
    }
    let (width, height) = l.dimensions();
    let mut background = new_node("rect");
    background.attrs.push(attr("x", Value::Int(0)));
    background.attrs.push(attr("y", Value::Int(0)));
    background.attrs.push(attr("width", Value::Int(width)));
    background.attrs.push(attr("height", Value::Int(height)));
    background.attrs.push(attr("fill", Value::Text(copy_string(s.background_fill()))));
    Ok(Diagram {
        width,
        height,
        defs,
        background,
        grid: grid_layer(s, l),
        hoshi: hoshi_layer(s, l),
        stones: stones_layer(b, s, l),
        dimmed: dimmed_layer(b, s, l),
        markup: markup_layer(b, s, l),
        selected: selected_layer(b, s, l),
        labels: labels_layer(b, s, l),
    })
}

proof fn lemma_filter_contains(n: int, f: spec_fn(int) -> bool, i: int)
    requires
        0 <= i < n,
        f(i),
    ensures
        exists|k: int| 0 <= k < filter_cells(n, f).len() && #[trigger] filter_cells(n, f)[k] == i,
    decreases n,
{
    lemma_filter_step(n - 1, f);
    if i == n - 1 {
        assert(filter_cells(n, f)[filter_cells(n - 1, f).len() as int] == i);
    } else {
        lemma_filter_contains(n - 1, f, i);
        let k = choose|k: int| 0 <= k < filter_cells(n - 1, f).len() && #[trigger] filter_cells(n - 1, f)[k] == i;
        assert(filter_cells(n, f)[k] == i);
    }
}

/// On a replayed board, the move numbers drawn are exactly those of the
/// stones placed by a move numbered within `[start, end]`: every drawn
/// number belongs to such a stone, and every such stone has its number drawn.
pub proof fn lemma_labels_exact(
    records: Seq<MoveRecord>,
    b: Board,
    s: GobanStyle,
    l: Layout,
    g: Node,
    origin: Seq<Option<nat>>,
    start: u64,
    end: u64,
)
    requires
        layer_of(g, filter_cells(b.stones.len() as int, numbered(b)), label_drawn(s, l, b)),
        origins_explain(records, b, origin, start, end),
        b.numbers.len() == b.stones.len(),
    ensures
        forall|k: int|
            0 <= k < g.children@.len() ==> {
                let i = filter_cells(b.stones.len() as int, numbered(b))[k];
                &&& 0 <= i < b.stones.len()
                &&& b.stones@[i] is Some
                &&& origin[i] matches Some(m) && start <= m <= end && #[trigger] g.children@[k].content == Some(
                    Value::Int(m as u64),
                )
            },
        forall|i: int|
            0 <= i < b.stones.len() && #[trigger] b.stones@[i] is Some && (origin[i] matches Some(m) && start <= m
                <= end) ==> exists|k: int|
                0 <= k < g.children@.len() && #[trigger] filter_cells(b.stones.len() as int, numbered(b))[k] == i
                    && g.children@[k].content == Some(Value::Int(origin[i]->Some_0 as u64)),
{
    let n = b.stones.len() as int;
    lemma_filter_step(n, numbered(b));
    assert forall|k: int| 0 <= k < g.children@.len() implies {
        let i = filter_cells(n, numbered(b))[k];
        &&& 0 <= i < n
        &&& b.stones@[i] is Some
        &&& origin[i] matches Some(m) && start <= m <= end && #[trigger] g.children@[k].content == Some(
            Value::Int(m as u64),
        )
    } by {
        let i = filter_cells(n, numbered(b))[k];
        assert(label_drawn(s, l, b)(g.children@[k], i));
        assert(b.stones@[i] is Some);
    }
    assert forall|i: int|
        0 <= i < n && #[trigger] b.stones@[i] is Some && (origin[i] matches Some(m) && start <= m <= end) implies exists|k: int|
        0 <= k < g.children@.len() && #[trigger] filter_cells(n, numbered(b))[k] == i && g.children@[k].content == Some(
            Value::Int(origin[i]->Some_0 as u64),
        ) by {
        assert(numbered(b)(i));
        lemma_filter_contains(n, numbered(b), i);
        let k = choose|k: int| 0 <= k < filter_cells(n, numbered(b)).len() && #[trigger] filter_cells(n, numbered(b))[k] == i;
        assert(label_drawn(s, l, b)(g.children@[k], i));
    }
}

} // verus!
