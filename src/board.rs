//! Stones on a grid, with captures resolved by liberty analysis.
//!
//! Points are stored row by row: the point `(x, y)` of a board of width `w`
//! sits at index `y * w + x`.
use vstd::prelude::*;

use crate::{MakeSvgError, Point, StoneColor};

verus! {

/// The largest board side: the game-record format names columns and rows by
/// the 52 letters a-z and A-Z.
pub const MAX_SIDE: usize = 52;

/// Whether the cell at `i` has a neighbour in direction `d` (0 left, 1 right,
/// 2 up, 3 down) on a board of width `w` with `n` cells.
pub open spec fn nb_ok(w: int, n: int, i: int, d: int) -> bool {
    if d == 0 {
        i % w > 0
    } else if d == 1 {
        i % w + 1 < w && i + 1 < n
    } else if d == 2 {
        i >= w
    } else {
        i + w < n
    }
}

/// The index of the neighbour of `i` in direction `d`.
pub open spec fn nb(w: int, i: int, d: int) -> int {
    if d == 0 {
        i - 1
    } else if d == 1 {
        i + 1
    } else if d == 2 {
        i - w
    } else {
        i + w
    }
}

/// The neighbour of `i` in direction `d` exists and is empty.
pub open spec fn empty_dir(b: Seq<Option<StoneColor>>, w: int, i: int, d: int) -> bool {
    nb_ok(w, b.len() as int, i, d) && b[nb(w, i, d)] is None
}

/// The stone at `i` touches an empty point.
pub open spec fn has_liberty(b: Seq<Option<StoneColor>>, w: int, i: int) -> bool {
    empty_dir(b, w, i, 0) || empty_dir(b, w, i, 1) || empty_dir(b, w, i, 2) || empty_dir(b, w, i, 3)
}

/// The neighbour of `i` in direction `d`, if it holds a stone of the colour at `i`, is in `dd`.
pub open spec fn closed_dir(b: Seq<Option<StoneColor>>, w: int, dd: Set<int>, i: int, d: int) -> bool {
    nb_ok(w, b.len() as int, i, d) && b[nb(w, i, d)] == b[i] ==> dd.contains(nb(w, i, d))
}

/// `dd` is a union of groups none of which has a liberty: every member is a
/// stone without an empty neighbour, and every neighbour of the same colour
/// is a member too.
pub open spec fn zero_liberty_set(b: Seq<Option<StoneColor>>, w: int, dd: Set<int>) -> bool {
    forall|i: int|
        #[trigger] dd.contains(i) ==> {
            &&& 0 <= i < b.len()
            &&& b[i] is Some
            &&& !has_liberty(b, w, i)
            &&& closed_dir(b, w, dd, i, 0)
            &&& closed_dir(b, w, dd, i, 1)
            &&& closed_dir(b, w, dd, i, 2)
            &&& closed_dir(b, w, dd, i, 3)
        }
}

/// No group on the board is without liberties.
pub open spec fn no_dead_group(b: Seq<Option<StoneColor>>, w: int) -> bool {
    forall|dd: Set<int>| #[trigger] zero_liberty_set(b, w, dd) ==> dd.is_empty()
}

/// The neighbour of `i` in direction `d` is a marked stone of the same colour
/// with a smaller rank.
pub open spec fn backed_dir(
    b: Seq<Option<StoneColor>>,
    w: int,
    alive: Seq<bool>,
    rank: Seq<nat>,
    i: int,
    d: int,
) -> bool {
    &&& nb_ok(w, b.len() as int, i, d)
    &&& b[nb(w, i, d)] == b[i]
    &&& alive[nb(w, i, d)]
    &&& rank[nb(w, i, d)] < rank[i]
}

/// The stone at `i` has a liberty, or leans on a marked stone of its group
/// that is closer to one.
pub open spec fn supported(
    b: Seq<Option<StoneColor>>,
    w: int,
    alive: Seq<bool>,
    rank: Seq<nat>,
    i: int,
) -> bool {
    ||| has_liberty(b, w, i)
    ||| backed_dir(b, w, alive, rank, i, 0)
    ||| backed_dir(b, w, alive, rank, i, 1)
    ||| backed_dir(b, w, alive, rank, i, 2)
    ||| backed_dir(b, w, alive, rank, i, 3)
}

/// Every marked cell holds a stone of colour `c` with a chain of same-coloured
/// marked stones, of falling rank, down to a liberty.
pub open spec fn sound(
    b: Seq<Option<StoneColor>>,
    w: int,
    c: StoneColor,
    alive: Seq<bool>,
    rank: Seq<nat>,
) -> bool {
    &&& alive.len() == b.len()
    &&& rank.len() == b.len()
    &&& forall|i: int|
        0 <= i < b.len() && #[trigger] alive[i] ==> b[i] == Some(c) && supported(b, w, alive, rank, i)
}

/// Every stone of colour `c` has a chain of same-coloured stones to a liberty.
pub open spec fn settled(b: Seq<Option<StoneColor>>, w: int, c: StoneColor) -> bool {
    exists|alive: Seq<bool>, rank: Seq<nat>|
        #[trigger] sound(b, w, c, alive, rank) && forall|i: int|
            0 <= i < b.len() && b[i] == Some(c) ==> #[trigger] alive[i]
}

/// The cells whose content differs between two boards.
pub open spec fn changed_cells(b: Seq<Option<StoneColor>>, r: Seq<Option<StoneColor>>) -> Set<int> {
    Set::new(|i: int| 0 <= i < b.len() && b[i] != r[i])
}

/// The number of `true` entries.
pub open spec fn count_true(s: Seq<bool>) -> nat
    decreases s.len(),
{
    if s.len() == 0 {
        0
    } else {
        count_true(s.drop_last()) + if s.last() {
            1nat
        } else {
            0nat
        }
    }
}

proof fn lemma_count_bound(s: Seq<bool>)
    ensures
        count_true(s) <= s.len(),
    decreases s.len(),
{
    if s.len() > 0 {
        lemma_count_bound(s.drop_last());
    }
}

proof fn lemma_count_set(s: Seq<bool>, i: int)
    requires
        0 <= i < s.len(),
        !s[i],
    ensures
        count_true(s.update(i, true)) == count_true(s) + 1,
    decreases s.len(),
{
    if i == s.len() - 1 {
        assert(s.update(i, true).drop_last() =~= s.drop_last());
    } else {
        lemma_count_set(s.drop_last(), i);
        assert(s.update(i, true).drop_last() =~= s.drop_last().update(i, true));
    }
}

proof fn lemma_count_zero(s: Seq<bool>)
    requires
        forall|k: int| 0 <= k < s.len() ==> !s[k],
    ensures
        count_true(s) == 0,
    decreases s.len(),
{
    if s.len() > 0 {
        lemma_count_zero(s.drop_last());
    }
}

proof fn lemma_nb_range(w: int, n: int, i: int, d: int)
    requires
        w >= 1,
        0 <= i < n,
        nb_ok(w, n, i, d),
    ensures
        0 <= nb(w, i, d) < n,
        nb(w, i, d) != i,
{
    if d == 0 {
        assert(i % w <= i) by (nonlinear_arith)
            requires
                w >= 1,
                i >= 0,
        ;
    }
}

/// A stone with a certified chain to a liberty is in no zero-liberty set.
proof fn lemma_chain_not_dead(
    b: Seq<Option<StoneColor>>,
    w: int,
    c: StoneColor,
    alive: Seq<bool>,
    rank: Seq<nat>,
    dd: Set<int>,
    i: int,
)
    requires
        w >= 1,
        sound(b, w, c, alive, rank),
        zero_liberty_set(b, w, dd),
        0 <= i < b.len(),
        alive[i],
    ensures
        !dd.contains(i),
    decreases rank[i],
{
    if dd.contains(i) {
        assert(supported(b, w, alive, rank, i));
        let mut d: int = 0;
        if backed_dir(b, w, alive, rank, i, 0) {
            d = 0;
        } else if backed_dir(b, w, alive, rank, i, 1) {
            d = 1;
        } else if backed_dir(b, w, alive, rank, i, 2) {
            d = 2;
        } else {
            d = 3;
        }
        assert(closed_dir(b, w, dd, i, d));
        let j = nb(w, i, d);
        lemma_nb_range(w, b.len() as int, i, d);
        lemma_chain_not_dead(b, w, c, alive, rank, dd, j);
    }
}

/// A board on which every stone of both colours is settled has no group
/// without liberties.
pub proof fn lemma_settled_no_dead_group(b: Seq<Option<StoneColor>>, w: int)
    requires
        w >= 1,
        settled(b, w, StoneColor::Black),
        settled(b, w, StoneColor::White),
    ensures
        no_dead_group(b, w),
{
    let (ab, rb) = choose|alive: Seq<bool>, rank: Seq<nat>|
        #[trigger] sound(b, w, StoneColor::Black, alive, rank) && forall|i: int|
            0 <= i < b.len() && b[i] == Some(StoneColor::Black) ==> #[trigger] alive[i];
    let (aw, rw) = choose|alive: Seq<bool>, rank: Seq<nat>|
        #[trigger] sound(b, w, StoneColor::White, alive, rank) && forall|i: int|
            0 <= i < b.len() && b[i] == Some(StoneColor::White) ==> #[trigger] alive[i];
    assert forall|dd: Set<int>| #[trigger] zero_liberty_set(b, w, dd) implies dd.is_empty() by {
        assert forall|i: int| !dd.contains(i) by {
            if dd.contains(i) {
                if b[i] == Some(StoneColor::Black) {
                    lemma_chain_not_dead(b, w, StoneColor::Black, ab, rb, dd, i);
                } else {
                    assert(b[i] == Some(StoneColor::White));
                    assert(aw[i]);
                    lemma_chain_not_dead(b, w, StoneColor::White, aw, rw, dd, i);
                }
            }
        }
        assert(dd =~= Set::empty());
    }
}

/// Taking stones away, but none that is marked, keeps a certificate valid.
proof fn lemma_removal_keeps_sound(
    b: Seq<Option<StoneColor>>,
    r: Seq<Option<StoneColor>>,
    w: int,
    c: StoneColor,
    alive: Seq<bool>,
    rank: Seq<nat>,
)
    requires
        w >= 1,
        sound(b, w, c, alive, rank),
        r.len() == b.len(),
        forall|i: int| 0 <= i < b.len() ==> r[i] == b[i] || r[i] is None,
        forall|i: int| 0 <= i < b.len() && alive[i] ==> r[i] == b[i],
    ensures
        sound(r, w, c, alive, rank),
{
    assert forall|i: int| 0 <= i < r.len() && #[trigger] alive[i] implies r[i] == Some(c) && supported(
        r,
        w,
        alive,
        rank,
        i,
    ) by {
        assert(supported(b, w, alive, rank, i));
        assert forall|d: int| 0 <= d < 4 && nb_ok(w, b.len() as int, i, d) implies {
            &&& empty_dir(b, w, i, d) ==> empty_dir(r, w, i, d)
            &&& backed_dir(b, w, alive, rank, i, d) ==> backed_dir(r, w, alive, rank, i, d)
        } by {
            lemma_nb_range(w, b.len() as int, i, d);
        }
    }
}

/// The index of a neighbour, when there is one.
fn neighbour(w: usize, n: usize, i: usize, d: usize) -> (r: Option<usize>)
    requires
        1 <= w,
        i < n,
        d < 4,
    ensures
        r is Some <==> nb_ok(w as int, n as int, i as int, d as int),
        r matches Some(j) ==> j == nb(w as int, i as int, d as int) && j < n,
{
    if d == 0 {
        if i % w > 0 {
            assert(i % w <= i) by (nonlinear_arith)
                requires
                    w >= 1,
            ;
            Some(i - 1)
        } else {
            None
        }
    } else if d == 1 {
        if i % w + 1 < w && i + 1 < n {
            Some(i + 1)
        } else {
            None
        }
    } else if d == 2 {
        if i >= w {
            Some(i - w)
        } else {
            None
        }
    } else {
        if w < n && i < n - w {
            Some(i + w)
        } else {
            None
        }
    }
}

fn is_color(s: Option<StoneColor>, c: StoneColor) -> (r: bool)
    ensures
        r == (s == Some(c)),
{
    match s {
        Some(x) => x == c,
        None => false,
    }
}

/// Whether the stone at `i` touches an empty point.
fn liberty_at(b: &Vec<Option<StoneColor>>, w: usize, i: usize) -> (r: bool)
    requires
        1 <= w,
        i < b.len(),
    ensures
        r == has_liberty(b@, w as int, i as int),
{
    let mut d: usize = 0;
    while d < 4
        invariant
            d <= 4,
            1 <= w,
            i < b.len(),
            forall|k: int| 0 <= k < d ==> !empty_dir(b@, w as int, i as int, k),
        decreases 4 - d,
    {
        match neighbour(w, b.len(), i, d) {
            Some(j) => {
                if b[j].is_none() {
                    return true;
                }
            },
            None => {},
        }
        d += 1;
    }
    assert(!empty_dir(b@, w as int, i as int, 0));
    assert(!empty_dir(b@, w as int, i as int, 1));
    assert(!empty_dir(b@, w as int, i as int, 2));
    assert(!empty_dir(b@, w as int, i as int, 3));
    false
}

/// Whether a neighbour of `i` is a marked stone of colour `c`.
fn marked_neighbour(b: &Vec<Option<StoneColor>>, w: usize, c: StoneColor, alive: &Vec<bool>, i: usize) -> (r:
    Option<usize>)
    requires
        1 <= w,
        i < b.len(),
        alive.len() == b.len(),
    ensures
        r matches Some(d) ==> d < 4 && nb_ok(w as int, b.len() as int, i as int, d as int) && alive@[nb(
            w as int,
            i as int,
            d as int,
        )] && b@[nb(w as int, i as int, d as int)] == Some(c),
        r is None ==> forall|d: int|
            0 <= d < 4 && nb_ok(w as int, b.len() as int, i as int, d) ==> !(alive@[nb(w as int, i as int, d)]
                && b@[nb(w as int, i as int, d)] == Some(c)),
{
    let mut d: usize = 0;
    while d < 4
        invariant
            d <= 4,
            1 <= w,
            i < b.len(),
            alive.len() == b.len(),
            forall|k: int|
                0 <= k < d && nb_ok(w as int, b.len() as int, i as int, k) ==> !(alive@[nb(w as int, i as int, k)]
                    && b@[nb(w as int, i as int, k)] == Some(c)),
        decreases 4 - d,
    {
        match neighbour(w, b.len(), i, d) {
            Some(j) => {
                if alive[j] && is_color(b[j], c) {
                    return Some(d);
                }
            },
            None => {},
        }
        d += 1;
    }
    None
}

/// Removes every stone of colour `c` that belongs to a group without
/// liberties, and keeps everything else.
pub fn capture(b: &Vec<Option<StoneColor>>, w: usize, c: StoneColor) -> (r: Vec<Option<StoneColor>>)
    requires
        1 <= w,
        b.len() <= MAX_SIDE * MAX_SIDE,
    ensures
        r.len() == b.len(),
        forall|i: int| 0 <= i < b.len() ==> r@[i] == b@[i] || (b@[i] == Some(c) && r@[i] is None),
        zero_liberty_set(b@, w as int, changed_cells(b@, r@)),
        forall|dd: Set<int>, i: int|
            #[trigger] zero_liberty_set(b@, w as int, dd) && #[trigger] dd.contains(i) && b@[i] == Some(c)
                ==> r@[i] is None,
        settled(r@, w as int, c),
        forall|c2: StoneColor| c2 != c && #[trigger] settled(b@, w as int, c2) ==> settled(r@, w as int, c2),
{
    let n = b.len();
    let ghost wi = w as int;
    let mut alive: Vec<bool> = Vec::new();
    while alive.len() < n
        invariant
            alive.len() <= n,
            n == b.len(),
            forall|k: int| 0 <= k < alive.len() ==> !alive@[k],
        decreases n - alive.len(),
    {
        alive.push(false);
    }
    let ghost mut rank: Seq<nat> = Seq::new(n as nat, |k: int| 0nat);
    let mut count: usize = 0;
    proof {
        lemma_count_zero(alive@);
    }
    loop
        invariant
            n == b.len(),
            1 <= w,
            wi == w as int,
            n <= MAX_SIDE * MAX_SIDE,
            alive.len() == n,
            rank.len() == n,
            count == count_true(alive@),
            sound(b@, wi, c, alive@, rank),
            forall|k: int| 0 <= k < n && #[trigger] alive@[k] ==> rank[k] < count,
        ensures
            alive.len() == n,
            rank.len() == n,
            sound(b@, wi, c, alive@, rank),
            forall|k: int|
                0 <= k < n && b@[k] == Some(c) && !#[trigger] alive@[k] ==> {
                    &&& !has_liberty(b@, wi, k)
                    &&& forall|d: int|
                        0 <= d < 4 && nb_ok(wi, n as int, k, d) ==> !(alive@[nb(wi, k, d)] && b@[nb(
                            wi,
                            k,
                            d,
                        )] == Some(c))
                },
        decreases n - count,
    {
        proof {
            lemma_count_bound(alive@);
        }
        let ghost start = count;
        let mut changed = false;
        let mut i: usize = 0;
        while i < n
            invariant
                n == b.len(),
                1 <= w,
                wi == w as int,
                i <= n,
                n <= MAX_SIDE * MAX_SIDE,
                alive.len() == n,
                rank.len() == n,
                count == count_true(alive@),
                count <= n,
                start <= count,
                changed ==> start < count,
                !changed ==> start == count,
                sound(b@, wi, c, alive@, rank),
                forall|k: int| 0 <= k < n && #[trigger] alive@[k] ==> rank[k] < count,
                !changed ==> forall|k: int|
                    0 <= k < i && b@[k] == Some(c) && !#[trigger] alive@[k] ==> {
                        &&& !has_liberty(b@, wi, k)
                        &&& forall|d: int|
                            0 <= d < 4 && nb_ok(wi, n as int, k, d) ==> !(alive@[nb(wi, k, d)] && b@[nb(
                                wi,
                                k,
                                d,
                            )] == Some(c))
                    },
            decreases n - i,
        {
            if !alive[i] && is_color(b[i], c) {
                let lib = liberty_at(b, w, i);
                let m = marked_neighbour(b, w, c, &alive, i);
                if lib || m.is_some() {
                    proof {
                        lemma_count_set(alive@, i as int);
                        lemma_count_bound(alive@.update(i as int, true));
                    }
                    let ghost old_alive = alive@;
                    let ghost old_rank = rank;
                    proof {
                        rank = rank.update(i as int, count as nat);
                    }
                    alive.set(i, true);
                    assert forall|k: int| 0 <= k < n && #[trigger] alive@[k] implies b@[k] == Some(c)
                        && supported(b@, wi, alive@, rank, k) by {
                        if k != i {
                            assert(supported(b@, wi, old_alive, old_rank, k));
                            assert forall|d: int| 0 <= d < 4 && #[trigger] backed_dir(b@, wi, old_alive, old_rank, k, d)
                                implies backed_dir(b@, wi, alive@, rank, k, d) by {
                                lemma_nb_range(wi, n as int, k, d);
                            }
                        } else if !lib {
                            let d = m.unwrap() as int;
                            lemma_nb_range(wi, n as int, k, d);
                            assert(backed_dir(b@, wi, alive@, rank, k, d));
                        }
                    }
                    count = count + 1;
                    changed = true;
                }
            }
            assert(!changed ==> (b@[i as int] == Some(c) && !alive@[i as int] ==> {
                &&& !has_liberty(b@, wi, i as int)
                &&& forall|d: int|
                    0 <= d < 4 && nb_ok(wi, n as int, i as int, d) ==> !(alive@[nb(wi, i as int, d)] && b@[nb(wi, i as int, d)] == Some(c))
            }));
            i += 1;
        }
        if !changed {
            break;
        }
    }
    let mut r: Vec<Option<StoneColor>> = Vec::new();
    let mut i: usize = 0;
    while i < n
        invariant
            n == b.len(),
            alive.len() == n,
            i <= n,
            r.len() == i,
            forall|k: int|
                0 <= k < i ==> #[trigger] r@[k] == if b@[k] == Some(c) && !alive@[k] {
                    None
                } else {
                    b@[k]
                },
        decreases n - i,
    {
        if is_color(b[i], c) && !alive[i] {
            r.push(None);
        } else {
            r.push(b[i]);
        }
        i += 1;
    }
    proof {
        let removed = changed_cells(b@, r@);
        assert forall|k: int| #[trigger] removed.contains(k) implies {
            &&& 0 <= k < b.len()
            &&& b@[k] is Some
            &&& !has_liberty(b@, wi, k)
            &&& closed_dir(b@, wi, removed, k, 0)
            &&& closed_dir(b@, wi, removed, k, 1)
            &&& closed_dir(b@, wi, removed, k, 2)
            &&& closed_dir(b@, wi, removed, k, 3)
        } by {
            assert(b@[k] == Some(c) && !alive@[k]);
            assert forall|d: int| 0 <= d < 4 implies closed_dir(b@, wi, removed, k, d) by {
                if nb_ok(wi, n as int, k, d) && b@[nb(wi, k, d)] == b@[k] {
                    let j = nb(wi, k, d);
                    lemma_nb_range(wi, n as int, k, d);
                    assert(!alive@[j]);
                    assert(r@[j] != b@[j]);
                }
            }
        }
        assert forall|dd: Set<int>, k: int|
            #[trigger] zero_liberty_set(b@, wi, dd) && #[trigger] dd.contains(k) && b@[k] == Some(c) implies r@[k] is None by {
            if alive@[k] {
                lemma_chain_not_dead(b@, wi, c, alive@, rank, dd, k);
            }
        }
        lemma_removal_keeps_sound(b@, r@, wi, c, alive@, rank);
        assert(sound(r@, wi, c, alive@, rank));
        assert forall|k: int| 0 <= k < r.len() && r@[k] == Some(c) implies #[trigger] alive@[k] by {}
        assert forall|c2: StoneColor| c2 != c && #[trigger] settled(b@, wi, c2) implies settled(r@, wi, c2) by {
            let (a2, r2) = choose|a: Seq<bool>, rk: Seq<nat>|
                #[trigger] sound(b@, wi, c2, a, rk) && forall|q: int|
                    0 <= q < b.len() && b@[q] == Some(c2) ==> #[trigger] a[q];
            lemma_removal_keeps_sound(b@, r@, wi, c2, a2, r2);
            assert forall|q: int| 0 <= q < r.len() && r@[q] == Some(c2) implies #[trigger] a2[q] by {}
        }
    }
    r
}

fn copy_stones(v: &Vec<Option<StoneColor>>) -> (r: Vec<Option<StoneColor>>)
    ensures
        r@ == v@,
{
    let mut r: Vec<Option<StoneColor>> = Vec::new();
    let mut i: usize = 0;
    while i < v.len()
        invariant
            i <= v.len(),
            r@ == v@.subrange(0, i as int),
        decreases v.len() - i,
    {
        r.push(v[i]);
        i += 1;
    }
    assert(r@ =~= v@);
    r
}

/// An annotation drawn at a point.
#[derive(Clone, Debug, PartialEq, Eq)]
pub enum Markup {
    Triangle,
    Square,
    Circle,
    Cross,
    Label(String),
    Line(Point),
    Arrow(Point),
    Selected,
    Dimmed,
}

/// One entry of a replayed path.
#[derive(Clone, Debug, PartialEq, Eq)]
pub enum MoveRecord {
    Placement(StoneColor, Point),
    Setup(Vec<(StoneColor, Point)>),
    Pass,
    MarkupOnly,
}

/// A position: stones, the move numbers shown on them, and the annotations
/// of each point, all stored row by row.
#[derive(Clone, Debug)]
pub struct Board {
    pub width: usize,
    pub height: usize,
    pub stones: Vec<Option<StoneColor>>,
    pub numbers: Vec<Option<u64>>,
    pub marks: Vec<Option<Markup>>,
    pub selected: Vec<bool>,
    pub dimmed: Vec<bool>,
}

/// A stored shape annotation is no selection or dimming flag, and a line or
/// arrow ends on the board.
pub open spec fn mark_fits(m: Option<Markup>, w: int, h: int) -> bool {
    match m {
        Some(Markup::Line(q)) => q.x < w && q.y < h,
        Some(Markup::Arrow(q)) => q.x < w && q.y < h,
        Some(Markup::Selected) => false,
        Some(Markup::Dimmed) => false,
        _ => true,
    }
}

/// The index of a point on a board of width `w`.
pub open spec fn index_of(w: int, p: Point) -> int {
    p.y * w + p.x
}

/// Whether a board size is accepted.
pub open spec fn valid_size(width: int, height: int) -> bool {
    1 <= width <= MAX_SIDE && 1 <= height <= MAX_SIDE
}

/// The board `b` with the stones of colour `c` that are missing from `r` taken away.
pub open spec fn without_removed(
    b: Seq<Option<StoneColor>>,
    r: Seq<Option<StoneColor>>,
    c: StoneColor,
) -> Seq<Option<StoneColor>> {
    Seq::new(b.len(), |i: int| if b[i] == Some(c) && r[i] is None { None } else { b[i] })
}

/// The stones of colour `c` on `b` that are missing from `r`.
pub open spec fn removed_of(b: Seq<Option<StoneColor>>, r: Seq<Option<StoneColor>>, c: StoneColor) -> Set<int> {
    Set::new(|i: int| 0 <= i < b.len() && b[i] == Some(c) && r[i] is None)
}

proof fn lemma_index_in_range(w: int, h: int, p: Point)
    requires
        1 <= w,
        p.x < w,
        p.y < h,
    ensures
        0 <= index_of(w, p) < w * h,
{
    assert(p.y * w + p.x < w * h) by (nonlinear_arith)
        requires
            1 <= w,
            p.x < w,
            p.y < h,
            p.y >= 0,
            p.x >= 0,
    ;
    assert(p.y * w >= 0) by (nonlinear_arith)
        requires
            1 <= w,
            p.y >= 0,
    ;
}

impl Board {
    /// The board's invariant: a valid size, one entry per point in each
    /// table, and move numbers only on occupied points.
    pub open spec fn wf(&self) -> bool {
        &&& valid_size(self.width as int, self.height as int)
        &&& self.stones.len() == self.width * self.height
        &&& self.numbers.len() == self.stones.len()
        &&& self.marks.len() == self.stones.len()
        &&& self.selected.len() == self.stones.len()
        &&& self.dimmed.len() == self.stones.len()
        &&& forall|i: int| 0 <= i < self.stones.len() && #[trigger] self.numbers@[i] is Some ==> self.stones@[i] is Some
        &&& forall|i: int| 0 <= i < self.stones.len() ==> mark_fits(#[trigger] self.marks@[i], self.width as int, self.height as int)
    }

    pub open spec fn in_bounds(&self, p: Point) -> bool {
        p.x < self.width && p.y < self.height
    }

    /// The stone at a point.
    pub open spec fn stone(&self, p: Point) -> Option<StoneColor> {
        self.stones@[index_of(self.width as int, p)]
    }

    /// The move number shown at a point.
    pub open spec fn number(&self, p: Point) -> Option<u64> {
        self.numbers@[index_of(self.width as int, p)]
    }

    /// An empty board of the given size, or `InvalidBoardSize` when a side is
    /// zero or larger than `MAX_SIDE`.
    pub fn new(width: usize, height: usize) -> (r: Result<Board, MakeSvgError>)
        ensures
            r is Err <==> !valid_size(width as int, height as int),
            r matches Err(e) ==> e == MakeSvgError::InvalidBoardSize,
            r matches Ok(b) ==> {
                &&& b.wf()
                &&& b.width == width
                &&& b.height == height
                &&& forall|i: int| 0 <= i < b.stones.len() ==> #[trigger] b.stones@[i] is None
                &&& forall|i: int| 0 <= i < b.stones.len() ==> #[trigger] b.marks@[i] is None
                &&& forall|i: int| 0 <= i < b.stones.len() ==> !#[trigger] b.selected@[i] && !b.dimmed@[i]
            },
    {
        if width == 0 || height == 0 || width > MAX_SIDE || height > MAX_SIDE {
            return Err(MakeSvgError::InvalidBoardSize);
        }
        assert(width * height <= MAX_SIDE * MAX_SIDE) by (nonlinear_arith)
            requires
                width <= MAX_SIDE,
                height <= MAX_SIDE,
        ;
        let n = width * height;
        let mut b = Board {
            width,
            height,
            stones: Vec::new(),
            numbers: Vec::new(),
            marks: Vec::new(),
            selected: Vec::new(),
            dimmed: Vec::new(),
        };
        let mut i: usize = 0;
        while i < n
            invariant
                i <= n,
                n == width * height,
                valid_size(width as int, height as int),
                b.width == width,
                b.height == height,
                b.stones.len() == i,
                b.numbers.len() == i,
                b.marks.len() == i,
                b.selected.len() == i,
                b.dimmed.len() == i,
                forall|k: int| 0 <= k < i ==> #[trigger] b.stones@[k] is None,
                forall|k: int| 0 <= k < i ==> #[trigger] b.numbers@[k] is None,
                forall|k: int| 0 <= k < i ==> #[trigger] b.marks@[k] is None,
                forall|k: int| 0 <= k < i ==> !#[trigger] b.selected@[k] && !b.dimmed@[k],
            decreases n - i,
        {
            b.stones.push(None);
            b.numbers.push(None);
            b.marks.push(None);
            b.selected.push(false);
            b.dimmed.push(false);
            i += 1;
        }
        assert(b.wf());
        assert(forall|i: int| 0 <= i < b.stones.len() ==> #[trigger] b.stones@[i] is None);
        assert(forall|i: int| 0 <= i < b.stones.len() ==> #[trigger] b.marks@[i] is None);
        Ok(b)
    }

    /// The index of an on-board point.
    pub fn index(&self, p: Point) -> (r: usize)
        requires
            self.wf(),
            self.in_bounds(p),
        ensures
            r == index_of(self.width as int, p),
            r < self.stones.len(),
    {
        proof {
            lemma_index_in_range(self.width as int, self.height as int, p);
        }
        p.y * self.width + p.x
    }

    /// The stone at a point.
    pub fn stone_at(&self, p: Point) -> (r: Option<StoneColor>)
        requires
            self.wf(),
            self.in_bounds(p),
        ensures
            r == self.stone(p),
    {
        let i = self.index(p);
        self.stones[i]
    }

    /// The move number shown at a point.
    pub fn move_number(&self, p: Point) -> (r: Option<u64>)
        requires
            self.wf(),
            self.in_bounds(p),
        ensures
            r == self.number(p),
    {
        let i = self.index(p);
        self.numbers[i]
    }

    /// Plays a stone of colour `c` at `p`, showing `number` on it, and
    /// resolves captures: first every opponent group left without
    /// liberties, then every group of the mover's colour left without
    /// liberties. A removed stone loses its number and its annotations.
    /// A point off the board or already occupied is an `InvalidMove`, and
    /// leaves the board as it was.
    pub fn place(&mut self, c: StoneColor, p: Point, number: Option<u64>) -> (r: Result<(), MakeSvgError>)
        requires
            old(self).wf(),
        ensures
            r is Err <==> !old(self).in_bounds(p) || old(self).stone(p) is Some,
            r matches Err(e) ==> e == MakeSvgError::InvalidMove && *final(self) == *old(self),
            r is Ok ==> ({
                let w = old(self).width as int;
                let mid = old(self).stones@.update(index_of(w, p), Some(c));
                let after_opp = without_removed(mid, final(self).stones@, c.opposite());
                &&& final(self).wf()
                &&& final(self).width == old(self).width
                &&& final(self).height == old(self).height
                &&& forall|i: int| 0 <= i < old(self).stones.len() ==> final(self).stones@[i] == mid[i] || final(self).stones@[i] is None
                &&& zero_liberty_set(mid, w, removed_of(mid, final(self).stones@, c.opposite()))
                &&& forall|dd: Set<int>, i: int|
                    #[trigger] zero_liberty_set(mid, w, dd) && #[trigger] dd.contains(i) && mid[i] == Some(c.opposite())
                        ==> final(self).stones@[i] is None
                &&& zero_liberty_set(after_opp, w, removed_of(after_opp, final(self).stones@, c))
                &&& forall|dd: Set<int>, i: int|
                    #[trigger] zero_liberty_set(after_opp, w, dd) && #[trigger] dd.contains(i) && after_opp[i] == Some(c)
                        ==> final(self).stones@[i] is None
                &&& no_dead_group(final(self).stones@, w)
                &&& placed_stones(w, old(self).stones@, c, index_of(w, p), final(self).stones@)
                &&& final(self).selected == old(self).selected
                &&& final(self).dimmed == old(self).dimmed
                &&& forall|i: int| 0 <= i < old(self).stones.len() ==> #[trigger] final(self).numbers@[i] == if final(self).stones@[i] is None {
                    None
                } else if i == index_of(w, p) {
                    number
                } else {
                    old(self).numbers@[i]
                }
                &&& forall|i: int| 0 <= i < old(self).stones.len() ==> #[trigger] final(self).marks@[i] == if final(self).stones@[i] is None && old(self).stones@[i] is Some {
                    None
                } else {
                    old(self).marks@[i]
                }
            }),
    {
        if p.x >= self.width || p.y >= self.height {
            return Err(MakeSvgError::InvalidMove);
        }
        let idx = self.index(p);
        if self.stones[idx].is_some() {
            return Err(MakeSvgError::InvalidMove);
        }
        let ghost w = self.width as int;
        let ghost old_self = *self;
        proof {
            assert(self.width * self.height <= MAX_SIDE * MAX_SIDE) by (nonlinear_arith)
                requires
                    self.width <= MAX_SIDE,
                    self.height <= MAX_SIDE,
            ;
        }
        let mut mid = copy_stones(&self.stones);
        mid.set(idx, Some(c));
        let b1 = capture(&mid, self.width, c.other());
        let b2 = capture(&b1, self.width, c);
        proof {
            assert(mid@ =~= old_self.stones@.update(index_of(w, p), Some(c)));
            assert(b1@ =~= without_removed(mid@, b2@, c.opposite()));
            assert(changed_cells(mid@, b1@) =~= removed_of(mid@, b2@, c.opposite()));
            assert(changed_cells(b1@, b2@) =~= removed_of(b1@, b2@, c));
            if c == StoneColor::Black {
                lemma_settled_no_dead_group(b2@, w);
            } else {
                lemma_settled_no_dead_group(b2@, w);
            }
        }
        let n = b2.len();
        let mut i: usize = 0;
        while i < n
            invariant
                n == b2.len(),
                n == mid.len(),
                i <= n,
                self.width == old_self.width,
                self.height == old_self.height,
                self.stones == old_self.stones,
                self.stones.len() == n,
                self.numbers.len() == n,
                self.marks.len() == n,
                self.selected == old_self.selected,
                self.dimmed == old_self.dimmed,
                old_self.wf(),
                idx == index_of(old_self.width as int, p),
                forall|k: int| 0 <= k < i ==> #[trigger] self.numbers@[k] == if b2@[k] is None {
                    None
                } else if k == idx {
                    number
                } else {
                    old_self.numbers@[k]
                },
                forall|k: int| i <= k < n ==> #[trigger] self.numbers@[k] == old_self.numbers@[k],
                forall|k: int| 0 <= k < i ==> #[trigger] self.marks@[k] == if b2@[k] is None && old_self.stones@[k] is Some {
                    None
                } else {
                    old_self.marks@[k]
                },
                forall|k: int| i <= k < n ==> #[trigger] self.marks@[k] == old_self.marks@[k],
            decreases n - i,
        {
            if b2[i].is_none() {
                self.numbers.set(i, None);
                if self.stones[i].is_some() {
                    self.marks.set(i, None);
                }
            } else if i == idx {
                self.numbers.set(i, number);
            }
            i += 1;
        }
        self.stones = b2;
        Ok(())
    }

    /// Puts a setup stone on an empty point, with no move number and no
    /// capture. A point off the board or already occupied is an
    /// `InvalidMove`, and leaves the board as it was.
    pub fn set_up(&mut self, c: StoneColor, p: Point) -> (r: Result<(), MakeSvgError>)
        requires
            old(self).wf(),
        ensures
            r is Err <==> !old(self).in_bounds(p) || old(self).stone(p) is Some,
            r matches Err(e) ==> e == MakeSvgError::InvalidMove && *final(self) == *old(self),
            r is Ok ==> final(self).wf() && final(self).stones@ == old(self).stones@.update(
                index_of(old(self).width as int, p),
                Some(c),
            ) && final(self).numbers == old(self).numbers && final(self).marks == old(self).marks
                && final(self).selected == old(self).selected && final(self).dimmed == old(self).dimmed
                && final(self).width == old(self).width && final(self).height == old(self).height,
    {
        if p.x >= self.width || p.y >= self.height {
            return Err(MakeSvgError::InvalidMove);
        }
        let idx = self.index(p);
        if self.stones[idx].is_some() {
            return Err(MakeSvgError::InvalidMove);
        }
        self.stones.set(idx, Some(c));
        Ok(())
    }

    /// Attaches an annotation to an on-board point: `Selected` and `Dimmed`
    /// set the point's flag, any other kind becomes the point's one shape
    /// annotation, replacing an earlier one. A point, or a line or arrow
    /// end, off the board is an `InvalidMove`, and leaves the board as it was.
    pub fn annotate(&mut self, p: Point, m: Markup) -> (r: Result<(), MakeSvgError>)
        requires
            old(self).wf(),
        ensures
            r is Err <==> !old(self).in_bounds(p) || (match m {
                Markup::Line(q) => !old(self).in_bounds(q),
                Markup::Arrow(q) => !old(self).in_bounds(q),
                _ => false,
            }),
            r matches Err(e) ==> e == MakeSvgError::InvalidMove && *final(self) == *old(self),
            r is Ok ==> ({
                let i = index_of(old(self).width as int, p);
                &&& final(self).wf()
                &&& final(self).width == old(self).width
                &&& final(self).height == old(self).height
                &&& final(self).stones == old(self).stones
                &&& final(self).numbers == old(self).numbers
                &&& final(self).selected@ == if m is Selected {
                    old(self).selected@.update(i, true)
                } else {
                    old(self).selected@
                }
                &&& final(self).dimmed@ == if m is Dimmed {
                    old(self).dimmed@.update(i, true)
                } else {
                    old(self).dimmed@
                }
                &&& final(self).marks@ == if m is Selected || m is Dimmed {
                    old(self).marks@
                } else {
                    old(self).marks@.update(i, Some(m))
                }
            }),
    {
        if p.x >= self.width || p.y >= self.height {
            return Err(MakeSvgError::InvalidMove);
        }
        match m {
            Markup::Line(q) => {
                if q.x >= self.width || q.y >= self.height {
                    return Err(MakeSvgError::InvalidMove);
                }
            },
            Markup::Arrow(q) => {
                if q.x >= self.width || q.y >= self.height {
                    return Err(MakeSvgError::InvalidMove);
                }
            },
            _ => {},
        }
        let i = self.index(p);
        match m {
            Markup::Selected => {
                self.selected.set(i, true);
            },
            Markup::Dimmed => {
                self.dimmed.set(i, true);
            },
            _ => {
                self.marks.set(i, Some(m));
            },
        }
        Ok(())
    }
}

/// Whether a record is a move: a placement or a pass.
pub open spec fn is_move(r: MoveRecord) -> bool {
    r is Placement || r is Pass
}

/// The number of moves among the first `j` records.
pub open spec fn moves_before(records: Seq<MoveRecord>, j: int) -> nat
    decreases j,
{
    if j <= 0 {
        0
    } else {
        moves_before(records, j - 1) + if is_move(records[j - 1]) {
            1nat
        } else {
            0nat
        }
    }
}

/// Record `j` is a placement at the point stored at index `i`, and it is
/// move number `m`.
pub open spec fn placement_at(records: Seq<MoveRecord>, w: int, j: int, i: int, m: nat) -> bool {
    0 <= j < records.len() && match records[j] {
        MoveRecord::Placement(_, p) => index_of(w, p) == i && moves_before(records, j) + 1 == m,
        _ => false,
    }
}

/// Record `j` is a setup record whose entry `k` is at the point stored at index `i`.
pub open spec fn setup_at(records: Seq<MoveRecord>, w: int, j: int, k: int, i: int) -> bool {
    0 <= j < records.len() && match records[j] {
        MoveRecord::Setup(list) => 0 <= k < list@.len() && index_of(w, list@[k].1) == i,
        _ => false,
    }
}

/// Where each stone of `b` came from: `Some(m)` for move `m` of the path,
/// which shows its number exactly when `m` lies in the range, or `None` for
/// a setup stone, which shows none.
pub open spec fn origins_explain(
    records: Seq<MoveRecord>,
    b: Board,
    origin: Seq<Option<nat>>,
    start: u64,
    end: u64,
) -> bool {
    &&& origin.len() == b.stones.len()
    &&& forall|i: int|
        0 <= i < b.stones.len() && #[trigger] b.stones@[i] is Some ==> match origin[i] {
            Some(m) => (exists|j: int| #[trigger] placement_at(records, b.width as int, j, i, m)) && b.numbers@[i]
                == if start <= m <= end {
                Some(m as u64)
            } else {
                None
            },
            None => (exists|j: int, k: int| #[trigger] setup_at(records, b.width as int, j, k, i)) && b.numbers@[i] is None,
        }
}

/// Counts the moves of a path.
pub fn count_moves(records: &Vec<MoveRecord>) -> (r: u64)
    requires
        records.len() < u64::MAX,
    ensures
        r == moves_before(records@, records.len() as int),
{
    let mut n: u64 = 0;
    let mut j: usize = 0;
    while j < records.len()
        invariant
            j <= records.len(),
            records.len() < u64::MAX,
            n == moves_before(records@, j as int),
            n <= j,
        decreases records.len() - j,
    {
        match &records[j] {
            MoveRecord::Placement(_, _) => {
                n += 1;
            },
            MoveRecord::Pass => {
                n += 1;
            },
            _ => {},
        }
        j += 1;
    }
    n
}

/// The empty stone table of `n` points.
pub open spec fn empty_stones(n: nat) -> Seq<Option<StoneColor>> {
    Seq::new(n, |i: int| None)
}

/// Whether a point lies on a board of width `w` and height `h`.
pub open spec fn fits(w: int, h: int, p: Point) -> bool {
    p.x < w && p.y < h
}

/// `after` is `before` with a stone of colour `c` played at index `idx`:
/// the opponent's stones in groups left without liberties are removed, then
/// the mover's stones in groups still without liberties.
pub open spec fn placed_stones(
    w: int,
    before: Seq<Option<StoneColor>>,
    c: StoneColor,
    idx: int,
    after: Seq<Option<StoneColor>>,
) -> bool {
    let mid = before.update(idx, Some(c));
    let after_opp = without_removed(mid, after, c.opposite());
    &&& after.len() == before.len()
    &&& forall|i: int| 0 <= i < before.len() ==> after[i] == mid[i] || after[i] is None
    &&& zero_liberty_set(mid, w, removed_of(mid, after, c.opposite()))
    &&& forall|dd: Set<int>, i: int|
        #[trigger] zero_liberty_set(mid, w, dd) && #[trigger] dd.contains(i) && mid[i] == Some(c.opposite())
            ==> after[i] is None
    &&& zero_liberty_set(after_opp, w, removed_of(after_opp, after, c))
    &&& forall|dd: Set<int>, i: int|
        #[trigger] zero_liberty_set(after_opp, w, dd) && #[trigger] dd.contains(i) && after_opp[i] == Some(c)
            ==> after[i] is None
}

/// A placement has one outcome.
pub proof fn lemma_placed_unique(
    w: int,
    before: Seq<Option<StoneColor>>,
    c: StoneColor,
    idx: int,
    a1: Seq<Option<StoneColor>>,
    a2: Seq<Option<StoneColor>>,
)
    requires
        0 <= idx < before.len(),
        placed_stones(w, before, c, idx, a1),
        placed_stones(w, before, c, idx, a2),
    ensures
        a1 == a2,
{
    let mid = before.update(idx, Some(c));
    let o = c.opposite();
    let r1 = removed_of(mid, a1, o);
    let r2 = removed_of(mid, a2, o);
    assert forall|i: int| 0 <= i < mid.len() && mid[i] == Some(o) implies a1[i] == a2[i] by {
        if a1[i] is None {
            assert(r1.contains(i));
        }
        if a2[i] is None {
            assert(r2.contains(i));
        }
    }
    let ao1 = without_removed(mid, a1, o);
    let ao2 = without_removed(mid, a2, o);
    assert(ao1 =~= ao2);
    let s1 = removed_of(ao1, a1, c);
    let s2 = removed_of(ao2, a2, c);
    assert forall|i: int| 0 <= i < mid.len() implies a1[i] == a2[i] by {
        if mid[i] == Some(o) {
        } else if mid[i] is None {
        } else {
            assert(ao1[i] == Some(c));
            if a1[i] is None {
                assert(s1.contains(i));
                assert(zero_liberty_set(ao2, w, s1));
                assert(a2[i] is None);
            }
            if a2[i] is None {
                assert(s2.contains(i));
                assert(zero_liberty_set(ao1, w, s2));
                assert(a1[i] is None);
            }
        }
    }
    assert(a1 =~= a2);
}

/// The stones after the first `k` entries of a setup record, or `None` when
/// one lands off the board or on an occupied point.
pub open spec fn setup_stones(
    b: Seq<Option<StoneColor>>,
    w: int,
    h: int,
    list: Seq<(StoneColor, Point)>,
    k: int,
) -> Option<Seq<Option<StoneColor>>>
    decreases k,
{
    if k <= 0 {
        Some(b)
    } else {
        match setup_stones(b, w, h, list, k - 1) {
            None => None,
            Some(b2) => {
                let (c, p) = list[k - 1];
                if !fits(w, h, p) || b2[index_of(w, p)] is Some {
                    None
                } else {
                    Some(b2.update(index_of(w, p), Some(c)))
                }
            },
        }
    }
}

/// The stones after the first `j` records, applying those that come before
/// the first move numbered above `limit`, or `None` when a stone lands off
/// the board or on an occupied point.
pub open spec fn replayed(records: Seq<MoveRecord>, w: int, h: int, limit: nat, j: int) -> Option<
    Seq<Option<StoneColor>>,
>
    decreases j,
{
    if j <= 0 {
        Some(empty_stones((w * h) as nat))
    } else {
        match replayed(records, w, h, limit, j - 1) {
            None => None,
            Some(b) => if moves_before(records, j) > limit {
                Some(b)
            } else {
                match records[j - 1] {
                    MoveRecord::Placement(c, p) => if !fits(w, h, p) || b[index_of(w, p)] is Some {
                        None
                    } else {
                        Some(choose|a: Seq<Option<StoneColor>>| placed_stones(w, b, c, index_of(w, p), a))
                    },
                    MoveRecord::Setup(list) => setup_stones(b, w, h, list@, list@.len() as int),
                    _ => Some(b),
                }
            },
        }
    }
}

proof fn lemma_replayed_none(records: Seq<MoveRecord>, w: int, h: int, limit: nat, j1: int, j2: int)
    requires
        0 <= j1 <= j2,
        replayed(records, w, h, limit, j1) is None,
    ensures
        replayed(records, w, h, limit, j2) is None,
    decreases j2 - j1,
{
    if j2 > j1 {
        lemma_replayed_none(records, w, h, limit, j1, j2 - 1);
    }
}

proof fn lemma_setup_none(
    b: Seq<Option<StoneColor>>,
    w: int,
    h: int,
    list: Seq<(StoneColor, Point)>,
    k1: int,
    k2: int,
)
    requires
        0 <= k1 <= k2,
        setup_stones(b, w, h, list, k1) is None,
    ensures
        setup_stones(b, w, h, list, k2) is None,
    decreases k2 - k1,
{
    if k2 > k1 {
        lemma_setup_none(b, w, h, list, k1, k2 - 1);
    }
}

/// The last move applied for the range `[start, end]`: none when `start` is
/// past the last move.
pub open spec fn limit_of(records: Seq<MoveRecord>, start: u64, end: u64) -> nat {
    if start > moves_before(records, records.len() as int) {
        0
    } else {
        end as nat
    }
}

/// An annotation stays on the board, and so does the far end of a line or arrow.
pub open spec fn annotation_fits(w: int, h: int, a: (Point, Markup)) -> bool {
    fits(w, h, a.0) && match a.1 {
        Markup::Line(q) => fits(w, h, q),
        Markup::Arrow(q) => fits(w, h, q),
        _ => true,
    }
}

pub open spec fn annotations_fit(w: int, h: int, anns: Seq<(Point, Markup)>) -> bool {
    forall|k: int| 0 <= k < anns.len() ==> #[trigger] annotation_fits(w, h, anns[k])
}

/// The shape annotations, selection flags and dimming flags of `n` points
/// after the first `k` annotations, each applied as `Board::annotate` does.
pub open spec fn annotated(n: nat, w: int, anns: Seq<(Point, Markup)>, k: int) -> (
    Seq<Option<Markup>>,
    Seq<bool>,
    Seq<bool>,
)
    decreases k,
{
    if k <= 0 {
        (Seq::new(n, |i: int| None), Seq::new(n, |i: int| false), Seq::new(n, |i: int| false))
    } else {
        let prev = annotated(n, w, anns, k - 1);
        let i = index_of(w, anns[k - 1].0);
        match anns[k - 1].1 {
            Markup::Selected => (prev.0, prev.1.update(i, true), prev.2),
            Markup::Dimmed => (prev.0, prev.1, prev.2.update(i, true)),
            m => (prev.0.update(i, Some(m)), prev.1, prev.2),
        }
    }
}

/// Replays a path onto an empty board of the given size, through move `end`
/// of the range `[start, end]`, and then attaches the annotations of the
/// path's last node. Only moves numbered within the range keep their number
/// on the board. When `start` is past the last move, only the setup stones
/// that come before the first move are placed.
///
/// Errors: `InvalidBoardSize` for a side of zero or above `MAX_SIDE`;
/// `RangeOutOfBounds` when `end < start`; `InvalidMove` for a stone on an
/// occupied or off-board point, or an annotation, or the far end of a line
/// or arrow, off the board.
pub fn replay(
    width: usize,
    height: usize,
    records: &Vec<MoveRecord>,
    start: u64,
    end: u64,
    annotations: Vec<(Point, Markup)>,
) -> (r: Result<Board, MakeSvgError>)
    requires
        records.len() < u64::MAX,
    ensures
        !valid_size(width as int, height as int) ==> r == Err::<Board, MakeSvgError>(MakeSvgError::InvalidBoardSize),
        valid_size(width as int, height as int) && end < start ==> r == Err::<Board, MakeSvgError>(
            MakeSvgError::RangeOutOfBounds,
        ),
        valid_size(width as int, height as int) && start <= end ==> (r is Err <==> (replayed(
            records@,
            width as int,
            height as int,
            limit_of(records@, start, end),
            records@.len() as int,
        ) is None || !annotations_fit(width as int, height as int, annotations@))),
        valid_size(width as int, height as int) && start <= end ==> (r matches Err(e) ==> e == MakeSvgError::InvalidMove),
        r matches Ok(b) ==> {
            &&& b.wf()
            &&& b.width == width
            &&& b.height == height
            &&& replayed(records@, width as int, height as int, limit_of(records@, start, end), records@.len() as int)
                == Some(b.stones@)
            &&& annotated(b.stones.len() as nat, width as int, annotations@, annotations@.len() as int) == (
                b.marks@,
                b.selected@,
                b.dimmed@,
            )
            &&& forall|i: int|
                0 <= i < b.numbers.len() ==> (#[trigger] b.numbers@[i] matches Some(k) ==> start <= k <= end)
            &&& exists|origin: Seq<Option<nat>>| #[trigger] origins_explain(records@, b, origin, start, end)
            &&& (forall|k: int| 0 <= k < records.len() ==> !(#[trigger] records@[k] is Setup)) ==> no_dead_group(
                b.stones@,
                width as int,
            )
        },
{
    let mut board = match Board::new(width, height) {
        Ok(b) => b,
        Err(e) => {
            return Err(e);
        },
    };
    if end < start {
        return Err(MakeSvgError::RangeOutOfBounds);
    }
    let limit: u64 = if start > count_moves(records) {
        0
    } else {
        end
    };
    let ghost w = width as int;
    let ghost h = height as int;
    let ghost n = board.stones.len() as nat;
    let ghost lim = limit_of(records@, start, end);
    assert(board.stones@ =~= empty_stones(n));
    assert forall|dd: Set<int>| #[trigger] zero_liberty_set(board.stones@, width as int, dd) implies dd.is_empty() by {
        assert(dd =~= Set::empty());
    }
    assert(board.marks@ =~= Seq::new(n, |i: int| None::<Markup>));
    assert forall|i: int| 0 <= i < n implies !board.selected@[i] && !board.dimmed@[i] by {}
    assert(board.selected@ =~= Seq::new(n, |i: int| false));
    assert(board.dimmed@ =~= Seq::new(n, |i: int| false));
    let mut number: u64 = 0;
    let mut j: usize = 0;
    let ghost mut origin: Seq<Option<nat>> = Seq::new(board.stones.len() as nat, |i: int| None);
    while j < records.len()
        invariant
            number <= j,
            number == moves_before(records@, j as int),
            limit == lim,
            lim == limit_of(records@, start, end),
            w == width as int,
            h == height as int,
            n == board.stones.len(),
            replayed(records@, w, h, lim, j as int) == Some(board.stones@),
            (forall|k: int| 0 <= k < j ==> !(#[trigger] records@[k] is Setup)) ==> no_dead_group(board.stones@, w),
            board.marks@ == Seq::new(n, |i: int| None::<Markup>),
            board.selected@ == Seq::new(n, |i: int| false),
            board.dimmed@ == Seq::new(n, |i: int| false),
            origins_explain(records@, board, origin, start, end),
            board.wf(),
            board.width == width,
            board.height == height,
            start <= end,
            limit <= end,
            j <= records.len(),
            records.len() < u64::MAX,
            forall|i: int|
                0 <= i < board.numbers.len() ==> (#[trigger] board.numbers@[i] matches Some(k) ==> start <= k
                    <= end),
        decreases records.len() - j,
    {
        let ghost prev = board;
        assert(moves_before(records@, j + 1) == moves_before(records@, j as int) + if is_move(records@[j as int]) {
            1nat
        } else {
            0nat
        });
        match &records[j] {
            MoveRecord::Placement(c, p) => {
                number += 1;
                if number <= limit {
                    let shown = if number >= start {
                        Some(number)
                    } else {
                        None
                    };
                    let ghost before = board;
                    let res = board.place(*c, *p, shown);
                    if res.is_err() {
                        proof {
                            assert(replayed(records@, w, h, lim, j + 1) is None);
                            lemma_replayed_none(records@, w, h, lim, j + 1, records@.len() as int);
                        }
                        return Err(MakeSvgError::InvalidMove);
                    }
                    proof {
                        let idx = index_of(w, *p);
                        lemma_index_in_range(w, h, *p);
                        let ch = choose|a: Seq<Option<StoneColor>>| placed_stones(w, before.stones@, *c, idx, a);
                        assert(placed_stones(w, before.stones@, *c, idx, board.stones@));
                        lemma_placed_unique(w, before.stones@, *c, idx, ch, board.stones@);
                        assert(board.marks@ =~= before.marks@);
                    }
                proof {
                        let idx = index_of(before.width as int, *p);
                        lemma_index_in_range(before.width as int, before.height as int, *p);
                        let m = number as nat;
                        let new_origin = origin.update(idx, Some(m));
                        assert(placement_at(records@, board.width as int, j as int, idx, m));
                        assert forall|i: int| 0 <= i < board.stones.len() && #[trigger] board.stones@[i] is Some implies match new_origin[i] {
                            Some(m2) => (exists|j2: int| #[trigger] placement_at(records@, board.width as int, j2, i, m2))
                                && board.numbers@[i] == if start <= m2 <= end {
                                Some(m2 as u64)
                            } else {
                                None
                            },
                            None => (exists|j2: int, k2: int| #[trigger] setup_at(records@, board.width as int, j2, k2, i))
                                && board.numbers@[i] is None,
                        } by {
                            if i != idx {
                                let mid = before.stones@.update(idx, Some(*c));
                                assert(board.stones@[i] == mid[i] || board.stones@[i] is None);
                                assert(mid[i] == before.stones@[i]);
                            }
                        }
                        origin = new_origin;
                    }
                    assert forall|i: int| 0 <= i < board.numbers.len() implies (#[trigger] board.numbers@[i] matches Some(
                        q,
                    ) ==> start <= q <= end) by {
                        assert(board.numbers@[i] == before.numbers@[i] || board.numbers@[i] == shown
                            || board.numbers@[i] is None);
                    }
                }
            },
            MoveRecord::Pass => {
                number += 1;
            },
            MoveRecord::Setup(list) => {
                let ghost b0 = board.stones@;
                if number <= limit {
                    let mut k: usize = 0;
                    while k < list.len()
                        invariant
                            0 <= j < records.len(),
                            records@[j as int] == MoveRecord::Setup(*list),
                            replayed(records@, w, h, lim, j as int) == Some(b0),
                            moves_before(records@, j + 1) == moves_before(records@, j as int),
                            number == moves_before(records@, j as int),
                            number <= limit,
                            limit == lim,
                            lim == limit_of(records@, start, end),
                            records.len() < u64::MAX,
                            j < records.len(),
                            w == width as int,
                            h == height as int,
                            n == board.stones.len(),
                            setup_stones(b0, w, h, list@, k as int) == Some(board.stones@),
                            board.marks@ == Seq::new(n, |i: int| None::<Markup>),
                            board.selected@ == Seq::new(n, |i: int| false),
                            board.dimmed@ == Seq::new(n, |i: int| false),
                            origins_explain(records@, board, origin, start, end),
                            board.wf(),
                            start <= end,
                            board.width == width,
                            board.height == height,
                            k <= list.len(),
                            forall|i: int|
                                0 <= i < board.numbers.len() ==> (#[trigger] board.numbers@[i] matches Some(q) ==> start
                                    <= q <= end),
                        decreases list.len() - k,
                    {
                        let (c, p) = list[k];
                        let ghost before = board;
                        let res = board.set_up(c, p);
                        if res.is_err() {
                            proof {
                                assert(setup_stones(b0, w, h, list@, k + 1) is None);
                                lemma_setup_none(b0, w, h, list@, k + 1, list@.len() as int);
                                assert(replayed(records@, w, h, lim, j + 1) is None);
                                lemma_replayed_none(records@, w, h, lim, j + 1, records@.len() as int);
                            }
                            return Err(MakeSvgError::InvalidMove);
                        }
                    proof {
                        let idx = index_of(before.width as int, p);
                        lemma_index_in_range(before.width as int, before.height as int, p);
                        let new_origin = origin.update(idx, None);
                        assert(setup_at(records@, board.width as int, j as int, k as int, idx));
                        assert(before.numbers@[idx] is None);
                        assert forall|i: int| 0 <= i < board.stones.len() && #[trigger] board.stones@[i] is Some implies match new_origin[i] {
                            Some(m2) => (exists|j2: int| #[trigger] placement_at(records@, board.width as int, j2, i, m2))
                                && board.numbers@[i] == if start <= m2 <= end {
                                Some(m2 as u64)
                            } else {
                                None
                            },
                            None => (exists|j2: int, k2: int| #[trigger] setup_at(records@, board.width as int, j2, k2, i))
                                && board.numbers@[i] is None,
                        } by {
                            if i != idx {
                                assert(before.stones@[i] is Some);
                            }
                        }
                        origin = new_origin;
                    }
                        k += 1;
                    }
                }
            },
            MoveRecord::MarkupOnly => {},
        }
        j += 1;
    }
    let ghost anns = annotations@;
    let mut rest = annotations;
    let ghost mut t: int = 0;
    assert(rest@ =~= anns.subrange(0, anns.len() as int));
    while rest.len() > 0
        invariant
            0 <= t <= anns.len(),
            anns == annotations@,
            lim == limit_of(records@, start, end),
            rest@ == anns.subrange(t, anns.len() as int),
            w == width as int,
            h == height as int,
            n == board.stones.len(),
            replayed(records@, w, h, lim, records@.len() as int) == Some(board.stones@),
            annotated(n, w, anns, t) == (board.marks@, board.selected@, board.dimmed@),
            (forall|k: int| 0 <= k < records.len() ==> !(#[trigger] records@[k] is Setup)) ==> no_dead_group(
                board.stones@,
                w,
            ),
            forall|k: int| 0 <= k < t ==> #[trigger] annotation_fits(w, h, anns[k]),
            origins_explain(records@, board, origin, start, end),
            board.wf(),
            start <= end,
            board.width == width,
            board.height == height,
            forall|i: int|
                0 <= i < board.numbers.len() ==> (#[trigger] board.numbers@[i] matches Some(k) ==> start <= k
                    <= end),
        decreases rest.len(),
    {
        assert(rest@[0] == anns[t]);
        let (p, m) = rest.remove(0);
        let res = board.annotate(p, m);
        if res.is_err() {
            assert(!annotation_fits(w, h, anns[t]));
            assert(!annotations_fit(w, h, anns));
            return Err(MakeSvgError::InvalidMove);
        }
        proof {
            lemma_index_in_range(w, h, p);
            assert(annotation_fits(w, h, anns[t]));
            t = t + 1;
            assert(rest@ =~= anns.subrange(t, anns.len() as int));
        }
    }
    assert(t == anns.len());
    Ok(board)
}

} // verus!
