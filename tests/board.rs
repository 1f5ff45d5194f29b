use goban_svg::board::{capture, count_moves, replay, Board, Markup, MoveRecord, MAX_SIDE};
use goban_svg::{MakeSvgError, Point, StoneColor};

fn pt(x: usize, y: usize) -> Point {
    Point { x, y }
}

fn play(c: StoneColor, x: usize, y: usize) -> MoveRecord {
    MoveRecord::Placement(c, pt(x, y))
}

fn stone_count(b: &Board) -> usize {
    b.stones.iter().filter(|s| s.is_some()).count()
}

#[test]
fn single_move_on_empty_board() {
    let records = vec![play(StoneColor::Black, 3, 3)];
    let b = replay(19, 19, &records, 1, 1, vec![]).unwrap();
    assert_eq!(stone_count(&b), 1);
    assert_eq!(b.stone_at(pt(3, 3)), Some(StoneColor::Black));
    assert_eq!(b.move_number(pt(3, 3)), Some(1));
}

#[test]
fn surrounded_stone_is_captured() {
    let records = vec![
        play(StoneColor::White, 1, 1),
        play(StoneColor::Black, 1, 0),
        play(StoneColor::Black, 0, 1),
        play(StoneColor::Black, 2, 1),
        play(StoneColor::Black, 1, 2),
    ];
    let b = replay(9, 9, &records, 1, 5, vec![]).unwrap();
    assert_eq!(b.stone_at(pt(1, 1)), None);
    assert_eq!(b.move_number(pt(1, 1)), None);
    assert_eq!(stone_count(&b), 4);
    assert_eq!(b.move_number(pt(1, 2)), Some(5));
}

#[test]
fn capture_clears_annotation_of_removed_stone() {
    let mut b = Board::new(5, 5).unwrap();
    b.place(StoneColor::White, pt(0, 0), Some(1)).unwrap();
    b.annotate(pt(0, 0), Markup::Triangle).unwrap();
    b.place(StoneColor::Black, pt(1, 0), Some(2)).unwrap();
    assert_eq!(b.marks[0], Some(Markup::Triangle));
    b.place(StoneColor::Black, pt(0, 1), Some(3)).unwrap();
    assert_eq!(b.stone_at(pt(0, 0)), None);
    assert_eq!(b.marks[0], None);
    assert_eq!(b.numbers[0], None);
}

#[test]
fn group_with_a_liberty_stays() {
    let records = vec![
        play(StoneColor::White, 0, 0),
        play(StoneColor::White, 1, 0),
        play(StoneColor::Black, 0, 1),
        play(StoneColor::Black, 1, 1),
    ];
    let b = replay(5, 5, &records, 1, 4, vec![]).unwrap();
    assert_eq!(b.stone_at(pt(0, 0)), Some(StoneColor::White));
    assert_eq!(b.stone_at(pt(1, 0)), Some(StoneColor::White));
    let mut b2 = b.clone();
    b2.place(StoneColor::Black, pt(2, 0), Some(5)).unwrap();
    assert_eq!(b2.stone_at(pt(0, 0)), None);
    assert_eq!(b2.stone_at(pt(1, 0)), None);
    assert_eq!(b2.stone_at(pt(2, 0)), Some(StoneColor::Black));
}

#[test]
fn suicide_removes_the_played_stone() {
    let mut b = Board::new(5, 5).unwrap();
    b.place(StoneColor::White, pt(1, 0), Some(1)).unwrap();
    b.place(StoneColor::White, pt(0, 1), Some(2)).unwrap();
    b.place(StoneColor::Black, pt(0, 0), Some(3)).unwrap();
    assert_eq!(b.stone_at(pt(0, 0)), None);
    assert_eq!(b.move_number(pt(0, 0)), None);
    assert_eq!(b.stone_at(pt(1, 0)), Some(StoneColor::White));
}

#[test]
fn capture_before_suicide_check() {
    // Black fills the last liberty of a white corner stone while having no
    // liberty of its own except through the capture.
    let mut b = Board::new(3, 3).unwrap();
    b.set_up(StoneColor::White, pt(0, 0)).unwrap();
    b.set_up(StoneColor::Black, pt(0, 1)).unwrap();
    b.set_up(StoneColor::White, pt(2, 0)).unwrap();
    b.set_up(StoneColor::White, pt(1, 1)).unwrap();
    b.place(StoneColor::Black, pt(1, 0), Some(1)).unwrap();
    assert_eq!(b.stone_at(pt(0, 0)), None);
    assert_eq!(b.stone_at(pt(1, 0)), Some(StoneColor::Black));
}

#[test]
fn capture_edges_do_not_wrap() {
    // On a 3-wide board, index 2 (end of row 0) and index 3 (start of row 1)
    // are not neighbours.
    let b = vec![
        None,
        Some(StoneColor::Black),
        Some(StoneColor::White),
        Some(StoneColor::Black),
        None,
        Some(StoneColor::Black),
    ];
    let r = capture(&b, 3, StoneColor::White);
    assert_eq!(r[2], None);
    let r2 = capture(&b, 3, StoneColor::Black);
    assert_eq!(r2, b);
}

#[test]
fn placement_on_occupied_point_is_invalid() {
    let records = vec![play(StoneColor::Black, 3, 3), play(StoneColor::White, 3, 3)];
    assert_eq!(replay(19, 19, &records, 1, 2, vec![]).unwrap_err(), MakeSvgError::InvalidMove);
    let mut b = Board::new(9, 9).unwrap();
    b.place(StoneColor::Black, pt(4, 4), None).unwrap();
    let before = b.clone();
    assert_eq!(b.place(StoneColor::White, pt(4, 4), None), Err(MakeSvgError::InvalidMove));
    assert_eq!(b.stones, before.stones);
}

#[test]
fn placement_off_board_is_invalid() {
    let records = vec![play(StoneColor::Black, 9, 0)];
    assert_eq!(replay(9, 9, &records, 1, 1, vec![]).unwrap_err(), MakeSvgError::InvalidMove);
    let mut b = Board::new(9, 9).unwrap();
    assert_eq!(b.annotate(pt(0, 9), Markup::Circle), Err(MakeSvgError::InvalidMove));
    assert_eq!(b.annotate(pt(0, 0), Markup::Line(pt(9, 9))), Err(MakeSvgError::InvalidMove));
}

#[test]
fn invalid_board_sizes() {
    assert_eq!(Board::new(0, 19).unwrap_err(), MakeSvgError::InvalidBoardSize);
    assert_eq!(Board::new(19, 0).unwrap_err(), MakeSvgError::InvalidBoardSize);
    assert_eq!(Board::new(MAX_SIDE + 1, 19).unwrap_err(), MakeSvgError::InvalidBoardSize);
    assert!(Board::new(MAX_SIDE, MAX_SIDE).is_ok());
    assert!(Board::new(1, 1).is_ok());
    assert_eq!(replay(0, 9, &vec![], 1, 1, vec![]).unwrap_err(), MakeSvgError::InvalidBoardSize);
}

#[test]
fn reversed_range_is_rejected() {
    let records = vec![play(StoneColor::Black, 3, 3)];
    assert_eq!(replay(19, 19, &records, 3, 2, vec![]).unwrap_err(), MakeSvgError::RangeOutOfBounds);
}

#[test]
fn numbers_only_inside_range() {
    let records = vec![
        play(StoneColor::Black, 0, 0),
        play(StoneColor::White, 1, 1),
        MoveRecord::Pass,
        play(StoneColor::White, 2, 2),
        play(StoneColor::Black, 3, 3),
    ];
    let b = replay(9, 9, &records, 2, 4, vec![]).unwrap();
    assert_eq!(b.move_number(pt(0, 0)), None);
    assert_eq!(b.stone_at(pt(0, 0)), Some(StoneColor::Black));
    assert_eq!(b.move_number(pt(1, 1)), Some(2));
    assert_eq!(b.move_number(pt(2, 2)), Some(4));
    assert_eq!(b.stone_at(pt(3, 3)), None);
}

#[test]
fn start_past_last_move_shows_setup_only() {
    let records = vec![
        MoveRecord::Setup(vec![(StoneColor::Black, pt(2, 2)), (StoneColor::White, pt(6, 6))]),
        play(StoneColor::Black, 4, 4),
        MoveRecord::MarkupOnly,
    ];
    assert_eq!(count_moves(&records), 1);
    let b = replay(9, 9, &records, 5, 8, vec![]).unwrap();
    assert_eq!(stone_count(&b), 2);
    assert_eq!(b.stone_at(pt(2, 2)), Some(StoneColor::Black));
    assert_eq!(b.move_number(pt(2, 2)), None);
    assert_eq!(b.stone_at(pt(4, 4)), None);
}

#[test]
fn annotations_of_last_node() {
    let records = vec![play(StoneColor::Black, 3, 3)];
    let marks = vec![
        (pt(3, 3), Markup::Selected),
        (pt(4, 4), Markup::Label("A".to_string())),
        (pt(5, 5), Markup::Dimmed),
        (pt(4, 4), Markup::Square),
    ];
    let b = replay(9, 9, &records, 1, 1, marks).unwrap();
    let i = b.index(pt(4, 4));
    assert_eq!(b.marks[i], Some(Markup::Square));
    assert!(b.selected[b.index(pt(3, 3))]);
    assert!(b.dimmed[b.index(pt(5, 5))]);
    assert_eq!(b.marks[b.index(pt(3, 3))], None);
}

#[test]
fn no_dead_group_after_each_move() {
    // A small fight; after every move no stone is left without a chain to a liberty.
    let moves = [
        (StoneColor::Black, 1, 0),
        (StoneColor::White, 0, 0),
        (StoneColor::Black, 0, 1),
        (StoneColor::White, 2, 0),
        (StoneColor::Black, 1, 1),
        (StoneColor::White, 3, 1),
        (StoneColor::Black, 2, 1),
        (StoneColor::White, 3, 0),
        (StoneColor::Black, 2, 2),
    ];
    let mut b = Board::new(4, 4).unwrap();
    for (k, (c, x, y)) in moves.iter().enumerate() {
        if b.stone_at(pt(*x, *y)).is_some() {
            continue;
        }
        b.place(*c, pt(*x, *y), Some(k as u64 + 1)).unwrap();
        for color in [StoneColor::Black, StoneColor::White] {
            assert_eq!(capture(&b.stones, 4, color), b.stones);
        }
    }
    assert_eq!(b.stone_at(pt(0, 0)), None);
}
