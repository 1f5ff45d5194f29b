use goban_svg::layout::{hoshi, Layout};
use goban_svg::{MakeSvgError, Point};

#[test]
fn pixel_round_trip_every_point() {
    let l = Layout::new(19, 13, 40, 30).unwrap();
    for x in 0..19 {
        for y in 0..13 {
            let p = Point { x, y };
            let (px, py) = l.to_pixel(p);
            assert_eq!(l.snap(px, py), p);
            assert_eq!(l.snap(px + 19, py - 19), p);
        }
    }
}

#[test]
fn pixel_positions() {
    let l = Layout::new(19, 19, 100, 100).unwrap();
    assert_eq!(l.to_pixel(Point { x: 3, y: 3 }), (400, 400));
    assert_eq!(l.to_pixel(Point { x: 0, y: 18 }), (100, 1900));
    assert_eq!(l.dimensions(), (2000, 2000));
    assert_eq!(l.snap(0, 5000), Point { x: 0, y: 18 });
}

#[test]
fn layout_rejects_bad_size() {
    assert_eq!(Layout::new(0, 19, 10, 10).unwrap_err(), MakeSvgError::InvalidBoardSize);
}

#[test]
fn hoshi_standard_sizes() {
    let h19 = hoshi(19, 19);
    assert_eq!(h19.len(), 9);
    assert!(h19.contains(&Point { x: 3, y: 3 }));
    assert!(h19.contains(&Point { x: 9, y: 9 }));
    assert!(h19.contains(&Point { x: 15, y: 3 }));
    let h13 = hoshi(13, 13);
    assert_eq!(h13.len(), 5);
    assert!(h13.contains(&Point { x: 6, y: 6 }));
    let h9 = hoshi(9, 9);
    assert_eq!(
        h9,
        vec![
            Point { x: 2, y: 2 },
            Point { x: 6, y: 2 },
            Point { x: 4, y: 4 },
            Point { x: 2, y: 6 },
            Point { x: 6, y: 6 }
        ]
    );
}

#[test]
fn hoshi_other_sizes_empty() {
    assert!(hoshi(7, 7).is_empty());
    assert!(hoshi(9, 13).is_empty());
    assert!(hoshi(1, 1).is_empty());
}

#[test]
fn layout_rejects_bad_geometry() {
    assert_eq!(Layout::new(9, 9, 0, 10).unwrap_err(), MakeSvgError::InvalidLayout);
    assert_eq!(Layout::new(9, 9, 100, 49).unwrap_err(), MakeSvgError::InvalidLayout);
    assert_eq!(Layout::new(9, 9, 101, 50).unwrap_err(), MakeSvgError::InvalidLayout);
    assert!(Layout::new(9, 9, 100, 50).is_ok());
    assert!(Layout::new(9, 9, 99, 50).is_ok());
}
