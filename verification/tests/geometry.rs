use dungeon_builder::geometry::{Point, Rect};

fn rect(x1: i32, x2: i32, y1: i32, y2: i32) -> Rect {
    Rect { x1, x2, y1, y2 }
}

#[test]
fn point_new_keeps_coordinates() {
    let p = Point::new(-3, 7);
    assert_eq!(p.x, -3);
    assert_eq!(p.y, 7);
    assert_eq!(p, Point { x: -3, y: 7 });
}

#[test]
fn with_size_adds_the_extent_to_the_origin() {
    assert_eq!(Rect::with_size(3, 4, 5, 6), rect(3, 8, 4, 10));
    assert_eq!(Rect::with_size(-2, -2, 5, 5), rect(-2, 3, -2, 3));
    assert_eq!(Rect::with_size(0, 0, 0, 0), rect(0, 0, 0, 0));
    assert_eq!(
        Rect::with_size(i32::MAX - 9, i32::MIN, 9, 1),
        rect(i32::MAX - 9, i32::MAX, i32::MIN, i32::MIN + 1)
    );
}

#[test]
fn center_is_the_midpoint() {
    assert_eq!(Rect::with_size(3, 3, 4, 4).center(), Point::new(5, 5));
    assert_eq!(Rect::with_size(13, 3, 4, 4).center(), Point::new(15, 5));
    assert_eq!(Rect::with_size(0, 0, 5, 5).center(), Point::new(2, 2));
    assert_eq!(Rect::with_size(40, 12, 3, 7).center(), Point::new(41, 15));
}

#[test]
fn center_rounds_down_on_both_sides_of_zero() {
    assert_eq!(rect(0, 1, 0, 3).center(), Point::new(0, 1));
    assert_eq!(rect(-3, -2, -1, 0).center(), Point::new(-3, -1));
    assert_eq!(rect(-4, -2, -7, 2).center(), Point::new(-3, -3));
    assert_eq!(rect(-1, 0, -1, 2).center(), Point::new(-1, 0));
}

#[test]
fn center_of_extreme_rectangles_does_not_overflow() {
    assert_eq!(
        rect(i32::MAX - 1, i32::MAX, i32::MIN, i32::MIN + 1).center(),
        Point::new(i32::MAX - 1, i32::MIN)
    );
    assert_eq!(rect(i32::MIN, i32::MAX, i32::MIN, i32::MAX).center(), Point::new(-1, -1));
    assert_eq!(
        rect(i32::MAX, i32::MAX, i32::MIN, i32::MIN).center(),
        Point::new(i32::MAX, i32::MIN)
    );
}

#[test]
fn center_of_a_proper_rectangle_is_one_of_its_cells() {
    for x1 in -6..6 {
        for w in 1..6 {
            let r = rect(x1, x1 + w, 2 * x1, 2 * x1 + w);
            let c = r.center();
            assert!(r.x1 <= c.x && c.x < r.x2);
            assert!(r.y1 <= c.y && c.y < r.y2);
        }
    }
}

#[test]
fn overlapping_rectangles_intersect() {
    let a = Rect::with_size(2, 2, 5, 5);
    let b = Rect::with_size(0, 0, 5, 5);
    assert!(a.intersect(&b));
    assert!(b.intersect(&a));
    assert!(a.intersect(&a));
}

#[test]
fn touching_rectangles_intersect() {
    let a = Rect::with_size(0, 0, 5, 5);
    assert!(a.intersect(&Rect::with_size(5, 0, 5, 5)));
    assert!(a.intersect(&Rect::with_size(0, 5, 5, 5)));
    assert!(a.intersect(&Rect::with_size(5, 5, 5, 5)));
    assert!(Rect::with_size(5, 5, 5, 5).intersect(&a));
}

#[test]
fn rectangles_with_a_gap_do_not_intersect() {
    let a = Rect::with_size(0, 0, 5, 5);
    assert!(!a.intersect(&Rect::with_size(6, 0, 5, 5)));
    assert!(!a.intersect(&Rect::with_size(0, 6, 5, 5)));
    assert!(!Rect::with_size(6, 0, 5, 5).intersect(&a));
    assert!(!Rect::with_size(0, 6, 5, 5).intersect(&a));
    assert!(!Rect::with_size(3, 3, 4, 4).intersect(&Rect::with_size(13, 3, 4, 4)));
}
