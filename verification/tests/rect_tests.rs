use rusty_roguelike::rect::Rect;

#[test]
fn rect_new_keeps_corners() {
    let r = Rect::new(3, 4, 6, 7);
    assert_eq!((r.x1, r.y1, r.x2, r.y2), (3, 4, 9, 11));
}

#[test]
fn rect_intersect_is_inclusive_and_symmetric() {
    let a = Rect::new(0, 0, 5, 5);
    let touching = Rect::new(5, 5, 2, 2);
    let apart = Rect::new(6, 0, 2, 2);
    assert!(a.intersect(&touching));
    assert!(touching.intersect(&a));
    assert!(!a.intersect(&apart));
    assert!(!apart.intersect(&a));
    assert!(a.intersect(&a));
}

#[test]
fn rect_center_rounds_towards_zero() {
    assert_eq!(Rect::new(0, 0, 5, 5).center(), (2, 2));
    assert_eq!(Rect::new(10, 20, 6, 8).center(), (13, 24));
    assert_eq!(Rect::new(-3, -3, 0, 0).center(), (-3, -3));
    assert_eq!(Rect { x1: -3, x2: 0, y1: -1, y2: 0 }.center(), (-1, 0));
}
