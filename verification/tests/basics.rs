use guess_session::basics::{foo_bar, Point};

#[test]
fn dist_is_the_squared_distance() {
    let p = Point { x: 3, y: 4 };
    assert_eq!(p.dist(), 25);
    let q = Point { x: 0, y: 0 };
    assert_eq!(q.dist(), 0);
    let r = Point { x: -2, y: 1 };
    assert_eq!(r.dist(), 5);
}

#[test]
fn foo_bar_triples() {
    assert_eq!(foo_bar(3), 9);
    assert_eq!(foo_bar(0), 0);
    assert_eq!(foo_bar(-4), -12);
}
