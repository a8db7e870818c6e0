use bitchess::position::{Offset, Position};

#[test]
fn square_names() {
    assert_eq!(Position::from_str("a1"), Some(Position::from_index(0)));
    assert_eq!(Position::from_str("h8"), Some(Position::from_index(63)));
    assert_eq!(Position::from_str("e4"), Some(Position::new(4, 3)));
    assert_eq!(Position::from_str("i1"), None);
    assert_eq!(Position::from_str("a9"), None);
    assert_eq!(Position::from_str("e"), None);
    assert_eq!(Position::from_str("e44"), None);
}

#[test]
fn coordinates() {
    let p = Position::new(6, 2);
    assert_eq!(p.index(), 22);
    assert_eq!(p.x(), 6);
    assert_eq!(p.y(), 2);
    assert_eq!(p.as_tuple(), (6, 2));
    assert_eq!(p.as_mask(), 1u64 << 22);
}

#[test]
fn moving_squares() {
    let p = Position::new(1, 1);
    assert_eq!(p.with_offset(Offset::new(-1, 2)), Some(Position::new(0, 3)));
    assert_eq!(p.with_offset(Offset::new(-2, 0)), None);
    assert_eq!(p.with_x(7), Some(Position::new(7, 1)));
    assert_eq!(p.with_x(8), None);
    assert_eq!(p.with_y(0), Some(Position::new(1, 0)));
    assert_eq!(p.add_x(6), Some(Position::new(7, 1)));
    assert_eq!(p.add_x(7), None);
    assert_eq!(p.add_y(2), Some(Position::new(1, 3)));
    assert_eq!(p.sub_x(1), Some(Position::new(0, 1)));
    assert_eq!(p.sub_x(2), None);
    assert_eq!(p.sub_y(2), None);
}

#[test]
fn snapping_to_edges() {
    assert_eq!(Position::new(3, 5).snap_to_side(), Position::new(0, 5));
    assert_eq!(Position::new(4, 5).snap_to_side(), Position::new(7, 5));
}

#[test]
fn scaling_steps() {
    assert_eq!(Offset::new(1, -1).mul(7), Some(Offset::new(7, -7)));
    assert_eq!(Offset::new(1, 0).mul(8), None);
    assert_eq!(Offset::new(2, 1).mul(-3), Some(Offset::new(-6, -3)));
}
