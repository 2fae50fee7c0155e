use all_colors::errors::AllColorsError;
use all_colors::geometry::{Point, Size};
use all_colors::neighbors::{NeighborManager, OffsetNeighborComponent};

#[test]
fn size_area() {
    assert_eq!(Size::new(4, 3).area(), 12);
    assert_eq!(Size::new(1, 1).area(), 1);
}

#[test]
fn validate_xy_bounds() {
    let s = Size::new(4, 3);
    assert_eq!(s.validate_xy(3, 2), Ok(Point::new(3, 2)));
    assert_eq!(s.validate_xy(-1, 0), Err(AllColorsError::OutOfBounds(-1, 0)));
    assert_eq!(s.validate_xy(4, 0), Err(AllColorsError::OutOfBounds(4, 0)));
    assert_eq!(s.validate_xy(0, 3), Err(AllColorsError::OutOfBounds(0, 3)));
    assert_eq!(s.validate_point(Point::new(1, 1)), Ok(Point::new(1, 1)));
    assert_eq!(s.validate_point(Point::new(1, 3)), Err(AllColorsError::InvalidPoint(Point::new(1, 3))));
}

#[test]
fn wrap_coordinates() {
    let s = Size::new(4, 3);
    assert_eq!(s.wrap_xy(-1, -1), Point::new(3, 2));
    assert_eq!(s.wrap_xy(-5, 7), Point::new(3, 1));
    assert_eq!(s.wrap_xy(2, 1), Point::new(2, 1));
    assert_eq!(s.wrap_xy(isize::MIN, isize::MAX), Point::new((isize::MIN).rem_euclid(4) as usize, (isize::MAX).rem_euclid(3) as usize));
    assert_eq!(s.wrap_point(Point::new(9, 5)), Point::new(1, 2));
}

#[test]
fn corner_offset_wrap_and_clamp() {
    let s = Size::new(5, 4);
    let wrap = OffsetNeighborComponent::new(&[(-1, -1)], true);
    assert_eq!(wrap.get_pos_neighbors(s, Point::new(0, 0)), vec![Point::new(4, 3)]);
    let clamp = OffsetNeighborComponent::new(&[(-1, -1)], false);
    assert_eq!(clamp.get_pos_neighbors(s, Point::new(0, 0)), vec![]);
    let std_clamp = OffsetNeighborComponent::new(&NeighborManager::standard_offsets(), false);
    assert_eq!(std_clamp.get_pos_neighbors(s, Point::new(0, 0)).len(), 3);
    let std_wrap = OffsetNeighborComponent::new(&NeighborManager::standard_offsets(), true);
    let n = std_wrap.get_pos_neighbors(s, Point::new(0, 0));
    assert_eq!(n.len(), 8);
    assert_eq!(n[0], Point::new(4, 3));
}

#[test]
fn neighbor_order_follows_offsets() {
    let s = Size::new(3, 3);
    let plus = OffsetNeighborComponent::new(&NeighborManager::plus_offsets(), false);
    assert_eq!(
        plus.get_pos_neighbors(s, Point::new(1, 1)),
        vec![Point::new(1, 0), Point::new(0, 1), Point::new(2, 1), Point::new(1, 2)]
    );
    let x = OffsetNeighborComponent::new(&NeighborManager::x_offsets(), false);
    assert_eq!(x.get_pos_neighbors(s, Point::new(2, 0)), vec![Point::new(1, 1)]);
    assert_eq!(NeighborManager::standard_offsets().len(), 8);
}
