use libczi::coordinate::{rank_of, Coordinate, DimBounds, Interval};
use libczi::dimension::Dimension;
use libczi::geometry::{IntRect, IntSize};

#[test]
fn a_packed_value_belongs_to_the_dimension_of_its_rank() {
    let coordinate = Coordinate::new(0b11, [0, 2, 0, 0, 0, 0, 0, 0, 0]);
    assert_eq!(coordinate.try_get(Dimension::Z), Some(0));
    assert_eq!(coordinate.try_get(Dimension::C), Some(2));
    assert_eq!(coordinate.try_get(Dimension::T), None);
    let sparse = Coordinate::new(0b1_0001_0100, [7, 8, 9, 0, 0, 0, 0, 0, 0]);
    assert_eq!(sparse.try_get(Dimension::T), Some(7));
    assert_eq!(sparse.try_get(Dimension::S), Some(8));
    assert_eq!(sparse.try_get(Dimension::B), Some(9));
    assert_eq!(sparse.try_get(Dimension::Z), None);
    assert_eq!(sparse.get_dimensions_valid(), 0b1_0001_0100);
    assert_eq!(sparse.get_value(), [7, 8, 9, 0, 0, 0, 0, 0, 0]);
}

#[test]
fn rank_counts_the_set_bits_below() {
    assert_eq!(rank_of(0b1_0001_0100, 0), 0);
    assert_eq!(rank_of(0b1_0001_0100, 2), 0);
    assert_eq!(rank_of(0b1_0001_0100, 3), 1);
    assert_eq!(rank_of(0b1_0001_0100, 8), 2);
    assert_eq!(rank_of(0xffff_ffff, 31), 31);
}

#[test]
fn packing_puts_the_present_values_side_by_side() {
    let present = [false, true, false, false, true, false, false, false, true];
    let values = [10, 11, 12, 13, 14, 15, 16, 17, 18];
    let coordinate = Coordinate::pack(present, values);
    assert_eq!(coordinate.get_dimensions_valid(), 0b1_0001_0010);
    assert_eq!(coordinate.get_value(), [11, 14, 18, 0, 0, 0, 0, 0, 0]);
    assert!(coordinate.is_valid());
    assert_eq!(coordinate.try_get(Dimension::C), Some(11));
    assert_eq!(coordinate.try_get(Dimension::S), Some(14));
    assert_eq!(coordinate.try_get(Dimension::B), Some(18));
    assert_eq!(coordinate.try_get(Dimension::Z), None);
}

#[test]
fn a_mask_with_unknown_dimensions_is_not_valid() {
    assert!(Coordinate::new(0x1ff, [0; 9]).is_valid());
    assert!(!Coordinate::new(0x200, [0; 9]).is_valid());
}

#[test]
fn coordinates_are_compared_by_what_they_say() {
    let first = Coordinate::new(0b101, [1, 2, 99, 0, 0, 0, 0, 0, 0]);
    let second = Coordinate::new(0b101, [1, 2, -7, 5, 0, 0, 0, 0, 0]);
    let third = Coordinate::new(0b101, [1, 3, 0, 0, 0, 0, 0, 0, 0]);
    let fourth = Coordinate::new(0b011, [1, 2, 0, 0, 0, 0, 0, 0, 0]);
    assert!(first.same_position(&second));
    assert!(!first.same_position(&third));
    assert!(!first.same_position(&fourth));
}

#[test]
fn coordinate_setters_change_one_part() {
    let mut coordinate = Coordinate::new(1, [5, 0, 0, 0, 0, 0, 0, 0, 0]);
    coordinate.set_dimensions_valid(3);
    assert_eq!(coordinate.get_dimensions_valid(), 3);
    assert_eq!(coordinate.get_value(), [5, 0, 0, 0, 0, 0, 0, 0, 0]);
    coordinate.set_value([1, 2, 3, 4, 5, 6, 7, 8, 9]);
    assert_eq!(coordinate.get_dimensions_valid(), 3);
    assert_eq!(coordinate.get_value(), [1, 2, 3, 4, 5, 6, 7, 8, 9]);
}

#[test]
fn bounds_give_a_start_and_a_size_for_each_present_dimension() {
    let bounds = DimBounds::new(0b11, [0, 2, 0, 0, 0, 0, 0, 0, 0], [5, 6, 0, 0, 0, 0, 0, 0, 0]);
    assert_eq!(
        bounds.try_get(Dimension::Z),
        Some(Interval { start: 0, size: 5 })
    );
    assert_eq!(
        bounds.try_get(Dimension::C),
        Some(Interval { start: 2, size: 6 })
    );
    assert_eq!(bounds.try_get(Dimension::T), None);
    assert_eq!(bounds.get_dimensions_valid(), 0b11);
    assert_eq!(bounds.get_start(), [0, 2, 0, 0, 0, 0, 0, 0, 0]);
    assert_eq!(bounds.get_size(), [5, 6, 0, 0, 0, 0, 0, 0, 0]);
    let packed = DimBounds::pack(
        [false, false, true, false, false, false, false, true, false],
        [0, 0, 3, 0, 0, 0, 0, 4, 0],
        [0, 0, 30, 0, 0, 0, 0, 40, 0],
    );
    assert_eq!(packed.get_dimensions_valid(), 0b1000_0100);
    assert_eq!(packed.get_start(), [3, 4, 0, 0, 0, 0, 0, 0, 0]);
    assert_eq!(packed.get_size(), [30, 40, 0, 0, 0, 0, 0, 0, 0]);
}

#[test]
fn bounds_setters_change_one_part() {
    let mut bounds = DimBounds::new(0, [0; 9], [0; 9]);
    bounds.set_dimensions_valid(4);
    bounds.set_start([9; 9]);
    bounds.set_size([3; 9]);
    assert_eq!(bounds.get_dimensions_valid(), 4);
    assert_eq!(bounds.get_start(), [9; 9]);
    assert_eq!(bounds.get_size(), [3; 9]);
    assert_eq!(
        bounds.try_get(Dimension::T),
        Some(Interval { start: 9, size: 3 })
    );
}

#[test]
fn rectangles_and_sizes_keep_what_they_are_given() {
    let mut rect = IntRect::new(1, 2, 3, 4);
    assert_eq!((rect.get_x(), rect.get_y(), rect.get_w(), rect.get_h()), (1, 2, 3, 4));
    rect.set_x(-1);
    rect.set_y(-2);
    rect.set_w(30);
    rect.set_h(40);
    assert_eq!(rect, IntRect::new(-1, -2, 30, 40));
    let mut size = IntSize::new(5, 6);
    assert_eq!((size.get_w(), size.get_h()), (5, 6));
    size.set_w(7);
    size.set_h(8);
    assert_eq!(size, IntSize::new(7, 8));
}

#[test]
fn rectangles_know_whether_they_are_valid_and_whether_they_meet() {
    assert!(IntRect::new(0, 0, 0, 0).is_valid());
    assert!(!IntRect::new(0, 0, -1, 5).is_valid());
    assert!(!IntRect::invalid().is_valid());
    assert_eq!(IntRect::invalid(), IntRect::new(0, 0, -1, -1));
    let first = IntRect::new(0, 0, 10, 10);
    assert!(first.intersects(&IntRect::new(9, 9, 5, 5)));
    assert!(!first.intersects(&IntRect::new(10, 0, 5, 5)));
    assert!(!first.intersects(&IntRect::new(0, 0, 0, 5)));
    let far = IntRect::new(i32::MAX, i32::MAX, i32::MAX, i32::MAX);
    assert!(!first.intersects(&far));
    assert!(far.intersects(&far));
}
