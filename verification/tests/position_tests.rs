use hivesim::position::{world_to_display, Position};

#[test]
fn test_position_stuff() {
    let p1 = Position::new(30, 2);
    assert_eq!(p1.get_x(), 30);
    assert_eq!(p1.get_y(), 2);
    assert_eq!(p1.offset_x(), 0);
    assert_eq!(p1.offset_y(), 0);

    let p2 = Position::new_with_offset(30, 2, 10, 2);
    assert_eq!(p2.get_x(), 30);
    assert_eq!(p2.get_y(), 2);
    assert_eq!(p2.offset_x(), 10);
    assert_eq!(p2.offset_y(), 2);

    let p3 = Position::new_with_offset(30, 2, 200, 2);
    assert_eq!(p3.get_x(), 32);
    assert_eq!(p3.get_y(), 2);
    assert_eq!(p3.offset_x(), 0);
    assert_eq!(p3.offset_y(), 2);

    let p4 = p2.add(&p3);
    assert_eq!(p4.get_x(), 62);
    assert_eq!(p4.get_y(), 4);

    assert_eq!(p2.add(&p3), p3.add(&p2));

    let p5 = p2.add(&Position::new_with_offset(30, 2, 90, 99));
    assert_eq!(p5.get_x(), 61);
    // 2 + 2 + 1
    assert_eq!(p5.get_y(), 5);
    assert_eq!(p5.offset_x(), 0);
}

#[test]
fn test_position_offsets_base() {
    let p1 = Position::new_with_offset(1, 1, 0, 0);
    let p2 = Position::new(1, 1);
    assert_eq!(p1, p2);
}

#[test]
fn test_position_offsets_negative_value() {
    let p1 = Position::new_with_offset(1, 1, 0, 0);
    let p3 = Position::new_with_offset(2, 1, -100, 0);
    assert_eq!(p1, p3);

    let p4 = Position::new_with_offset(1, 40, 0, -3900);

    assert_eq!(p1, p4);
}

#[test]
fn test_position_always_store_positives() {
    let p5 = Position::new_with_offset(1, 1, -20, 0);
    assert_eq!(p5.get_x(), 0);
    assert_eq!(p5.get_y(), 1);
    assert_eq!(p5.offset_x(), 80);
    assert_eq!(p5.offset_y(), 0);
}

#[test]
fn test_position_with_remainder() {
    let p5 = Position::new_with_offset(1, 2, 30, 20);
    let p6 = Position::new_with_offset(1, 0, -32, 200);

    assert_eq!(p6.get_x(), 0);
    assert_eq!(p6.get_y(), 2);
    assert_eq!(p6.offset_x(), 68);
    assert_eq!(p6.offset_y(), 0);

    let p5_p6 = Position::new_with_offset(1, 4, 98, 20);

    assert_eq!(p5.add(&p6), p5_p6);
}

#[test]
fn test_position_distance() {
    let p1 = Position::new(1, 2);
    let p2 = Position::new(1, 2);

    assert_eq!(p1.distance(&p2), 0);

    let p3 = Position::new(2, 2);
    assert_eq!(p1.distance(&p3), 100);

    let p4 = Position::new_with_offset(1, 2, 50, 0);
    assert_eq!(p1.distance(&p4), 50);
}

#[test]
fn test_world_to_display() {
    let meter_to_pixels = 2;
    let _ = world_to_display(&Position::new(0, 0), meter_to_pixels);
}

#[test]
fn world_to_display_values() {
    assert_eq!(world_to_display(&Position::new(0, 0), 16), (0, 0));
    assert_eq!(world_to_display(&Position::new(1, 0), 16), (16, 0));
    assert_eq!(world_to_display(&Position::new(2, 1), 16), (32, 16));
    // 2.10 tiles at 16 pixels per tile is 33.6 pixels, rounded to 34.
    assert_eq!(world_to_display(&Position::new_with_offset(2, 1, 10, 0), 16), (34, 16));
    // Half a tile at 50 pixels per tile rounds 25.0 up to 25.
    assert_eq!(world_to_display(&Position::new_with_offset(0, 0, 50, 0), 50), (25, 0));
}

#[test]
fn offsets_carry_into_tiles() {
    // An offset of a tile and a half carries into the tile coordinate.
    assert_eq!(
        Position::new_with_offset(1, 1, 150, 0),
        Position::new_with_offset(2, 1, 50, 0)
    );
    let p = Position::new_with_offset(0, 0, 250, 307);
    assert_eq!(p.get_x(), 2);
    assert_eq!(p.offset_x(), 50);
    assert_eq!(p.get_y(), 3);
    assert_eq!(p.offset_y(), 7);
    assert!(p.offset_x() < 100);
    assert!(p.offset_y() < 100);
}

#[test]
fn add_is_commutative() {
    let pairs = [
        (Position::new(1, 2), Position::new(3, 4)),
        (
            Position::new_with_offset(0, 0, 99, 99),
            Position::new_with_offset(5, 5, 1, 1),
        ),
        (
            Position::new_with_offset(10, 20, 55, 45),
            Position::new_with_offset(30, 40, 45, 55),
        ),
    ];
    for (a, b) in pairs.iter() {
        assert_eq!(a.add(b), b.add(a));
    }
}

#[test]
fn distance_is_symmetric() {
    let a = Position::new_with_offset(1, 2, 30, 40);
    let b = Position::new(7, 9);
    assert_eq!(a.distance(&b), b.distance(&a));
    assert_eq!(a.distance(&a), 0);
    assert_eq!(b.distance(&b), 0);
}
