use orb_dodge::field::{Playfield, MAX_EXTENT, MAX_STARS, MIN_WIDTH};
use orb_dodge::geometry::{overlap, CollideType, Collider, Position};

fn disk(radius: u32) -> Collider {
    Collider { radius, kind: CollideType::Orb }
}

fn at(x: i64, y: i64) -> Position {
    Position { x, y }
}

#[test]
fn overlap_is_symmetric_on_samples() {
    let places = [at(0, 0), at(3, 4), at(-7, 2), at(100, -100), at(i64::MAX, i64::MIN)];
    let radii = [1u32, 2, 5, 150, u32::MAX];
    for &pa in places.iter() {
        for &pb in places.iter() {
            for &ra in radii.iter() {
                for &rb in radii.iter() {
                    assert_eq!(overlap(pa, disk(ra), pb, disk(rb)), overlap(pb, disk(rb), pa, disk(ra)));
                }
            }
        }
    }
}

#[test]
fn overlap_includes_the_boundary() {
    // centres 5 apart, radii 2 and 3: the disks just touch
    assert!(overlap(at(0, 0), disk(2), at(3, 4), disk(3)));
    // one unit less of radius and they are apart
    assert!(!overlap(at(0, 0), disk(2), at(3, 4), disk(2)));
    assert!(overlap(at(0, 0), disk(10), at(20, 0), disk(10)));
    assert!(!overlap(at(0, 0), disk(10), at(21, 0), disk(10)));
}

#[test]
fn overlap_uses_the_sum_of_the_radii() {
    // distance 15: more than either radius, less than their sum
    assert!(overlap(at(0, 0), disk(10), at(15, 0), disk(10)));
    assert!(overlap(at(0, 0), disk(1), at(0, 15), disk(14)));
}

#[test]
fn overlap_is_euclidean() {
    // 7 away on both axes: distance about 9.9
    assert!(overlap(at(0, 0), disk(5), at(7, 7), disk(5)));
    // 8 away on both axes: distance about 11.3
    assert!(!overlap(at(0, 0), disk(5), at(8, 8), disk(5)));
}

#[test]
fn overlap_takes_extreme_coordinates() {
    assert!(!overlap(at(i64::MIN, i64::MIN), disk(u32::MAX), at(i64::MAX, i64::MAX), disk(u32::MAX)));
    assert!(overlap(at(i64::MAX, i64::MIN), disk(1), at(i64::MAX, i64::MIN), disk(1)));
    assert!(overlap(at(0, 0), disk(u32::MAX), at(u32::MAX as i64, u32::MAX as i64), disk(u32::MAX)));
}

#[test]
fn kinds_are_ordered_player_pickup_orb() {
    assert_eq!(CollideType::Player.rank(), 0);
    assert_eq!(CollideType::Pickup.rank(), 1);
    assert_eq!(CollideType::Orb.rank(), 2);
    assert!(CollideType::Player.comes_before(CollideType::Pickup));
    assert!(CollideType::Player.comes_before(CollideType::Orb));
    assert!(CollideType::Pickup.comes_before(CollideType::Orb));
    assert!(!CollideType::Pickup.comes_before(CollideType::Player));
    assert!(!CollideType::Orb.comes_before(CollideType::Orb));
}

#[test]
fn playfield_accepts_usable_sizes_only() {
    assert_eq!(Playfield::new(1000, 1000), Some(Playfield { width: 1000, height: 1000 }));
    assert_eq!(Playfield::new(MIN_WIDTH, 22), Some(Playfield { width: 100, height: 22 }));
    // too narrow
    assert_eq!(Playfield::new(MIN_WIDTH - 1, 1000), None);
    // too wide, too high
    assert_eq!(Playfield::new(MAX_EXTENT + 1, MAX_EXTENT), None);
    assert_eq!(Playfield::new(1000, MAX_EXTENT + 1), None);
    assert!(Playfield::new(MAX_EXTENT, MAX_EXTENT).is_some());
    // an orb of radius 100 needs half a height above 100
    assert_eq!(Playfield::new(1000, 201), None);
    assert!(Playfield::new(1000, 202).is_some());
    assert_eq!(Playfield::new(100, 21), None);
}

#[test]
fn playfield_derives_sizes_and_speeds() {
    let field = Playfield::new(1920, 1080).unwrap();
    assert_eq!(field.half_width(), 960);
    assert_eq!(field.half_height(), 540);
    assert_eq!(field.pickup_size(), 19);
    assert_eq!(field.orb_size(), 192);
    assert_eq!(field.star_size(), 1);
    assert_eq!(field.player_size(), 38);
    assert_eq!(field.player_speed(), 640);
    assert_eq!(field.star_speed(), 0);
    assert_eq!(field.initial_orb_speed(), 256);
    assert_eq!(field.restart_orb_speed(), 240);
    assert_eq!(field.orb_speed_step(), 2);
    assert_eq!(field.star_count(), 177);
}

#[test]
fn star_count_is_capped() {
    let wide = Playfield::new(3000, 1000).unwrap();
    assert_eq!(wide.star_count(), MAX_STARS);
    let square = Playfield::new(1000, 1000).unwrap();
    assert_eq!(square.star_count(), 100);
    let tall = Playfield::new(1000, 3000).unwrap();
    assert_eq!(tall.star_count(), 33);
    let edge = Playfield::new(2550, 1000).unwrap();
    assert_eq!(edge.star_count(), 255);
    let below = Playfield::new(2549, 1000).unwrap();
    assert_eq!(below.star_count(), 254);
}
