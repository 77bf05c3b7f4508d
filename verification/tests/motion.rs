use orb_dodge::field::Playfield;
use orb_dodge::geometry::{CollideType, Position};
use orb_dodge::motion::{diagonal_step, MoveInput};
use orb_dodge::world::{Body, World};

fn keys(up: bool, down: bool, left: bool, right: bool) -> MoveInput {
    MoveInput { up, down, left, right }
}

fn set_up() -> World {
    let mut world = World::new(Playfield::new(1000, 1000).unwrap());
    world.setup();
    world
}

fn player_at(world: &World) -> Position {
    world.body(14).unwrap().position
}

#[test]
fn diagonal_share_is_the_rounded_down_root() {
    assert_eq!(diagonal_step(0), 0);
    assert_eq!(diagonal_step(1), 0);
    assert_eq!(diagonal_step(2), 1);
    assert_eq!(diagonal_step(3), 2);
    assert_eq!(diagonal_step(10), 7);
    assert_eq!(diagonal_step(99), 70);
    assert_eq!(diagonal_step(333), 235);
    assert_eq!(diagonal_step(1000), 707);
    assert_eq!(diagonal_step(1_000_000), 707_106);
    for step in 0u64..2000 {
        let d = diagonal_step(step) as u128;
        let s = step as u128;
        assert!(2 * d * d <= s * s);
        assert!(s * s < 2 * (d + 1) * (d + 1));
    }
    for big in [0x20_0000_0000_0000u64, u64::MAX - 1, u64::MAX] {
        let d = diagonal_step(big) as u128;
        let half = (big as u128) * (big as u128) / 2;
        assert!(d * d <= half);
        assert!(half < (d + 1) * (d + 1));
    }
    assert_eq!(diagonal_step(u64::MAX), 13_043_817_825_332_782_211);
}

#[test]
fn player_moves_along_one_axis() {
    let mut world = set_up();
    assert_eq!(player_at(&world), Position { x: 0, y: 0 });
    // speed 333 per second, for 300 ms: 99 units
    world.movement(keys(false, false, false, true), 300);
    assert_eq!(player_at(&world), Position { x: 99, y: 0 });
    world.movement(keys(true, false, false, false), 300);
    assert_eq!(player_at(&world), Position { x: 99, y: 99 });
    world.movement(keys(false, false, true, false), 600);
    assert_eq!(player_at(&world), Position { x: -100, y: 99 });
    world.movement(keys(false, true, false, false), 1000);
    assert_eq!(player_at(&world), Position { x: -100, y: -234 });
}

#[test]
fn player_moves_diagonally_at_the_same_speed() {
    let mut world = set_up();
    // a step of 333 shared between the axes: 235 each
    world.movement(keys(true, false, false, true), 1000);
    assert_eq!(player_at(&world), Position { x: 235, y: 235 });
    world.movement(keys(false, true, true, false), 1000);
    assert_eq!(player_at(&world), Position { x: 0, y: 0 });
    world.movement(keys(false, true, false, true), 30);
    // step 9, share 6
    assert_eq!(player_at(&world), Position { x: 6, y: -6 });
}

#[test]
fn opposing_keys_cancel() {
    let mut world = set_up();
    world.movement(keys(true, true, false, false), 1000);
    assert_eq!(player_at(&world), Position { x: 0, y: 0 });
    world.movement(keys(false, false, true, true), 1000);
    assert_eq!(player_at(&world), Position { x: 0, y: 0 });
    world.movement(keys(true, true, true, true), 1000);
    assert_eq!(player_at(&world), Position { x: 0, y: 0 });
    // up and down cancel, right stays: a straight move
    world.movement(keys(true, true, false, true), 1000);
    assert_eq!(player_at(&world), Position { x: 333, y: 0 });
    world.movement(keys(false, false, false, false), 1000);
    assert_eq!(player_at(&world), Position { x: 333, y: 0 });
}

#[test]
fn player_is_kept_inside_the_walls() {
    let mut world = set_up();
    // half the width is 500 and the radius 20: the walls are at 480
    world.movement(keys(false, false, false, true), 1000);
    world.movement(keys(false, false, false, true), 1000);
    assert_eq!(player_at(&world), Position { x: 480, y: 0 });
    // at the wall the move is taken back by the clamp
    world.movement(keys(false, false, false, true), 1000);
    assert_eq!(player_at(&world), Position { x: 480, y: 0 });
    // a diagonal move into the wall keeps its diagonal share along it
    world.movement(keys(true, false, false, true), 1000);
    assert_eq!(player_at(&world), Position { x: 480, y: 235 });
    world.movement(keys(true, false, false, false), 60_000);
    assert_eq!(player_at(&world), Position { x: 480, y: 480 });
    world.movement(keys(false, true, true, false), u32::MAX);
    assert_eq!(player_at(&world), Position { x: -480, y: -480 });
    world.movement(keys(false, true, true, false), 1000);
    assert_eq!(player_at(&world), Position { x: -480, y: -480 });
}

#[test]
fn opposing_keys_cancel_at_a_wall() {
    let mut world = set_up();
    world.movement(keys(false, false, false, true), 2000);
    assert_eq!(player_at(&world), Position { x: 480, y: 0 });
    world.movement(keys(false, false, true, true), 500);
    assert_eq!(player_at(&world), Position { x: 480, y: 0 });
    world.movement(keys(true, true, true, true), 500);
    assert_eq!(player_at(&world), Position { x: 480, y: 0 });
    // left and right cancel, up stays: a straight move along the wall
    world.movement(keys(true, false, true, true), 1000);
    assert_eq!(player_at(&world), Position { x: 480, y: 333 });
    world.movement(keys(true, false, false, false), 1000);
    assert_eq!(player_at(&world), Position { x: 480, y: 480 });
    world.movement(keys(true, true, false, false), 1000);
    assert_eq!(player_at(&world), Position { x: 480, y: 480 });
    // away from the wall the key counts at once
    world.movement(keys(false, false, true, false), 100);
    assert_eq!(player_at(&world), Position { x: 447, y: 480 });
}

#[test]
fn keys_count_on_a_small_field() {
    // the walls are at 480 and 230; speed and radius are those of the width
    let mut world = World::new(Playfield::new(1000, 500).unwrap());
    world.setup();
    assert_eq!(world.speed().player, 333);
    world.movement(keys(false, false, false, true), 3000);
    assert_eq!(player_at(&world), Position { x: 480, y: 0 });
    world.movement(keys(false, false, true, true), 500);
    assert_eq!(player_at(&world), Position { x: 480, y: 0 });
    world.movement(keys(false, true, false, false), 3000);
    assert_eq!(player_at(&world), Position { x: 480, y: -230 });
    world.movement(keys(true, true, false, false), 3000);
    assert_eq!(player_at(&world), Position { x: 480, y: -230 });
}

#[test]
fn a_player_outside_is_brought_back() {
    let field = Playfield::new(1000, 1000).unwrap();
    let mut world = World::with_score(field, 0).unwrap();
    let player = world.spawn(CollideType::Player, 20, 5000, -7000).unwrap();
    world.movement(keys(false, false, false, false), 16);
    // sizes are zero before a level is set up, so the walls are the edges
    assert_eq!(world.body(player).unwrap().position, Position { x: 500, y: -500 });
}

#[test]
fn movement_needs_exactly_one_player() {
    let field = Playfield::new(1000, 1000).unwrap();
    let mut none = World::with_score(field, 0).unwrap();
    let orb = none.spawn(CollideType::Orb, 20, 5000, 0).unwrap();
    none.movement(keys(true, false, true, false), 1000);
    assert_eq!(none.body(orb).unwrap().position, Position { x: 5000, y: 0 });

    let mut two = set_up();
    let second = two.spawn(CollideType::Player, 20, 9000, 9000).unwrap();
    two.movement(keys(true, false, true, false), 1000);
    assert_eq!(player_at(&two), Position { x: 0, y: 0 });
    assert_eq!(two.body(second).unwrap().position, Position { x: 9000, y: 9000 });
    assert_eq!(two.find_sole_player(), None);
    assert_eq!(set_up().find_sole_player(), Some(14));
    assert_eq!(none.find_sole_player(), None);
}

#[test]
fn movement_leaves_the_other_bodies() {
    let mut world = set_up();
    let before: Vec<Body> = (0..14).map(|id| world.body(id).unwrap()).collect();
    world.movement(keys(true, false, false, true), 700);
    for id in 0..14 {
        assert_eq!(world.body(id), Some(before[id]));
    }
    assert_eq!(world.score(), 0);
}

#[test]
fn orbs_drift_left_and_come_back() {
    let mut world = set_up();
    let before: Vec<Body> = (0..15).map(|id| world.body(id).unwrap()).collect();
    // speed 133 per second, for 1500 ms: 199 units
    world.orb_movement(1500);
    for id in 0..15 {
        let b = world.body(id).unwrap();
        if (10..14).contains(&id) {
            assert_eq!(b.position.x, before[id].position.x - 199);
            assert_eq!(b.position.y, before[id].position.y);
            assert_eq!(b.collider, before[id].collider);
            assert!(b.alive);
        } else {
            assert_eq!(b, before[id]);
        }
    }
    // the first orb started at 600: after 6 more such ticks it is at -793, beyond -600
    for _ in 0..6 {
        world.orb_movement(1500);
    }
    assert_eq!(world.body(10).unwrap().position.x, 600 - 1393);
    assert_eq!(world.body(11).unwrap().position.x, 900 - 1393);
    assert_eq!(world.body(12).unwrap().position.x, 1200 - 1393);
    assert_eq!(world.body(13).unwrap().position.x, 1500 - 1393);
    let second = world.body(11).unwrap();
    world.orb_movement(1500);
    let back = world.body(10).unwrap();
    assert_eq!(back.position.x, 600);
    assert!(-400 <= back.position.y && back.position.y < 400);
    assert!(back.alive);
    // the others were still inside and drift on at their heights
    assert_eq!(world.body(11).unwrap().position, Position { x: -493 - 199, y: second.position.y });
    assert_eq!(world.body(12).unwrap().position.x, -193 - 199);
    assert_eq!(world.body(13).unwrap().position.x, 107 - 199);
    for id in 0..10 {
        assert_eq!(world.body(id), Some(before[id]));
    }
}

#[test]
fn orb_at_the_edge_comes_back() {
    let mut world = set_up();
    // 600 - 133 * 9022 / 1000 = 600 - 1199: one short of the edge at -600
    world.orb_movement(9022);
    assert_eq!(world.body(10).unwrap().position.x, -599);
    world.orb_movement(8);
    assert_eq!(world.body(10).unwrap().position.x, -600);
    world.orb_movement(1000);
    assert_eq!(world.body(10).unwrap().position.x, 600);
    world.orb_movement(0);
    assert_eq!(world.body(10).unwrap().position.x, 600);
}

#[test]
fn despawned_orbs_do_not_move() {
    let field = Playfield::new(1000, 1000).unwrap();
    let mut world = World::with_score(field, 100).unwrap();
    let player = world.spawn(CollideType::Player, 5, 0, 0).unwrap();
    let orb = world.spawn(CollideType::Orb, 5, 3, 0).unwrap();
    world.resolve_event(orb_dodge::detect::CollisionEvent(player, orb));
    let gone = world.body(orb).unwrap();
    assert!(!gone.alive);
    world.orb_movement(1000);
    assert_eq!(world.body(orb), Some(gone));
}

#[test]
fn stars_scroll_and_wrap() {
    let mut world = World::new(Playfield::new(4000, 4000).unwrap());
    world.setup();
    assert_eq!(world.sizes().star, 4);
    assert_eq!(world.speed().star, 2);
    assert_eq!(world.star_count(), 100);
    let bodies: Vec<Body> = (0..15).map(|id| world.body(id).unwrap()).collect();
    let mut wrapped = 0;
    for _ in 0..2100 {
        let before: Vec<Position> = (0..100).map(|i| world.star(i).unwrap()).collect();
        world.move_scene();
        for i in 0..100 {
            let p = world.star(i).unwrap();
            assert_eq!(p.y, before[i].y);
            if before[i].x + 4 > -2000 {
                assert_eq!(p.x, before[i].x - 2);
            } else {
                assert_eq!(p.x, 2004);
                wrapped += 1;
            }
        }
    }
    // every star has left on the left at least once
    assert!(wrapped >= 100);
    for id in 0..15 {
        assert_eq!(world.body(id), Some(bodies[id]));
    }
}
