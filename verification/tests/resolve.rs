use orb_dodge::detect::CollisionEvent;
use orb_dodge::field::Playfield;
use orb_dodge::geometry::{CollideType, Collider, Position};
use orb_dodge::resolve::PickupCollision;
use orb_dodge::state::GameState;
use orb_dodge::world::{
    Body, OrbsRGB, SpawnError, World, COORD_LIMIT, MAX_BODIES, THRESHOLD,
};

fn field() -> Playfield {
    Playfield::new(1000, 1000).unwrap()
}

fn playing(score: u32) -> World {
    World::with_score(field(), score).unwrap()
}

fn set_up() -> World {
    let mut world = World::new(Playfield::new(7000, 7000).unwrap());
    world.toggle_state();
    world
}

#[test]
fn scenario_pickup_brings_score_to_threshold() {
    let mut world = playing(99);
    let player = world.spawn(CollideType::Player, 5, 0, 0).unwrap();
    let pickup = world.spawn(CollideType::Pickup, 5, 3, 0).unwrap();
    let other = world.spawn(CollideType::Pickup, 5, 300, 300).unwrap();
    let orb = world.spawn(CollideType::Orb, 5, -300, 300).unwrap();
    let events = world.detect_collisions();
    assert_eq!(events, vec![CollisionEvent(player, pickup)]);
    let sent = world.manage_collisions(&events);
    assert_eq!(sent, vec![PickupCollision(pickup)]);
    assert_eq!(world.score(), 100);
    assert!(!world.body(pickup).unwrap().alive);
    assert!(!world.body(other).unwrap().alive);
    assert_eq!(
        world.body(orb),
        Some(Body {
            collider: Collider { radius: 5, kind: CollideType::Orb },
            position: Position { x: -300, y: 300 },
            alive: true,
        })
    );
    assert!(world.body(player).unwrap().alive);
    assert_eq!(world.state(), GameState::Game);
}

#[test]
fn pickup_scores_one_point_below_threshold() {
    for before in [0u32, 1, 50, 98] {
        let mut world = playing(before);
        let player = world.spawn(CollideType::Player, 5, 0, 0).unwrap();
        let pickup = world.spawn(CollideType::Pickup, 5, 3, 0).unwrap();
        let sent = world.resolve_event(CollisionEvent(player, pickup));
        assert_eq!(sent, Some(PickupCollision(pickup)));
        assert_eq!(world.score(), before + 1);
        assert!(world.body(pickup).unwrap().alive);
    }
}

#[test]
fn pickup_ramps_the_difficulty() {
    let mut world = set_up();
    let field = world.field();
    let player = world.len() - 1;
    assert_eq!(world.sizes().player, 140);
    assert_eq!(world.speed().orb, 933);
    assert_eq!(field.orb_speed_step(), 10);
    assert_eq!(world.color(), OrbsRGB { r: 100, g: 0, b: 0 });
    assert_eq!(world.growth(), 0);
    world.resolve_event(CollisionEvent(player, 0));
    assert_eq!(world.score(), 1);
    assert_eq!(world.speed().orb, 943);
    assert_eq!(world.color(), OrbsRGB { r: 99, g: 0, b: 1 });
    // 140 * 1 / 100, rounded down
    assert_eq!(world.growth(), 1);
    for _ in 0..49 {
        world.resolve_event(CollisionEvent(player, 0));
    }
    assert_eq!(world.score(), 50);
    assert_eq!(world.speed().orb, 933 + 50 * 10);
    assert_eq!(world.color(), OrbsRGB { r: 50, g: 0, b: 50 });
    assert_eq!(world.growth(), 70);
    assert_eq!(world.speed().player, 2333);
    assert_eq!(world.sizes().player, 140);
}

#[test]
fn score_never_passes_the_threshold() {
    let mut world = set_up();
    let player = world.len() - 1;
    for _ in 0..300 {
        for pickup in 0..10 {
            world.resolve_event(CollisionEvent(player, pickup));
        }
    }
    assert_eq!(world.score(), THRESHOLD);
    assert_eq!(world.color(), OrbsRGB { r: 0, g: 0, b: 100 });
    assert_eq!(world.growth(), 140);
    assert_eq!(world.speed().orb, 933 + 100 * 10);
    for pickup in 0..10 {
        assert!(!world.body(pickup).unwrap().alive);
    }
    assert!(!world.has_live(CollideType::Pickup));
    assert!(world.has_live(CollideType::Orb));
}

#[test]
fn other_events_leave_the_score() {
    let mut world = playing(7);
    let player = world.spawn(CollideType::Player, 5, 0, 0).unwrap();
    let pickup = world.spawn(CollideType::Pickup, 5, 3, 0).unwrap();
    let second = world.spawn(CollideType::Pickup, 5, 4, 0).unwrap();
    let orb = world.spawn(CollideType::Orb, 5, 6, 0).unwrap();
    let other_orb = world.spawn(CollideType::Orb, 5, 7, 0).unwrap();
    assert_eq!(world.resolve_event(CollisionEvent(pickup, orb)), Some(PickupCollision(pickup)));
    assert_eq!(world.resolve_event(CollisionEvent(second, pickup)), None);
    assert_eq!(world.resolve_event(CollisionEvent(other_orb, orb)), None);
    assert_eq!(world.resolve_event(CollisionEvent(orb, player)), None);
    assert_eq!(world.resolve_event(CollisionEvent(pickup, player)), None);
    assert_eq!(world.resolve_event(CollisionEvent(player, player)), None);
    assert_eq!(world.score(), 7);
    assert_eq!(world.state(), GameState::Game);
    assert_eq!(world.resolve_event(CollisionEvent(player, orb)), None);
    assert_eq!(world.score(), 7);
    assert_eq!(world.state(), GameState::Dead);
    for id in 0..world.len() {
        assert!(world.body(id).unwrap().alive);
    }
}

#[test]
fn unknown_handles_change_nothing() {
    let mut world = playing(3);
    let player = world.spawn(CollideType::Player, 5, 0, 0).unwrap();
    assert_eq!(world.resolve_event(CollisionEvent(player, 17)), None);
    assert_eq!(world.resolve_event(CollisionEvent(usize::MAX, player)), None);
    assert_eq!(world.score(), 3);
    assert_eq!(world.state(), GameState::Game);
    assert_eq!(world.live_kind(player), Some(CollideType::Player));
    assert_eq!(world.live_kind(17), None);
}

#[test]
fn despawned_bodies_are_not_matched_again() {
    let mut world = playing(99);
    let player = world.spawn(CollideType::Player, 5, 0, 0).unwrap();
    let first = world.spawn(CollideType::Pickup, 5, 3, 0).unwrap();
    let second = world.spawn(CollideType::Pickup, 5, 0, 3).unwrap();
    let orb = world.spawn(CollideType::Orb, 5, -3, 0).unwrap();
    let events = vec![
        CollisionEvent(player, first),
        CollisionEvent(player, second),
        CollisionEvent(second, orb),
        CollisionEvent(player, orb),
        CollisionEvent(player, orb),
    ];
    let sent = world.manage_collisions(&events);
    // the second pickup went with the first, so it neither scores nor moves
    assert_eq!(sent, vec![PickupCollision(first)]);
    assert_eq!(world.score(), 100);
    assert_eq!(world.live_kind(second), None);
    assert_eq!(world.live_kind(orb), None);
    assert_eq!(world.state(), GameState::Game);
}

#[test]
fn death_does_not_stop_the_resolver() {
    let mut world = playing(10);
    let player = world.spawn(CollideType::Player, 5, 0, 0).unwrap();
    let pickup = world.spawn(CollideType::Pickup, 5, 3, 0).unwrap();
    let orb = world.spawn(CollideType::Orb, 5, -3, 0).unwrap();
    let events = vec![CollisionEvent(player, orb), CollisionEvent(player, pickup)];
    let sent = world.manage_collisions(&events);
    assert_eq!(sent, vec![PickupCollision(pickup)]);
    assert_eq!(world.state(), GameState::Dead);
    assert_eq!(world.score(), 11);
}

#[test]
fn follow_ups_come_in_the_order_of_the_events() {
    let mut world = playing(0);
    let player = world.spawn(CollideType::Player, 5, 0, 0).unwrap();
    let a = world.spawn(CollideType::Pickup, 5, 3, 0).unwrap();
    let b = world.spawn(CollideType::Pickup, 5, 0, 3).unwrap();
    let orb = world.spawn(CollideType::Orb, 5, 200, 200).unwrap();
    let events = vec![
        CollisionEvent(b, orb),
        CollisionEvent(player, a),
        CollisionEvent(b, a),
        CollisionEvent(player, b),
    ];
    let sent = world.manage_collisions(&events);
    assert_eq!(sent, vec![PickupCollision(b), PickupCollision(a), PickupCollision(b)]);
    assert_eq!(world.score(), 2);
    assert!(world.manage_collisions(&Vec::new()).is_empty());
    assert_eq!(world.score(), 2);
}

#[test]
fn spawn_says_why_a_body_is_refused() {
    let mut fresh = World::new(field());
    assert_eq!(fresh.spawn(CollideType::Player, 5, 0, 0), Err(SpawnError::NotSetUp));
    assert_eq!(fresh.spawn(CollideType::Player, 0, 0, 0), Err(SpawnError::ZeroRadius));
    assert_eq!(fresh.len(), 0);

    let mut world = playing(0);
    assert_eq!(world.spawn(CollideType::Orb, 0, 0, 0), Err(SpawnError::ZeroRadius));
    assert_eq!(world.spawn(CollideType::Orb, 0, COORD_LIMIT + 1, 0), Err(SpawnError::ZeroRadius));
    assert_eq!(world.spawn(CollideType::Orb, 1, COORD_LIMIT + 1, 0), Err(SpawnError::OutOfRange));
    assert_eq!(world.spawn(CollideType::Orb, 1, 0, -COORD_LIMIT - 1), Err(SpawnError::OutOfRange));
    assert_eq!(world.spawn(CollideType::Orb, 1, i64::MIN, i64::MAX), Err(SpawnError::OutOfRange));
    assert_eq!(world.len(), 0);
    assert_eq!(world.spawn(CollideType::Orb, u32::MAX, COORD_LIMIT, -COORD_LIMIT), Ok(0));
    assert_eq!(world.spawn(CollideType::Pickup, 1, 0, 0), Ok(1));
    assert_eq!(world.len(), 2);

    let mut done = playing(THRESHOLD);
    assert_eq!(done.spawn(CollideType::Pickup, 1, 0, 0), Err(SpawnError::PickupsGone));
    assert_eq!(done.spawn(CollideType::Player, 1, 0, 0), Ok(0));
    assert_eq!(done.spawn(CollideType::Orb, 1, 0, 0), Ok(1));
}

#[test]
fn spawn_stops_at_the_capacity_of_the_arena() {
    let mut world = playing(THRESHOLD);
    for i in 0..MAX_BODIES {
        assert_eq!(world.spawn(CollideType::Orb, 1, i as i64, 0), Ok(i));
    }
    assert_eq!(world.len(), MAX_BODIES);
    assert_eq!(world.spawn(CollideType::Orb, 1, 0, 0), Err(SpawnError::ArenaFull));
    assert_eq!(world.spawn(CollideType::Pickup, 1, 0, 0), Err(SpawnError::ArenaFull));
    assert_eq!(world.len(), MAX_BODIES);
    assert!(!world.has_room());
}

#[test]
fn worlds_start_blank() {
    let world = World::new(field());
    assert_eq!(world.state(), GameState::Init);
    assert_eq!(world.score(), 0);
    assert_eq!(world.len(), 0);
    assert_eq!(world.star_count(), 0);
    assert_eq!(world.timer_ms(), 0);
    assert_eq!(world.growth(), 0);
    assert_eq!(world.nearest(), None);
    assert_eq!(world.color(), OrbsRGB { r: 100, g: 0, b: 0 });
    assert_eq!(world.speed().orb, 0);
    assert_eq!(world.sizes().pickup, 0);
    assert_eq!(world.body(0), None);
    assert_eq!(world.star(0), None);
    assert_eq!(world.field(), field());

    let seeded = playing(42);
    assert_eq!(seeded.state(), GameState::Game);
    assert_eq!(seeded.score(), 42);
    assert_eq!(seeded.len(), 0);
    assert!(World::with_score(field(), THRESHOLD).is_some());
    assert!(World::with_score(field(), THRESHOLD + 1).is_none());
    assert!(World::with_score(field(), u32::MAX).is_none());
}
