use orb_dodge::detect::{detect, CollisionEvent};
use orb_dodge::field::Playfield;
use orb_dodge::geometry::{CollideType, Collider, Position};
use orb_dodge::state::GameState;
use orb_dodge::world::{Body, World};

fn body(kind: CollideType, radius: u32, x: i64, y: i64) -> Body {
    Body { collider: Collider { radius, kind }, position: Position { x, y }, alive: true }
}

fn playing(score: u32) -> World {
    World::with_score(Playfield::new(1000, 1000).unwrap(), score).unwrap()
}

#[test]
fn scenario_player_meets_orb_below_threshold() {
    let mut world = playing(0);
    let player = world.spawn(CollideType::Player, 10, 100, 0).unwrap();
    let orb = world.spawn(CollideType::Orb, 10, 105, 0).unwrap();
    let events = world.detect_collisions();
    assert_eq!(events, vec![CollisionEvent(player, orb)]);
    let sent = world.manage_collisions(&events);
    assert!(sent.is_empty());
    assert_eq!(world.state(), GameState::Dead);
    assert_eq!(world.score(), 0);
    assert!(world.body(orb).unwrap().alive);
}

#[test]
fn scenario_player_meets_orb_at_threshold() {
    let mut world = playing(100);
    let player = world.spawn(CollideType::Player, 10, 100, 0).unwrap();
    let orb = world.spawn(CollideType::Orb, 10, 105, 0).unwrap();
    let events = world.detect_collisions();
    assert_eq!(events, vec![CollisionEvent(player, orb)]);
    let sent = world.manage_collisions(&events);
    assert!(sent.is_empty());
    assert_eq!(world.state(), GameState::Game);
    assert_eq!(world.score(), 100);
    assert!(!world.body(orb).unwrap().alive);
    assert!(world.body(player).unwrap().alive);
}

#[test]
fn player_is_reported_first_whatever_the_handles() {
    let pickup_first = vec![body(CollideType::Pickup, 5, 3, 0), body(CollideType::Player, 5, 0, 0)];
    assert_eq!(detect(&pickup_first), vec![CollisionEvent(1, 0)]);
    let player_first = vec![body(CollideType::Player, 5, 0, 0), body(CollideType::Pickup, 5, 3, 0)];
    assert_eq!(detect(&player_first), vec![CollisionEvent(0, 1)]);
}

#[test]
fn lower_kind_is_reported_first() {
    let orb_pickup = vec![body(CollideType::Orb, 5, 0, 0), body(CollideType::Pickup, 5, 1, 0)];
    assert_eq!(detect(&orb_pickup), vec![CollisionEvent(1, 0)]);
    let orb_player = vec![body(CollideType::Orb, 5, 0, 0), body(CollideType::Player, 5, 1, 0)];
    assert_eq!(detect(&orb_player), vec![CollisionEvent(1, 0)]);
    let pickup_orb = vec![body(CollideType::Pickup, 5, 0, 0), body(CollideType::Orb, 5, 1, 0)];
    assert_eq!(detect(&pickup_orb), vec![CollisionEvent(0, 1)]);
}

#[test]
fn equal_kinds_are_reported_higher_handle_first() {
    let pickups = vec![body(CollideType::Pickup, 5, 0, 0), body(CollideType::Pickup, 5, 1, 0)];
    assert_eq!(detect(&pickups), vec![CollisionEvent(1, 0)]);
    let orbs = vec![body(CollideType::Orb, 5, 0, 0), body(CollideType::Orb, 5, 1, 0)];
    assert_eq!(detect(&orbs), vec![CollisionEvent(1, 0)]);
}

#[test]
fn nothing_is_reported_without_contact() {
    assert_eq!(detect(&Vec::new()), Vec::new());
    assert_eq!(detect(&vec![body(CollideType::Player, 5, 0, 0)]), Vec::new());
    let apart = vec![body(CollideType::Player, 5, 0, 0), body(CollideType::Orb, 5, 11, 0)];
    assert_eq!(detect(&apart), Vec::new());
}

#[test]
fn despawned_bodies_are_not_reported() {
    let mut bodies = vec![
        body(CollideType::Player, 5, 0, 0),
        body(CollideType::Pickup, 5, 1, 0),
        body(CollideType::Orb, 5, 2, 0),
    ];
    bodies[1].alive = false;
    assert_eq!(detect(&bodies), vec![CollisionEvent(0, 2)]);
    bodies[0].alive = false;
    assert_eq!(detect(&bodies), Vec::new());
}

#[test]
fn events_follow_the_scan_order() {
    let bodies = vec![
        body(CollideType::Orb, 5, 0, 0),
        body(CollideType::Pickup, 5, 1, 0),
        body(CollideType::Player, 5, 2, 0),
        body(CollideType::Pickup, 5, 500, 0),
        body(CollideType::Pickup, 5, 3, 0),
    ];
    assert_eq!(
        detect(&bodies),
        vec![
            CollisionEvent(1, 0),
            CollisionEvent(2, 0),
            CollisionEvent(4, 0),
            CollisionEvent(2, 1),
            CollisionEvent(4, 1),
            CollisionEvent(2, 4),
        ]
    );
}

#[test]
fn each_pair_is_reported_at_most_once() {
    let kinds = [CollideType::Player, CollideType::Pickup, CollideType::Orb];
    let n: usize = 12;
    let mut bodies = Vec::new();
    for i in 0..n {
        bodies.push(body(kinds[i % 3], 50, i as i64, -(i as i64)));
    }
    let events = detect(&bodies);
    // all bodies touch each other: every pair is there, and only once
    assert_eq!(events.len(), n * (n - 1) / 2);
    for (i, e) in events.iter().enumerate() {
        assert_ne!(e.0, e.1);
        assert!(e.0 < n && e.1 < n);
        assert!(bodies[e.0].collider.kind.rank() <= bodies[e.1].collider.kind.rank());
        for f in events[i + 1..].iter() {
            let same = (e.0 == f.0 && e.1 == f.1) || (e.0 == f.1 && e.1 == f.0);
            assert!(!same);
        }
    }
}

#[test]
fn event_count_stays_within_the_bound_when_some_are_apart() {
    let mut bodies = Vec::new();
    for i in 0..9 {
        bodies.push(body(CollideType::Pickup, 5, (i as i64) * 8, 0));
    }
    let events = detect(&bodies);
    // neighbours touch (8 apart, reach 10), others do not
    assert_eq!(events.len(), 8);
    assert!(events.len() <= 9 * 8 / 2);
}

#[test]
fn world_detector_reads_the_arena() {
    let mut world = playing(0);
    let pickup = world.spawn(CollideType::Pickup, 5, 3, 0).unwrap();
    let player = world.spawn(CollideType::Player, 5, 0, 0).unwrap();
    let far = world.spawn(CollideType::Orb, 5, 400, 400).unwrap();
    assert_eq!((pickup, player, far), (0, 1, 2));
    assert_eq!(world.detect_collisions(), vec![CollisionEvent(player, pickup)]);
    assert_eq!(world.len(), 3);
}
