use resphys::collision_aabb_aabb;
use resphys::to_fp;
use resphys::Body;
use resphys::BodySet;
use resphys::BodyStatus;
use resphys::Collider;
use resphys::ColliderHandle;
use resphys::ColliderSet;
use resphys::ColliderState;
use resphys::ContactEvent;
use resphys::PhysicsError;
use resphys::PhysicsWorld;
use resphys::Ray;
use resphys::Vec2;
use resphys::AABB;

#[derive(Clone, Copy, Debug, PartialEq, Eq)]
enum TagType {
    Moving,
    Collidable,
    Sensor,
}

type World = PhysicsWorld<TagType>;

fn square(half: i64) -> AABB {
    AABB { half_exts: Vec2::from(half, half) }
}

fn tick() -> resphys::FP {
    to_fp(1).div(to_fp(60))
}

fn add_static_box(
    bodies: &mut BodySet,
    colliders: &mut ColliderSet<TagType>,
    pos: (i64, i64),
    half: i64,
    tag: TagType,
) -> ColliderHandle {
    let body = Body::new(
        Vec2::from(pos.0, pos.1),
        Vec2::zero(),
        BodyStatus::Static,
        false,
    );
    let bh = bodies.insert(body);
    let collider = Collider::new(square(half), Vec2::zero(), bh, ColliderState::Solid, tag);
    colliders.insert(collider, bodies).unwrap()
}

fn count_started(events: &[ContactEvent<TagType>], a: ColliderHandle, b: ColliderHandle) -> usize {
    events
        .iter()
        .filter(|e| match e {
            ContactEvent::CollisionStarted(x, y, _, _) => *x == a && *y == b,
            ContactEvent::OverlapStarted(x, y, _, _) => *x == a && *y == b,
            _ => false,
        })
        .count()
}

fn count_stopped(events: &[ContactEvent<TagType>], a: ColliderHandle, b: ColliderHandle) -> usize {
    events
        .iter()
        .filter(|e| match e {
            ContactEvent::CollisionStopped(x, y, _, _) => *x == a && *y == b,
            ContactEvent::OverlapStopped(x, y, _, _) => *x == a && *y == b,
            _ => false,
        })
        .count()
}

#[test]
fn moving_body_starts_and_stops_exactly_once() {
    let mut world = World::new();
    let mut bodies = BodySet::new();
    let mut colliders = ColliderSet::new();

    let mover = Body::new(
        Vec2::from(360, 285),
        Vec2::from(75, 48),
        BodyStatus::Kinematic,
        false,
    );
    let mover_bh = bodies.insert(mover);
    let mover_ch = colliders
        .insert(
            Collider::new(square(36), Vec2::zero(), mover_bh, ColliderState::Solid, TagType::Moving),
            &mut bodies,
        )
        .unwrap();
    let tile_ch = add_static_box(&mut bodies, &mut colliders, (450, 450), 36, TagType::Collidable);
    let tile_bh = colliders.get(tile_ch).unwrap().owner;

    let mut started = 0;
    let mut stopped = 0;
    let mut started_tick = 0usize;
    let mut stopped_tick = 0usize;
    for t in 0..240 {
        world.step(tick(), &mut bodies, &mut colliders);
        let s = count_started(world.events(), mover_ch, tile_ch);
        if s > 0 && started == 0 {
            started_tick = t;
        }
        started += s;
        let p = count_stopped(world.events(), mover_ch, tile_ch);
        if p > 0 && stopped == 0 {
            stopped_tick = t;
        }
        stopped += p;
        // resolution leaves the mover outside the tile at every tick's end
        let mover_pos = bodies.get(mover_bh).unwrap().position;
        let tile_pos = bodies.get(tile_bh).unwrap().position;
        assert!(!collision_aabb_aabb(
            mover_pos,
            Vec2::from(36, 36),
            tile_pos,
            Vec2::from(36, 36)
        ));
    }
    assert_eq!(started, 1);
    assert_eq!(stopped, 1);
    assert!(started_tick < stopped_tick);
}

#[test]
fn multi_impact_resolves_both_contacts() {
    let mut world = World::new();
    let mut bodies = BodySet::new();
    let mut colliders = ColliderSet::new();

    let mover = Body::new(
        Vec2::from(360, 0),
        Vec2::from(0, 1600),
        BodyStatus::Kinematic,
        false,
    );
    let mover_bh = bodies.insert(mover);
    colliders
        .insert(
            Collider::new(square(36), Vec2::zero(), mover_bh, ColliderState::Solid, TagType::Moving),
            &mut bodies,
        )
        .unwrap();
    let left_ch = add_static_box(&mut bodies, &mut colliders, (340, 450), 36, TagType::Collidable);
    let right_ch = add_static_box(&mut bodies, &mut colliders, (360, 450), 36, TagType::Collidable);
    let left_bh = colliders.get(left_ch).unwrap().owner;
    let right_bh = colliders.get(right_ch).unwrap().owner;

    for _ in 0..30 {
        world.step(tick(), &mut bodies, &mut colliders);
        let mover_pos = bodies.get(mover_bh).unwrap().position;
        let half = Vec2::from(36, 36);
        let left_pos = bodies.get(left_bh).unwrap().position;
        let right_pos = bodies.get(right_bh).unwrap().position;
        assert!(!collision_aabb_aabb(mover_pos, half, left_pos, half));
        assert!(!collision_aabb_aabb(mover_pos, half, right_pos, half));
    }
}

#[test]
fn step_zero_after_resolution_moves_nothing_and_starts_nothing() {
    let mut world = World::new();
    let mut bodies = BodySet::new();
    let mut colliders = ColliderSet::new();

    let mover = Body::new(
        Vec2::from(360, 0),
        Vec2::from(0, 1600),
        BodyStatus::Kinematic,
        false,
    );
    let mover_bh = bodies.insert(mover);
    colliders
        .insert(
            Collider::new(square(36), Vec2::zero(), mover_bh, ColliderState::Solid, TagType::Moving),
            &mut bodies,
        )
        .unwrap();
    add_static_box(&mut bodies, &mut colliders, (360, 450), 36, TagType::Collidable);

    for _ in 0..20 {
        world.step(tick(), &mut bodies, &mut colliders);
    }
    let before: Vec<Vec2> = (0..bodies.len())
        .map(|i| bodies.slots[i].body.as_ref().unwrap().position)
        .collect();
    world.step(to_fp(0), &mut bodies, &mut colliders);
    for event in world.events().iter() {
        assert!(!matches!(
            event,
            ContactEvent::CollisionStarted(..) | ContactEvent::OverlapStarted(..)
        ));
    }
    for i in 0..bodies.len() {
        assert_eq!(bodies.slots[i].body.as_ref().unwrap().position, before[i]);
    }
}

#[test]
fn sensor_on_same_body_reports_nothing() {
    let mut world = World::new();
    let mut bodies = BodySet::new();
    let mut colliders = ColliderSet::new();

    let body = Body::new(Vec2::from(100, 100), Vec2::zero(), BodyStatus::Kinematic, false);
    let bh = bodies.insert(body);
    colliders
        .insert(
            Collider::new(square(16), Vec2::zero(), bh, ColliderState::Solid, TagType::Moving),
            &mut bodies,
        )
        .unwrap();
    colliders
        .insert(
            Collider::new(square(8), Vec2::from(0, 8), bh, ColliderState::Sensor, TagType::Sensor),
            &mut bodies,
        )
        .unwrap();

    world.step(tick(), &mut bodies, &mut colliders);
    assert!(world.events().is_empty());
}

#[test]
fn overlap_test_returns_exactly_intersecting_tiles() {
    let mut world = World::new();
    let mut bodies = BodySet::new();
    let mut colliders = ColliderSet::new();

    let mut expected: Vec<ColliderHandle> = Vec::new();
    for i in 0..12i64 {
        for j in 0..12i64 {
            let center = (32 * i + 16, 32 * j + 16);
            let ch = add_static_box(&mut bodies, &mut colliders, center, 16, TagType::Collidable);
            // query box corners at -50 and 350 against tile half extents 16:
            // strict overlap iff |center - 150| < 216 on both axes
            if (center.0 - 150).abs() < 216 && (center.1 - 150).abs() < 216 {
                expected.push(ch);
            }
        }
    }
    // a tile of another category inside the region never matches mask 1
    let odd = add_static_box(&mut bodies, &mut colliders, (150, 150), 16, TagType::Collidable);
    colliders.slots[odd.index].collider.as_mut().unwrap().category = 2;

    let found = world.overlap_test(
        Vec2::from(150, 150),
        Vec2::from(200, 200),
        1,
        &bodies,
        &colliders,
    );
    assert_eq!(found, expected);
    assert!(!found.contains(&odd));
}

#[test]
fn project_ray_hits_match_the_analytic_intersection() {
    let mut world = World::new();
    let mut bodies = BodySet::new();
    let mut colliders = ColliderSet::new();

    // box spans x in [500, 600], y in [250, 350]
    let bh = bodies.insert(Body::new(
        Vec2::from(550, 300),
        Vec2::zero(),
        BodyStatus::Static,
        false,
    ));
    let ch = colliders
        .insert(
            Collider::new(square(50), Vec2::zero(), bh, ColliderState::Solid, TagType::Collidable),
            &mut bodies,
        )
        .unwrap();

    let ray = Ray {
        origin: Vec2::from(750, 50),
        dir: Vec2::from(-400, 500),
        toi: to_fp(1),
    };
    let hits = world.project_ray(&ray, 1, &bodies, &colliders);
    assert_eq!(hits.len(), 1);
    assert_eq!(hits[0].0, ch);
    // analytic entry: x side at t = 0.375, y side at t = 0.4; the box is
    // entered at t = 0.4, truncated toward zero in fixed point
    assert_eq!(hits[0].1.toi.bits, 200 * 65536 / 500);
    assert!(!hits[0].1.toi.is_negative());
    assert!(hits[0].1.toi.le(to_fp(1)));

    // an incompatible mask yields no hit for the same geometry
    let none = world.project_ray(&ray, 2, &bodies, &colliders);
    assert!(none.is_empty());
}

#[test]
fn filtering_respects_category_and_mask() {
    let mut world = World::new();
    let mut bodies = BodySet::new();
    let mut colliders = ColliderSet::new();

    let special = add_static_box(&mut bodies, &mut colliders, (150, 150), 16, TagType::Collidable);
    {
        let c = colliders.slots[special.index].collider.as_mut().unwrap();
        c.category = 2;
        c.mask = 1;
    }
    let plain = add_static_box(&mut bodies, &mut colliders, (160, 150), 16, TagType::Collidable);

    // category 2, mask 1 never matches a query with mask 4
    let found = world.overlap_test(Vec2::from(150, 150), Vec2::from(50, 50), 4, &bodies, &colliders);
    assert!(!found.contains(&special));
    // a geometrically matching, mask-compatible collider always appears
    let found1 = world.overlap_test(Vec2::from(150, 150), Vec2::from(50, 50), 1, &bodies, &colliders);
    assert!(found1.contains(&plain));
    assert!(!found1.contains(&special));
    let found2 = world.overlap_test(Vec2::from(150, 150), Vec2::from(50, 50), 2, &bodies, &colliders);
    assert!(found2.contains(&special));
}

#[test]
fn collisions_of_exposes_contact_normals() {
    let mut world = World::new();
    let mut bodies = BodySet::new();
    let mut colliders = ColliderSet::new();

    let mover = Body::new(Vec2::from(360, 0), Vec2::from(0, 1600), BodyStatus::Kinematic, false);
    let mover_bh = bodies.insert(mover);
    let mover_ch = colliders
        .insert(
            Collider::new(square(36), Vec2::zero(), mover_bh, ColliderState::Solid, TagType::Moving),
            &mut bodies,
        )
        .unwrap();
    let tile_ch = add_static_box(&mut bodies, &mut colliders, (360, 450), 36, TagType::Collidable);

    // before any step, introspection yields an empty sequence
    assert!(world.collisions_of(mover_ch).is_empty());

    let mut touched = false;
    for _ in 0..30 {
        world.step(tick(), &mut bodies, &mut colliders);
        let contacts = world.collisions_of(mover_ch);
        if !contacts.is_empty() {
            touched = true;
            assert_eq!(contacts[0].0, tile_ch);
            // the tile lies below the falling mover: the normal points down
            assert!(contacts[0].1.normal.y.is_positive());
            // seen from the tile, the same contact points up
            let back = world.interactions_of(tile_ch);
            assert_eq!(back[0].0, mover_ch);
            assert!(back[0].1.normal.y.is_negative());
        }
    }
    assert!(touched);
}

#[test]
fn store_lookup_errors() {
    let mut bodies = BodySet::new();
    let mut colliders: ColliderSet<TagType> = ColliderSet::new();

    let bh = bodies.insert(Body::new(Vec2::zero(), Vec2::zero(), BodyStatus::Static, false));
    assert!(bodies.get(bh).is_ok());

    // out-of-range and stale handles are detected
    let bogus = resphys::BodyHandle { index: 7, generation: 0 };
    assert_eq!(bodies.get(bogus).unwrap_err(), PhysicsError::InvalidHandle);

    // collider insertion against a dead owner fails and stores nothing
    let orphan = Collider::new(square(4), Vec2::zero(), bogus, ColliderState::Solid, TagType::Moving);
    assert_eq!(
        colliders.insert(orphan, &mut bodies).unwrap_err(),
        PhysicsError::OwnerNotFound
    );
    assert_eq!(colliders.len(), 0);

    // a body that still owns colliders cannot be removed
    let good = Collider::new(square(4), Vec2::zero(), bh, ColliderState::Solid, TagType::Moving);
    let ch = colliders.insert(good, &mut bodies).unwrap();
    assert_eq!(bodies.remove(bh).unwrap_err(), PhysicsError::BodyOwnsColliders);

    // removing the collider detaches it; the body can then be removed,
    // and the stale handles are rejected afterwards
    let mut world = World::new();
    assert!(world.remove_collider(ch, &mut bodies, &mut colliders).is_ok());
    assert_eq!(colliders.get(ch).unwrap_err(), PhysicsError::InvalidHandle);
    assert!(bodies.remove(bh).is_ok());
    assert_eq!(bodies.get(bh).unwrap_err(), PhysicsError::InvalidHandle);
    assert_eq!(
        world.remove_collider(ch, &mut bodies, &mut colliders).unwrap_err(),
        PhysicsError::InvalidHandle
    );
}

#[test]
fn removed_collider_emits_no_ghost_stop() {
    let mut world = World::new();
    let mut bodies = BodySet::new();
    let mut colliders = ColliderSet::new();

    // two overlapping colliders on distinct bodies, one a sensor
    let bh1 = bodies.insert(Body::new(Vec2::from(100, 100), Vec2::zero(), BodyStatus::Kinematic, false));
    let ch1 = colliders
        .insert(
            Collider::new(square(16), Vec2::zero(), bh1, ColliderState::Sensor, TagType::Sensor),
            &mut bodies,
        )
        .unwrap();
    let bh2 = bodies.insert(Body::new(Vec2::from(110, 100), Vec2::zero(), BodyStatus::Static, false));
    let ch2 = colliders
        .insert(
            Collider::new(square(16), Vec2::zero(), bh2, ColliderState::Solid, TagType::Collidable),
            &mut bodies,
        )
        .unwrap();

    world.step(tick(), &mut bodies, &mut colliders);
    assert_eq!(count_started(world.events(), ch1, ch2), 1);

    // removing the sensor purges the tracked pair: the next step emits no
    // stop event for it
    world.remove_collider(ch1, &mut bodies, &mut colliders).unwrap();
    world.step(tick(), &mut bodies, &mut colliders);
    assert_eq!(count_stopped(world.events(), ch1, ch2), 0);
    assert!(world.events().is_empty());
}

#[test]
fn kinematic_pair_splits_correction_equally() {
    let mut world = World::new();
    let mut bodies = BodySet::new();
    let mut colliders = ColliderSet::new();

    // two resting kinematic bodies interpenetrate by 22 on the x axis
    let bh1 = bodies.insert(Body::new(Vec2::from(100, 100), Vec2::zero(), BodyStatus::Kinematic, false));
    let ch1 = colliders
        .insert(
            Collider::new(square(16), Vec2::zero(), bh1, ColliderState::Solid, TagType::Moving),
            &mut bodies,
        )
        .unwrap();
    let bh2 = bodies.insert(Body::new(Vec2::from(110, 100), Vec2::zero(), BodyStatus::Kinematic, false));
    let ch2 = colliders
        .insert(
            Collider::new(square(16), Vec2::zero(), bh2, ColliderState::Solid, TagType::Moving),
            &mut bodies,
        )
        .unwrap();

    world.step(tick(), &mut bodies, &mut colliders);
    assert_eq!(count_started(world.events(), ch1, ch2), 1);
    // half of the 22-deep penetration each, along the x axis
    assert_eq!(bodies.get(bh1).unwrap().position, Vec2::from(89, 100));
    assert_eq!(bodies.get(bh2).unwrap().position, Vec2::from(121, 100));
    // resolution never touches velocities
    assert_eq!(bodies.get(bh1).unwrap().velocity, Vec2::zero());
    assert_eq!(bodies.get(bh2).unwrap().velocity, Vec2::zero());
}

#[test]
fn resolution_never_changes_velocity() {
    let mut world = World::new();
    let mut bodies = BodySet::new();
    let mut colliders = ColliderSet::new();

    let mover = Body::new(Vec2::from(360, 0), Vec2::from(0, 1600), BodyStatus::Kinematic, false);
    let mover_bh = bodies.insert(mover);
    colliders
        .insert(
            Collider::new(square(36), Vec2::zero(), mover_bh, ColliderState::Solid, TagType::Moving),
            &mut bodies,
        )
        .unwrap();
    add_static_box(&mut bodies, &mut colliders, (360, 450), 36, TagType::Collidable);

    for _ in 0..30 {
        world.step(tick(), &mut bodies, &mut colliders);
        assert_eq!(bodies.get(mover_bh).unwrap().velocity, Vec2::from(0, 1600));
    }
}

#[test]
fn free_body_moves_by_velocity_times_dt() {
    let mut world = World::new();
    let mut bodies = BodySet::new();
    let mut colliders: ColliderSet<TagType> = ColliderSet::new();

    let bh = bodies.insert(Body::new(Vec2::zero(), Vec2::from(60, 120), BodyStatus::Kinematic, false));

    // dt is 1/60 truncated to 1092 raw bits, so each tick advances by
    // exactly (60 * 1092, 120 * 1092) raw bits
    let dt_bits = resphys::ONE_BITS / 60;
    assert_eq!(tick().bits, dt_bits);
    for _ in 0..10 {
        world.step(tick(), &mut bodies, &mut colliders);
    }
    let pos = bodies.get(bh).unwrap().position;
    assert_eq!(pos.x.bits, 10 * 60 * dt_bits);
    assert_eq!(pos.y.bits, 10 * 120 * dt_bits);
    // the recorded movement is the last tick's velocity * dt
    assert_eq!(bodies.get(bh).unwrap().movement.x.bits, 60 * dt_bits);
    assert_eq!(bodies.get(bh).unwrap().movement.y.bits, 120 * dt_bits);
}
