use bevy_2d_collisions::components::{
    Collider, Collision, CollisionBox, CollisionGroup, Collisions, Position, Size,
};
use bevy_2d_collisions::events::{CollisionBegin, CollisionEnd, CollisionEvent, CollisionNotice};
use bevy_2d_collisions::resources::CollisionMap;
use bevy_2d_collisions::{CollisionMapKey, CollisionsPlugin};

fn collider(entity: u64, x: i32, y: i32, w: u32, h: u32, layer: u32, mask: u32) -> Collider {
    Collider {
        entity,
        position: Position { x, y },
        collision_box: CollisionBox { size: Size { x: w, y: h }, disabled: false },
        group: CollisionGroup { layer, mask },
    }
}

fn begin(entity: u64, detected: u64) -> CollisionNotice {
    CollisionNotice::Begin(CollisionBegin { entity, detected })
}

fn ongoing(entity: u64, detected: u64) -> CollisionNotice {
    CollisionNotice::Ongoing(CollisionEvent { entity, detected })
}

fn end(entity: u64, left: u64) -> CollisionNotice {
    CollisionNotice::End(CollisionEnd { entity, left })
}

#[test]
fn overlap_then_separation_two_steps() {
    let mut map = CollisionMap::new();
    let mut snap = vec![collider(1, 0, 0, 32, 32, 1, 1), collider(2, 16, 0, 32, 32, 1, 1)];
    let step1 = CollisionsPlugin::update(&snap, &mut map);
    assert_eq!(step1, vec![begin(1, 2), begin(2, 1)]);
    assert!(map.contains(&CollisionMapKey::new(1, 2)));
    snap[1].position.x = 40;
    let step2 = CollisionsPlugin::update(&snap, &mut map);
    assert_eq!(step2, vec![end(1, 2), end(2, 1)]);
    assert!(!map.contains(&CollisionMapKey::new(1, 2)));
}

#[test]
fn zero_mask_receives_nothing() {
    let mut map = CollisionMap::new();
    let snap = vec![collider(1, 0, 0, 32, 32, 1, 1), collider(2, 0, 0, 32, 32, 1, 0)];
    for _ in 0..3 {
        let notices = CollisionsPlugin::update(&snap, &mut map);
        for n in &notices {
            match n {
                CollisionNotice::Begin(e) => assert_ne!(e.entity, 2),
                CollisionNotice::Ongoing(e) => assert_ne!(e.entity, 2),
                CollisionNotice::End(e) => assert_ne!(e.entity, 2),
            }
        }
    }
}

#[test]
fn zero_masks_on_both_sides_give_no_notifications() {
    let mut map = CollisionMap::new();
    let snap = vec![collider(1, 0, 0, 32, 32, 1, 0), collider(2, 0, 0, 32, 32, 1, 0)];
    for _ in 0..3 {
        assert!(CollisionsPlugin::update(&snap, &mut map).is_empty());
    }
    assert!(!map.contains(&CollisionMapKey::new(1, 2)));
}

#[test]
fn begin_once_then_ongoing_each_step() {
    let mut map = CollisionMap::new();
    let snap = vec![collider(1, 0, 0, 10, 10, 1, 1), collider(2, 3, 3, 10, 10, 1, 1)];
    assert_eq!(CollisionsPlugin::update(&snap, &mut map), vec![begin(1, 2), begin(2, 1)]);
    assert_eq!(CollisionsPlugin::update(&snap, &mut map), vec![ongoing(1, 2), ongoing(2, 1)]);
    assert_eq!(CollisionsPlugin::update(&snap, &mut map), vec![ongoing(1, 2), ongoing(2, 1)]);
}

#[test]
fn nothing_after_end_until_new_begin() {
    let mut map = CollisionMap::new();
    let mut snap = vec![collider(1, 0, 0, 10, 10, 1, 1), collider(2, 3, 0, 10, 10, 1, 1)];
    CollisionsPlugin::update(&snap, &mut map);
    snap[1].position.x = 100;
    assert_eq!(CollisionsPlugin::update(&snap, &mut map), vec![end(1, 2), end(2, 1)]);
    assert!(CollisionsPlugin::update(&snap, &mut map).is_empty());
    assert!(CollisionsPlugin::update(&snap, &mut map).is_empty());
    snap[1].position.x = 5;
    assert_eq!(CollisionsPlugin::update(&snap, &mut map), vec![begin(1, 2), begin(2, 1)]);
}

#[test]
fn one_notice_per_direction_per_step() {
    let mut map = CollisionMap::new();
    let snap = vec![
        collider(1, 0, 0, 10, 10, 1, 1),
        collider(2, 2, 0, 10, 10, 1, 1),
        collider(3, 4, 0, 10, 10, 1, 1),
    ];
    let notices = CollisionsPlugin::update(&snap, &mut map);
    assert_eq!(notices.len(), 6);
    for a in 1..4u64 {
        for b in 1..4u64 {
            let count = notices
                .iter()
                .filter(|n| **n == begin(a, b))
                .count();
            assert_eq!(count, if a == b { 0 } else { 1 });
        }
    }
    assert_eq!(
        notices,
        vec![begin(1, 2), begin(2, 1), begin(1, 3), begin(3, 1), begin(2, 3), begin(3, 2)]
    );
}

#[test]
fn one_way_visibility() {
    // A (mask 2) sees B (layer 2); B (mask 4) does not see A (layer 1).
    let mut map = CollisionMap::new();
    let mut snap = vec![collider(1, 0, 0, 10, 10, 1, 2), collider(2, 1, 1, 10, 10, 2, 4)];
    assert_eq!(CollisionsPlugin::update(&snap, &mut map), vec![begin(1, 2)]);
    assert_eq!(CollisionsPlugin::update(&snap, &mut map), vec![ongoing(1, 2)]);
    snap[1].position.y = 50;
    assert_eq!(CollisionsPlugin::update(&snap, &mut map), vec![end(1, 2)]);
}

#[test]
fn disabled_box_is_never_detected() {
    let mut map = CollisionMap::new();
    let mut snap = vec![collider(1, 0, 0, 32, 32, 1, 1), collider(2, 0, 0, 32, 32, 1, 1)];
    snap[1].collision_box.disabled = true;
    assert!(CollisionsPlugin::update(&snap, &mut map).is_empty());
    assert!(!map.contains(&CollisionMapKey::new(1, 2)));
}

#[test]
fn disabling_mid_overlap_sends_no_end() {
    let mut map = CollisionMap::new();
    let mut snap = vec![collider(1, 0, 0, 32, 32, 1, 1), collider(2, 0, 0, 32, 32, 1, 1)];
    CollisionsPlugin::update(&snap, &mut map);
    snap[0].collision_box.disabled = true;
    snap[1].position.x = 500;
    assert!(CollisionsPlugin::update(&snap, &mut map).is_empty());
    assert!(map.contains(&CollisionMapKey::new(2, 1)));
}

#[test]
fn equal_inputs_give_equal_results() {
    let snap = vec![
        collider(7, 0, 0, 10, 10, 3, 3),
        collider(8, 4, 4, 10, 10, 1, 2),
        collider(9, 30, 0, 10, 10, 2, 1),
    ];
    let mut first = CollisionMap::new();
    first.insert(CollisionMapKey::new(7, 9));
    let mut second = first.clone();
    let a = CollisionsPlugin::update(&snap, &mut first);
    let b = CollisionsPlugin::update(&snap, &mut second);
    assert_eq!(a, b);
    assert_eq!(a, vec![begin(7, 8), begin(8, 7), end(7, 9), end(9, 7)]);
    assert!(!first.contains(&CollisionMapKey::new(7, 9)));
    assert!(!second.contains(&CollisionMapKey::new(7, 9)));
}

#[test]
fn touching_edges_do_not_overlap() {
    let a = collider(1, 0, 0, 32, 32, 1, 1);
    assert!(!CollisionsPlugin::check_collision(&a, &collider(2, 32, 0, 32, 32, 1, 1)));
    assert!(CollisionsPlugin::check_collision(&a, &collider(2, 31, 0, 32, 32, 1, 1)));
    assert!(!CollisionsPlugin::check_collision(&a, &collider(2, 0, -32, 32, 32, 1, 1)));
    assert!(CollisionsPlugin::check_collision(&a, &collider(2, 0, -31, 32, 32, 1, 1)));
    // 2 * 16 < 32 + 0 fails: a zero-width box at the edge does not count.
    assert!(!CollisionsPlugin::check_collision(&a, &collider(2, 16, 0, 0, 0, 1, 1)));
    assert!(CollisionsPlugin::check_collision(&a, &collider(2, 15, 15, 1, 1, 1, 1)));
}

#[test]
fn overlap_needs_both_axes() {
    let a = collider(1, 0, 0, 10, 10, 1, 1);
    assert!(!CollisionsPlugin::check_collision(&a, &collider(2, 0, 20, 10, 10, 1, 1)));
    assert!(!CollisionsPlugin::check_collision(&a, &collider(2, 20, 0, 10, 10, 1, 1)));
    assert!(CollisionsPlugin::check_collision(&a, &collider(2, 9, -9, 10, 10, 1, 1)));
}

#[test]
fn extreme_coordinates_do_not_overflow() {
    let a = collider(1, i32::MIN, i32::MIN, u32::MAX, u32::MAX, 1, 1);
    let b = collider(2, i32::MAX, i32::MAX, u32::MAX, u32::MAX, 1, 1);
    assert!(!CollisionsPlugin::check_collision(&a, &b));
    let c = collider(3, 0, 0, u32::MAX, u32::MAX, 1, 1);
    assert!(CollisionsPlugin::check_collision(&a, &c));
}

#[test]
fn can_see_is_directional() {
    let a = CollisionGroup { layer: 1, mask: 2 };
    let b = CollisionGroup { layer: 2, mask: 4 };
    assert!(a.can_see(&b));
    assert!(!b.can_see(&a));
    assert!(!CollisionGroup { layer: 1, mask: 0 }.can_see(&a));
}

#[test]
fn pair_key_is_unordered() {
    let k = CollisionMapKey::new(9, 3);
    assert_eq!(k, CollisionMapKey::new(3, 9));
    assert_eq!(k.entity_a, 3);
    assert_eq!(k.entity_b, 9);
}

#[test]
fn state_table_insert_remove_purge() {
    let mut map = CollisionMap::new();
    map.insert(CollisionMapKey::new(1, 2));
    map.insert(CollisionMapKey::new(2, 1));
    map.insert(CollisionMapKey::new(2, 3));
    map.insert(CollisionMapKey::new(4, 5));
    assert_eq!(map.map.len(), 3);
    map.remove(&CollisionMapKey::new(5, 4));
    assert!(!map.contains(&CollisionMapKey::new(4, 5)));
    map.on_entity_removed(2);
    assert!(!map.contains(&CollisionMapKey::new(1, 2)));
    assert!(!map.contains(&CollisionMapKey::new(2, 3)));
    assert!(map.map.is_empty());
}

#[test]
fn per_entity_set_follows_begin_and_end() {
    let mut map = CollisionMap::new();
    let mut snap = vec![collider(1, 0, 0, 32, 32, 1, 1), collider(2, 16, 0, 32, 32, 1, 1)];
    let mut sets = vec![Collisions::new(), Collisions::new()];
    let notices = CollisionsPlugin::update(&snap, &mut map);
    CollisionsPlugin::collision_begin(1, &mut sets[0], &notices);
    CollisionsPlugin::collision_begin(2, &mut sets[1], &notices);
    assert!(sets[0].contains(2));
    assert!(sets[1].contains(1));
    assert!(!sets[0].contains(1));
    snap[1].position.x = 40;
    let notices = CollisionsPlugin::update(&snap, &mut map);
    CollisionsPlugin::collision_end(1, &mut sets[0], &notices);
    assert!(!sets[0].contains(2));
    assert!(sets[1].contains(1));
    CollisionsPlugin::collision_end(2, &mut sets[1], &notices);
    assert!(!sets[1].contains(1));
}

#[test]
fn collisions_set_operations() {
    let mut set = Collisions::new();
    assert!(!set.contains(5));
    set.insert(Collision::new(5));
    set.insert(Collision::new(5));
    set.insert(Collision::new(6));
    assert_eq!(set.map.len(), 2);
    set.remove(5);
    assert!(!set.contains(5));
    assert!(set.contains(6));
    set.remove(42);
    assert!(set.contains(6));
}

#[test]
fn table_lookup_ignores_field_order() {
    let mut map = CollisionMap::new();
    map.insert(CollisionMapKey { entity_a: 1, entity_b: 2 });
    assert!(map.contains(&CollisionMapKey { entity_a: 2, entity_b: 1 }));
    map.insert(CollisionMapKey { entity_a: 2, entity_b: 1 });
    assert_eq!(map.map.len(), 1);
    map.remove(&CollisionMapKey { entity_a: 2, entity_b: 1 });
    assert!(!map.contains(&CollisionMapKey { entity_a: 1, entity_b: 2 }));
}

#[test]
fn same_pair_is_unordered() {
    let a = CollisionMapKey { entity_a: 4, entity_b: 7 };
    let b = CollisionMapKey { entity_a: 7, entity_b: 4 };
    assert!(a.same_pair(&b));
    assert!(b.same_pair(&a));
    assert!(!a.same_pair(&CollisionMapKey { entity_a: 4, entity_b: 8 }));
    assert_eq!(b.canonical(), a);
}

#[test]
fn repeated_entity_fires_once_per_direction() {
    let mut map = CollisionMap::new();
    let snap = vec![
        collider(1, 0, 0, 10, 10, 1, 1),
        collider(2, 2, 0, 10, 10, 1, 1),
        collider(2, 2, 0, 10, 10, 1, 1),
    ];
    assert_eq!(CollisionsPlugin::update(&snap, &mut map), vec![begin(1, 2), begin(2, 1)]);
    assert_eq!(CollisionsPlugin::update(&snap, &mut map), vec![ongoing(1, 2), ongoing(2, 1)]);
}

#[test]
fn begin_stores_partner_record_and_keeps_others() {
    let mut set = Collisions::new();
    set.insert(Collision::new(9));
    let notices = vec![begin(1, 4), begin(2, 5), end(1, 9)];
    CollisionsPlugin::collision_begin(1, &mut set, &notices);
    assert_eq!(set.map.get(&4), Some(&Collision::new(4)));
    assert_eq!(set.map.get(&9), Some(&Collision::new(9)));
    assert_eq!(set.map.get(&5), None);
    assert_eq!(set.map.len(), 2);
}

#[test]
fn begin_then_end_restores_partner_map() {
    let mut set = Collisions::new();
    set.insert(Collision::new(3));
    CollisionsPlugin::collision_begin(1, &mut set, &vec![begin(1, 7)]);
    assert!(set.contains(7));
    CollisionsPlugin::collision_end(1, &mut set, &vec![end(1, 7)]);
    assert!(!set.contains(7));
    assert_eq!(set.map.get(&3), Some(&Collision::new(3)));
    assert_eq!(set.map.len(), 1);
}
