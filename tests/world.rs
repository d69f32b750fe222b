use wrath_core::character::{Character, CharacterManager, Position};
use wrath_core::instances::{handle_worldport_ack, InstanceManager};
use wrath_core::map::MapManager;
use wrath_core::teleport::{AreaTriggerError, AreaTriggerOutcome, AreaTriggerPurpose, TeleportMessage, TeleportationDistance, TeleportationState};
use wrath_core::updates::UpdateBlock;

fn at(x: i64, y: i64) -> Position {
    Position { x, y, z: 0, orientation: 0 }
}

fn spawn(chars: &mut CharacterManager, map: &mut MapManager, guid: u64, p: Position) {
    let mut c = Character::new(guid, format!("c{}", guid), 0, 0);
    c.set_position(p);
    chars.insert(guid, c);
    map.push_character(guid);
}

fn pending(chars: &mut CharacterManager, guid: u64) -> Vec<UpdateBlock> {
    let mut c = chars.remove(guid).unwrap();
    let r = c.take_pending_updates();
    chars.insert(guid, c);
    r
}

fn sees(chars: &CharacterManager, a: u64, b: u64) -> bool {
    chars.get(a).unwrap().is_in_range(b)
}

#[test]
fn interest_enter_and_leave() {
    let mut chars = CharacterManager::new();
    let mut map = MapManager::new(0);
    spawn(&mut chars, &mut map, 1, at(0, 0));
    spawn(&mut chars, &mut map, 2, at(4999, 0));
    map.tick(&mut chars);
    assert!(sees(&chars, 1, 2));
    assert!(sees(&chars, 2, 1));
    let q1 = pending(&mut chars, 1);
    let q2 = pending(&mut chars, 2);
    assert!(q1.iter().any(|b| matches!(b, UpdateBlock::Create { guid: 2, .. })));
    assert!(q2.iter().any(|b| matches!(b, UpdateBlock::Create { guid: 1, .. })));

    let mut c2 = chars.remove(2).unwrap();
    c2.set_position(at(5001, 0));
    chars.insert(2, c2);
    map.tick(&mut chars);
    let q1 = pending(&mut chars, 1);
    let q2 = pending(&mut chars, 2);
    assert!(q1.contains(&UpdateBlock::Destroy { guid: 2, target_died: false }));
    assert!(q2.contains(&UpdateBlock::Destroy { guid: 1, target_died: false }));
    assert!(chars.get(1).unwrap().in_range.is_empty());
    assert!(chars.get(2).unwrap().in_range.is_empty());
}

#[test]
fn visibility_edge_is_inclusive() {
    let mut chars = CharacterManager::new();
    let mut map = MapManager::new(0);
    spawn(&mut chars, &mut map, 1, at(0, 0));
    spawn(&mut chars, &mut map, 2, at(3000, 4000));
    spawn(&mut chars, &mut map, 3, at(-3000, -4001));
    map.tick(&mut chars);
    assert!(sees(&chars, 1, 2) && sees(&chars, 2, 1));
    assert!(!sees(&chars, 1, 3) && !sees(&chars, 3, 1));
    assert!(!sees(&chars, 2, 3));
    assert!(!sees(&chars, 1, 1));
}

#[test]
fn values_update_reaches_observers_and_cleans_mask() {
    let mut chars = CharacterManager::new();
    let mut map = MapManager::new(0);
    spawn(&mut chars, &mut map, 1, at(0, 0));
    spawn(&mut chars, &mut map, 2, at(10, 10));
    map.tick(&mut chars);
    pending(&mut chars, 1);
    pending(&mut chars, 2);
    let mut c1 = chars.remove(1).unwrap();
    c1.update_mask.set_field(22, 77);
    c1.update_mask.set_field(5, 9);
    chars.insert(1, c1);
    map.tick(&mut chars);
    let expected = UpdateBlock::Values { guid: 1, fields: vec![(5, 9), (22, 77)] };
    assert_eq!(pending(&mut chars, 1), vec![expected.clone()]);
    assert_eq!(pending(&mut chars, 2), vec![expected]);
    assert!(!chars.get(1).unwrap().update_mask.has_any_dirty_fields());
}

#[test]
fn create_block_carries_nonzero_fields() {
    let mut chars = CharacterManager::new();
    let mut map = MapManager::new(0);
    spawn(&mut chars, &mut map, 1, at(0, 0));
    let mut c2 = Character::new(2, "c2".to_string(), 0, 0);
    c2.set_position(at(1, 1));
    c2.update_mask.set_field(3, 42);
    chars.insert(2, c2);
    map.push_character(2);
    map.tick(&mut chars);
    let q1 = pending(&mut chars, 1);
    assert!(q1.contains(&UpdateBlock::Create { guid: 2, fields: vec![(3, 42)] }));
}

#[test]
fn quiet_tick_after_out_of_range_update() {
    let mut chars = CharacterManager::new();
    let mut map = MapManager::new(0);
    spawn(&mut chars, &mut map, 1, at(0, 0));
    spawn(&mut chars, &mut map, 2, at(100, 0));
    map.tick(&mut chars);
    let mut c2 = chars.remove(2).unwrap();
    c2.set_position(at(9000, 0));
    chars.insert(2, c2);
    map.tick(&mut chars);
    let q1 = pending(&mut chars, 1);
    assert!(q1.contains(&UpdateBlock::OutOfRange { guids: vec![2] }));
    pending(&mut chars, 2);
    map.tick(&mut chars);
    assert!(pending(&mut chars, 1).is_empty());
    assert!(pending(&mut chars, 2).is_empty());
}

#[test]
fn removal_sends_destroy_to_observers() {
    let mut chars = CharacterManager::new();
    let mut map = MapManager::new(0);
    spawn(&mut chars, &mut map, 1, at(0, 0));
    spawn(&mut chars, &mut map, 2, at(5, 5));
    map.tick(&mut chars);
    pending(&mut chars, 1);
    map.remove_object_by_guid(2);
    map.tick(&mut chars);
    assert!(!map.find_character(2));
    assert!(map.find_character(1));
    assert!(pending(&mut chars, 1).contains(&UpdateBlock::Destroy { guid: 2, target_died: false }));
    assert!(!sees(&chars, 1, 2));
    assert!(chars.get(2).unwrap().in_range.is_empty());
}

#[test]
fn empty_map_may_shut_down() {
    let mut chars = CharacterManager::new();
    let mut map = MapManager::new(3);
    assert!(map.should_shutdown());
    spawn(&mut chars, &mut map, 1, at(0, 0));
    map.tick(&mut chars);
    assert!(!map.should_shutdown());
    assert_eq!(map.id(), 3);
}

#[test]
fn far_teleport() {
    let mut chars = CharacterManager::new();
    let mut world = InstanceManager::new();
    let mut c = Character::new(1, "traveller".to_string(), 0, 0);
    c.set_position(at(0, 0));
    c.time_sync_counter = 12;
    chars.insert(1, c);
    world.push_character(0, 0, 1);
    world.tick(&mut chars);
    assert!(world.is_on_map(0, 1));

    let destination = TeleportationDistance::Far { map: 1, position: Position { x: 100, y: 200, z: 50, orientation: 0 }, area: 9 };
    let mut c = chars.remove(1).unwrap();
    assert!(c.teleport_to(destination));
    let messages = c.tick_teleport();
    assert_eq!(c.teleport, TeleportationState::Executing(destination));
    assert_eq!(
        messages,
        vec![
            TeleportMessage::TransferPending { map: 1 },
            TeleportMessage::NewWorld { map: 1, position: Position { x: 100, y: 200, z: 50, orientation: 0 } },
        ]
    );
    chars.insert(1, c);
    assert!(handle_worldport_ack(&mut world, &mut chars, 1));
    world.tick(&mut chars);
    let c = chars.get(1).unwrap();
    assert_eq!(c.map, 1);
    assert_eq!(c.position, Some(Position { x: 100, y: 200, z: 50, orientation: 0 }));
    assert_eq!(c.time_sync_counter, 0);
    assert_eq!(c.teleport, TeleportationState::Idle);
    assert!(world.is_on_map(1, 1));
    assert!(!world.is_on_map(0, 1));
}

#[test]
fn worldport_ack_without_teleport_is_ignored() {
    let mut chars = CharacterManager::new();
    let mut world = InstanceManager::new();
    let mut c = Character::new(1, "stay".to_string(), 0, 0);
    c.set_position(at(0, 0));
    chars.insert(1, c);
    assert!(!handle_worldport_ack(&mut world, &mut chars, 1));
    assert_eq!(chars.get(1).unwrap().map, 0);
}

#[test]
fn near_teleport_ack() {
    let mut c = Character::new(1, "n".to_string(), 0, 0);
    c.set_position(at(0, 0));
    assert!(!c.handle_teleport_ack());
    assert_eq!(c.position, Some(at(0, 0)));
    let dest = TeleportationDistance::Near(at(10, 20));
    assert!(c.teleport_to(dest));
    assert_eq!(c.tick_teleport(), vec![TeleportMessage::MoveTeleportAck { guid: 1, position: at(10, 20) }]);
    assert!(c.handle_movement(at(3, 3)).is_none());
    assert!(c.handle_teleport_ack());
    assert_eq!(c.position, Some(at(10, 20)));
    assert_eq!(c.teleport, TeleportationState::Idle);
}

#[test]
fn teleport_ack_while_idle_is_ignored() {
    let mut c = Character::new(1, "idle".to_string(), 0, 0);
    c.set_position(at(5, 5));
    assert!(!c.handle_teleport_ack());
    assert_eq!(c.teleport, TeleportationState::Idle);
    assert_eq!(c.position, Some(at(5, 5)));
}

#[test]
fn teleport_outside_world_is_refused() {
    let mut c = Character::new(1, "far".to_string(), 0, 0);
    assert!(!c.teleport_to(TeleportationDistance::Near(at(600_000_000, 0))));
    assert_eq!(c.teleport, TeleportationState::Idle);
}

#[test]
fn movement_goes_to_observers() {
    let mut chars = CharacterManager::new();
    let mut map = MapManager::new(0);
    spawn(&mut chars, &mut map, 1, at(0, 0));
    spawn(&mut chars, &mut map, 2, at(10, 0));
    map.tick(&mut chars);
    let mut c1 = chars.remove(1).unwrap();
    assert_eq!(c1.handle_movement(at(20, 0)), Some(vec![2]));
    assert_eq!(c1.position, Some(at(20, 0)));
}

#[test]
fn set_active_mover_is_a_no_op() {
    let c = Character::new(7, "m".to_string(), 0, 0);
    assert!(c.set_active_mover(7));
    assert!(c.set_active_mover(7));
    assert!(!c.set_active_mover(8));
    assert_eq!(c.teleport, TeleportationState::Idle);
    assert!(c.pending_updates.is_empty());
}

#[test]
fn tutorial_flags() {
    let mut c = Character::new(1, "t".to_string(), 0, 0);
    c.set_tutorial_flag(0);
    c.set_tutorial_flag(33);
    c.set_tutorial_flag(255);
    assert_eq!(c.tutorial_flags, [1, 2, 0, 0, 0, 0, 0, 0x8000_0000]);
    assert!(c.tutorial_flag(33));
    assert!(!c.tutorial_flag(34));
    c.reset_tutorial_flags();
    assert_eq!(c.tutorial_flags, [0; 8]);
}

#[test]
fn recipients_and_time_sync() {
    let mut chars = CharacterManager::new();
    let mut map = MapManager::new(0);
    spawn(&mut chars, &mut map, 1, at(0, 0));
    spawn(&mut chars, &mut map, 2, at(10, 0));
    spawn(&mut chars, &mut map, 3, at(20, 0));
    map.tick(&mut chars);
    let c1 = chars.get(1).unwrap();
    let mut others = c1.recipients_in_range(false);
    others.sort();
    assert_eq!(others, vec![2, 3]);
    assert_eq!(c1.recipients_in_range(true).last(), Some(&1));
    assert!(c1.time_sync_matches(0));
    assert!(!c1.time_sync_matches(1));
}

#[test]
fn interest_is_symmetric_in_a_crowd() {
    let mut chars = CharacterManager::new();
    let mut map = MapManager::new(0);
    let spots = [(0, 0), (4000, 0), (8000, 0), (8000, 3000), (-5000, 0), (100, 100)];
    for (i, (x, y)) in spots.iter().enumerate() {
        spawn(&mut chars, &mut map, i as u64 + 1, at(*x, *y));
    }
    map.tick(&mut chars);
    for a in 1..=6u64 {
        for b in 1..=6u64 {
            let (ax, ay) = spots[a as usize - 1];
            let (bx, by) = spots[b as usize - 1];
            let close = a != b && (ax - bx) * (ax - bx) + (ay - by) * (ay - by) <= 5000 * 5000;
            assert_eq!(sees(&chars, a, b), close);
            assert_eq!(sees(&chars, a, b), sees(&chars, b, a));
        }
    }
}

#[test]
fn area_triggers() {
    let mut c = Character::new(1, "a".to_string(), 0, 0);
    assert_eq!(c.handle_area_trigger(None), Err(AreaTriggerError::UnknownTrigger));
    assert_eq!(c.handle_area_trigger(Some(AreaTriggerPurpose::RestedArea)), Ok(AreaTriggerOutcome::EnteredRestedArea));
    assert_eq!(
        c.handle_area_trigger(Some(AreaTriggerPurpose::Teleport { map: 1, position: at(600_000_000, 0), area: 2 })),
        Err(AreaTriggerError::DestinationOutsideWorld)
    );
    assert_eq!(c.teleport, TeleportationState::Idle);
    let p = Position { x: 1, y: 2, z: 3, orientation: 4 };
    assert_eq!(c.handle_area_trigger(Some(AreaTriggerPurpose::Teleport { map: 1, position: p, area: 2 })), Ok(AreaTriggerOutcome::TeleportQueued));
    assert_eq!(c.teleport, TeleportationState::Queued(TeleportationDistance::Far { map: 1, position: p, area: 2 }));
}
