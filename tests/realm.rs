use wrath_core::addons::{parse_addon_info, AddonEntry, AddonError};
use wrath_core::character::{Character, CharacterManager, LogoutState, Position, PLAYER_FIELD_INV_SLOT_HEAD, PLAYER_VISIBLE_ITEM_ENTRY_HEAD};
use wrath_core::teleport::{TeleportMessage, TeleportationDistance, TeleportationState};
use wrath_core::instances::InstanceManager;
use wrath_core::inventory::{Inventory, InventoryError, Item, BagInventory, item_guid_for};
use wrath_core::realm::{names_match, Client, ClientError, ClientManager, ClientState};
use wrath_core::records::{ensure_dbc, ConnectionData};

fn item(entry: u32) -> Item {
    Item { object_guid: 0, entry, owner: 10, container: 10, stack: 1, durability: 100, max_durability: 100 }
}

#[test]
fn item_guid_encoding() {
    assert_eq!(item_guid_for(10, 3), 0x0000_000A_0000_0003);
    assert_eq!(item_guid_for(u32::MAX, 255), 0xFFFF_FFFF_0000_00FF);
}

#[test]
fn items_carry_cell_guid() {
    let mut inv = Inventory::new();
    assert_eq!(inv.set_item(10, 3, Some(item(500))), Ok(None));
    assert_eq!(inv.equipped.get_item(3).unwrap().object_guid, (10u64 << 32) | 3);
    let previous = inv.set_item(10, 3, Some(item(501))).unwrap().unwrap();
    assert_eq!(previous.entry, 500);
    assert_eq!(inv.set_item(10, 30, Some(item(7))), Ok(None));
    assert_eq!(inv.bag.get_item(30).unwrap().object_guid, (10u64 << 32) | 30);
    assert_eq!(inv.set_item(10, 20, Some(item(7))), Err(InventoryError::NotAnInventorySlot));
}

#[test]
fn backpack_fills_first_free_cell() {
    let mut inv = Inventory::new();
    assert_eq!(inv.try_add_item_to_backpack(4, 900), Some(23));
    assert_eq!(inv.try_add_item_to_backpack(4, 901), Some(24));
    let it = inv.bag.get_item(24).unwrap();
    assert_eq!(it, Item { object_guid: (4u64 << 32) | 24, entry: 901, owner: 4, container: 4, stack: 1, durability: 100, max_durability: 100 });
    for _ in 0..14 {
        assert!(inv.try_add_item_to_backpack(4, 1).is_some());
    }
    assert_eq!(inv.try_add_item_to_backpack(4, 1), None);
}

#[test]
fn auto_equip_from_bag() {
    let mut inv = Inventory::new();
    inv.try_add_item_to_backpack(4, 900);
    assert_eq!(inv.auto_equip_item_from_bag(4, 23, &vec![15, 16]), Ok(None));
    assert_eq!(inv.equipped.get_item(15).unwrap().object_guid, (4u64 << 32) | 15);
    assert_eq!(inv.bag.get_item(23), None);
    assert_eq!(inv.auto_equip_item_from_bag(4, 23, &vec![15]), Err(InventoryError::EmptySlot));
    inv.try_add_item_to_backpack(4, 901);
    assert_eq!(inv.auto_equip_item_from_bag(4, 23, &vec![15, 16]), Ok(None));
    assert_eq!(inv.equipped.get_item(16).unwrap().entry, 901);
    inv.try_add_item_to_backpack(4, 902);
    let old = inv.auto_equip_item_from_bag(4, 23, &vec![15, 16]).unwrap().unwrap();
    assert_eq!(old.entry, 900);
    assert_eq!(inv.auto_equip_item_from_bag(4, 2, &vec![15]), Err(InventoryError::NotAnInventorySlot));
}

#[test]
fn bag_index() {
    assert_eq!(BagInventory::to_index(23), 0);
    assert_eq!(BagInventory::to_index(38), 15);
}

#[test]
fn character_selection_movement_is_a_state_error() {
    let mut clients = ClientManager::new();
    let mut chars = CharacterManager::new();
    clients.connected(5, 77);
    let p = Position { x: 1, y: 1, z: 0, orientation: 0 };
    assert_eq!(clients.handle_movement(&InstanceManager::new(), &mut chars, 5, p), Err(ClientError::NoActiveCharacter));
    assert_eq!(clients.handle_movement(&InstanceManager::new(), &mut chars, 5, p), Err(ClientError::NoActiveCharacter));
    assert_eq!(
        clients.get_client(5),
        Ok(Client { id: 5, account_id: 77, state: ClientState::CharacterSelection, active_character: None })
    );
    assert_eq!(clients.handle_movement(&InstanceManager::new(), &mut chars, 6, p), Err(ClientError::UnknownClient));
}

#[test]
fn client_lookups() {
    let mut clients = ClientManager::new();
    let mut chars = CharacterManager::new();
    clients.connected(5, 77);
    chars.insert(100, Character::new(100, "Thrall ".to_string(), 1, 0));
    assert!(clients.set_active_character(5, 100));
    assert_eq!(clients.get_character_from_client(5), Ok(100));
    assert_eq!(clients.find_client_from_active_character_guid(100), Ok(5));
    assert_eq!(clients.find_client_from_active_character_guid(101), Err(ClientError::UnknownClient));
    assert_eq!(clients.find_client_from_active_character_name("  tHRALL", &chars), Ok(5));
    assert_eq!(clients.find_client_from_active_character_name("jaina", &chars), Err(ClientError::UnknownClient));
    assert!(names_match(" ab", "AB "));
    assert!(!names_match("ab", "abc"));
}

#[test]
fn disconnect_cleanup_is_two_staged() {
    let mut clients = ClientManager::new();
    let mut chars = CharacterManager::new();
    let mut world = InstanceManager::new();
    let mut c = Character::new(100, "x".to_string(), 0, 0);
    c.set_position(Position { x: 0, y: 0, z: 0, orientation: 0 });
    chars.insert(100, c);
    world.push_character(0, 0, 100);
    world.tick(&mut chars);
    clients.connected(5, 77);
    clients.set_active_character(5, 100);
    assert!(clients.disconnected(5));
    assert_eq!(clients.get_client(5).unwrap().state, ClientState::DisconnectPendingCleanup);
    clients.cleanup_disconnected_clients(&mut world, &chars);
    assert_eq!(clients.get_client(5).unwrap().state, ClientState::Disconnected);
    assert_eq!(clients.get_client(5).unwrap().active_character, None);
    world.tick(&mut chars);
    assert!(!world.is_on_map(0, 100));
    clients.cleanup_disconnected_clients(&mut world, &chars);
    assert_eq!(clients.get_client(5), Err(ClientError::UnknownClient));
    assert!(!clients.disconnected(5));
}

#[test]
fn logout_returns_to_character_selection() {
    let mut clients = ClientManager::new();
    let mut chars = CharacterManager::new();
    let mut c = Character::new(100, "x".to_string(), 0, 0);
    c.logout = LogoutState::ReturnToCharSelect;
    chars.insert(100, c);
    clients.connected(5, 77);
    clients.set_active_character(5, 100);
    clients.tick_clients(&chars);
    assert_eq!(clients.get_client(5).unwrap().active_character, None);
    assert_eq!(clients.get_client(5).unwrap().state, ClientState::CharacterSelection);
}

#[test]
fn empty_maps_shut_down_next_tick() {
    let mut chars = CharacterManager::new();
    let mut world = InstanceManager::new();
    let mut c = Character::new(1, "x".to_string(), 0, 0);
    c.set_position(Position { x: 0, y: 0, z: 0, orientation: 0 });
    chars.insert(1, c);
    world.push_character(4, 0, 1);
    world.tick(&mut chars);
    assert!(world.is_on_map(4, 1));
    world.queue_removal(4, 1);
    world.tick(&mut chars);
    assert!(!world.is_on_map(4, 1));
    world.tick(&mut chars);
    assert!(!world.queue_removal(4, 1));
    assert!(!world.is_instance(4));
}

fn addon_bytes(entries: &[(&str, u8, u32, u32)]) -> Vec<u8> {
    let mut b = (entries.len() as u32).to_le_bytes().to_vec();
    for (name, sig, crc, extra) in entries {
        b.extend_from_slice(name.as_bytes());
        b.push(0);
        b.push(*sig);
        b.extend_from_slice(&crc.to_le_bytes());
        b.extend_from_slice(&extra.to_le_bytes());
    }
    b
}

#[test]
fn addon_list_is_read() {
    let b = addon_bytes(&[("Blizzard_AuctionUI", 1, 0x4C1C776D, 0), ("MyAddon", 0, 0x1234, 5)]);
    let addons = parse_addon_info(&b).unwrap();
    assert_eq!(
        addons,
        vec![
            AddonEntry { name: b"Blizzard_AuctionUI".to_vec(), has_signature: true, crc: 0x4C1C776D, extra_crc: 0 },
            AddonEntry { name: b"MyAddon".to_vec(), has_signature: false, crc: 0x1234, extra_crc: 5 },
        ]
    );
    assert!(!addons[0].uses_different_public_key());
    assert!(addons[1].uses_different_public_key());
}

#[test]
fn addon_list_errors() {
    assert_eq!(parse_addon_info(&vec![1, 0]), Err(AddonError::Truncated));
    let mut b = addon_bytes(&[("A", 1, 1, 1)]);
    b.pop();
    assert_eq!(parse_addon_info(&b), Err(AddonError::Truncated));
    let b = addon_bytes(&[("\u{00e9}", 1, 1, 1)]);
    assert!(parse_addon_info(&b).is_ok());
    let mut bad = vec![1, 0, 0, 0, 0xff, 0];
    bad.extend_from_slice(&[1, 0, 0, 0, 0, 0, 0, 0, 0]);
    assert_eq!(parse_addon_info(&bad), Err(AddonError::NameNotUtf8));
    assert_eq!(parse_addon_info(&vec![0, 0, 0, 0]), Ok(vec![]));
}

#[test]
fn dbc_files_are_checked() {
    let all: Vec<String> = ["ChrRaces.dbc", "ChrClasses.dbc", "Map.dbc", "CharStartOutfit.dbc", "AreaTrigger.dbc", "Other.dbc"]
        .iter()
        .map(|s| s.to_string())
        .collect();
    assert!(ensure_dbc(true, &all));
    assert!(!ensure_dbc(false, &all));
    assert!(!ensure_dbc(true, &all[1..].to_vec()));
}

#[test]
fn connection_data() {
    let mut d = ConnectionData::new();
    assert!(!d.is_authenticated());
    d.account_id = Some(3);
    assert!(d.is_authenticated());
}

#[test]
fn insert_into_first_free_compatible_slot() {
    let mut inv = Inventory::new();
    assert_eq!(inv.try_insert_item(3, item(1), &vec![11, 12]), Ok(11));
    assert_eq!(inv.try_insert_item(3, item(2), &vec![11, 12]), Ok(12));
    assert_eq!(inv.try_insert_item(3, item(3), &vec![11, 12]), Err(InventoryError::NoCompatibleSlot));
    let all = inv.get_all_equipment();
    assert_eq!(all.len(), 19);
    assert_eq!(all[12].unwrap().object_guid, (3u64 << 32) | 12);
    assert!(all[0].is_none());
}

#[test]
fn client_tick_starts_queued_teleports() {
    let mut clients = ClientManager::new();
    let mut chars = CharacterManager::new();
    let mut world = InstanceManager::new();
    let mut c = Character::new(100, "x".to_string(), 0, 0);
    c.set_position(Position { x: 0, y: 0, z: 0, orientation: 0 });
    let dest = TeleportationDistance::Near(Position { x: 5, y: 5, z: 0, orientation: 0 });
    assert!(c.teleport_to(dest));
    chars.insert(100, c);
    let mut idle = Character::new(200, "y".to_string(), 0, 0);
    assert!(idle.teleport_to(dest));
    chars.insert(200, idle);
    clients.connected(5, 77);
    clients.set_active_character(5, 100);
    let msgs = clients.tick(&mut world, &mut chars);
    assert_eq!(msgs, vec![(5, TeleportMessage::MoveTeleportAck { guid: 100, position: Position { x: 5, y: 5, z: 0, orientation: 0 } })]);
    assert_eq!(chars.get(100).unwrap().teleport, TeleportationState::Executing(dest));
    assert_eq!(chars.get(200).unwrap().teleport, TeleportationState::Queued(dest));
}

#[test]
fn movement_off_map_reaches_nobody() {
    let mut clients = ClientManager::new();
    let mut chars = CharacterManager::new();
    let mut world = InstanceManager::new();
    let mut c = Character::new(100, "x".to_string(), 0, 0);
    c.set_position(Position { x: 0, y: 0, z: 0, orientation: 0 });
    chars.insert(100, c);
    clients.connected(5, 77);
    clients.set_active_character(5, 100);
    let p = Position { x: 1, y: 1, z: 0, orientation: 0 };
    assert_eq!(clients.handle_movement(&world, &mut chars, 5, p), Ok(Some(vec![])));
    world.push_character(0, 0, 100);
    assert_eq!(clients.handle_movement(&world, &mut chars, 5, p), Ok(Some(vec![])));
}

#[test]
fn character_inventory_sets_player_fields() {
    let guid: u64 = (9u64 << 40) | 10;
    let mut c = Character::new(guid, "x".to_string(), 0, 0);
    assert_eq!(c.set_item(3, Some(item(500))), Ok(None));
    assert_eq!(c.inventory.equipped.get_item(3).unwrap().object_guid, (10u64 << 32) | 3);
    assert_eq!(c.update_mask.get_field(PLAYER_FIELD_INV_SLOT_HEAD + 6), 3);
    assert_eq!(c.update_mask.get_field(PLAYER_FIELD_INV_SLOT_HEAD + 7), 10);
    assert_eq!(c.update_mask.get_field(PLAYER_VISIBLE_ITEM_ENTRY_HEAD + 6), 500);
    assert!(c.update_mask.has_any_dirty_fields());
    assert_eq!(c.set_item(30, Some(item(7))), Ok(None));
    assert_eq!(c.update_mask.get_field(PLAYER_FIELD_INV_SLOT_HEAD + 60), 30);
    assert_eq!(c.set_item(3, None).unwrap().unwrap().entry, 500);
    assert_eq!(c.update_mask.get_field(PLAYER_FIELD_INV_SLOT_HEAD + 6), 0);
    assert_eq!(c.update_mask.get_field(PLAYER_VISIBLE_ITEM_ENTRY_HEAD + 6), 0);
    assert_eq!(c.set_item(20, Some(item(1))), Err(InventoryError::NotAnInventorySlot));
}
