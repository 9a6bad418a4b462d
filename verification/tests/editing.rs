use bws::datatypes::{Slot, VarInt};
use bws::editing::{
    creative_slot, hand_slot, join_message, leave_message, lobby_chat_action, placement_target, CreativeSlot, Hand,
    Inventory, LobbyAction,
};
use bws::lobby::LobbyWorld;
use bws::placement::{get_placed_state, Block, BlockState, Direction, LinearSearch, Looking};
use bws::world::Position;

fn pos(x: i32, y: i32, z: i32) -> Position {
    Position { x, y, z }
}

fn state(id: i32, props: &[(&str, &str)]) -> BlockState {
    BlockState {
        state_id: id,
        properties: props.iter().map(|(k, v)| (k.to_string(), v.to_string())).collect(),
    }
}

fn plain_block(id: i32) -> Block {
    Block { class: String::from("Block"), default_state: id, states: vec![state(id, &[])] }
}

#[test]
fn placement_targets() {
    let p = pos(1, 2, 3);
    assert_eq!(placement_target(p, Direction::Down), Some(pos(1, 1, 3)));
    assert_eq!(placement_target(p, Direction::Up), Some(pos(1, 3, 3)));
    assert_eq!(placement_target(p, Direction::North), Some(pos(1, 2, 2)));
    assert_eq!(placement_target(p, Direction::South), Some(pos(1, 2, 4)));
    assert_eq!(placement_target(p, Direction::West), Some(pos(0, 2, 3)));
    assert_eq!(placement_target(p, Direction::East), Some(pos(2, 2, 3)));
    assert_eq!(placement_target(pos(i32::MAX, 0, 0), Direction::East), None);
}

#[test]
fn linear_search() {
    let props = vec![
        (String::from("facing"), String::from("north")),
        (String::from("half"), String::from("top")),
        (String::from("facing"), String::from("south")),
    ];
    assert_eq!(props.search("facing"), "north");
    assert_eq!(props.search("half"), "top");
    assert_eq!(props.search_by_val("top"), "half");
    assert_eq!(props.search_by_val("south"), "facing");
}

#[test]
fn placed_states() {
    let anvil = Block {
        class: String::from("AnvilBlock"),
        default_state: 1,
        states: vec![
            state(10, &[("facing", "north")]),
            state(11, &[("facing", "south")]),
            state(12, &[("facing", "west")]),
            state(13, &[("facing", "east")]),
        ],
    };
    // to the right of where the player looks
    assert_eq!(get_placed_state(&anvil, Direction::Up, false, Looking::South), 12);
    assert_eq!(get_placed_state(&anvil, Direction::Up, false, Looking::West), 10);
    assert_eq!(get_placed_state(&anvil, Direction::Up, false, Looking::North), 13);
    assert_eq!(get_placed_state(&anvil, Direction::Up, false, Looking::East), 11);
    assert_eq!(get_placed_state(&anvil, Direction::Up, false, Looking::Unknown), 10);

    let stairs = Block {
        class: String::from("StairsBlock"),
        default_state: 2,
        states: vec![
            state(20, &[("facing", "east"), ("half", "top"), ("shape", "straight"), ("waterlogged", "false")]),
            state(21, &[("facing", "east"), ("half", "bottom"), ("shape", "straight"), ("waterlogged", "true")]),
            state(22, &[("facing", "east"), ("half", "bottom"), ("shape", "straight"), ("waterlogged", "false")]),
        ],
    };
    assert_eq!(get_placed_state(&stairs, Direction::Down, false, Looking::East), 20);
    assert_eq!(get_placed_state(&stairs, Direction::Up, true, Looking::East), 22);
    assert_eq!(get_placed_state(&stairs, Direction::North, true, Looking::East), 20);
    assert_eq!(get_placed_state(&stairs, Direction::North, false, Looking::East), 22);

    let slab = Block {
        class: String::from("SlabBlock"),
        default_state: 3,
        states: vec![
            state(30, &[("type", "top"), ("waterlogged", "false")]),
            state(31, &[("type", "bottom"), ("waterlogged", "false")]),
        ],
    };
    assert_eq!(get_placed_state(&slab, Direction::Up, true, Looking::East), 31);
    assert_eq!(get_placed_state(&slab, Direction::West, true, Looking::East), 30);

    let pillar = Block {
        class: String::from("PillarBlock"),
        default_state: 4,
        states: vec![
            state(40, &[("axis", "x")]),
            state(41, &[("axis", "y")]),
            state(42, &[("axis", "z")]),
        ],
    };
    assert_eq!(get_placed_state(&pillar, Direction::Up, true, Looking::East), 41);
    assert_eq!(get_placed_state(&pillar, Direction::East, true, Looking::East), 40);
    assert_eq!(get_placed_state(&pillar, Direction::North, true, Looking::East), 42);

    // other classes: the default state
    let other = Block { class: String::from("FenceBlock"), default_state: 77, states: vec![] };
    assert_eq!(get_placed_state(&other, Direction::Up, true, Looking::East), 77);
    assert_eq!(get_placed_state(&plain_block(5), Direction::Up, true, Looking::East), 5);
}

#[test]
fn placing_blocks() {
    let mut w = LobbyWorld::new_empty();
    let block = plain_block(9);
    let mut changes = Vec::new();
    // not in edit mode
    let r = w.place_item(false, pos(0, 0, 0), Direction::Up, Some(1), Some(&block), false, Looking::South, false, &mut changes);
    assert_eq!(r, None);
    assert_eq!(w.get_block(pos(0, 1, 0)), Ok(0));
    // a player stands there
    let r = w.place_item(true, pos(0, 0, 0), Direction::Up, Some(1), Some(&block), false, Looking::South, true, &mut changes);
    assert_eq!(r, Some((pos(0, 1, 0), 0)));
    assert_eq!(changes, vec![]);
    // placed
    let r = w.place_item(true, pos(0, 0, 0), Direction::Up, Some(1), Some(&block), false, Looking::South, false, &mut changes);
    assert_eq!(r, None);
    assert_eq!(changes, vec![(pos(0, 1, 0), 9)]);
    assert_eq!(w.get_block(pos(0, 1, 0)), Ok(9));
    // the target is taken now
    let r = w.place_item(true, pos(0, 0, 0), Direction::Up, Some(1), Some(&plain_block(8)), false, Looking::South, false, &mut changes);
    assert_eq!(r, None);
    assert_eq!(w.get_block(pos(0, 1, 0)), Ok(9));
    // nothing in hand
    let r = w.place_item(true, pos(0, 0, 0), Direction::East, None, None, false, Looking::South, false, &mut changes);
    assert_eq!(r, None);
    // an item that places nothing: the client is told the real block
    let r = w.place_item(true, pos(0, 1, 0), Direction::East, Some(5), None, false, Looking::South, false, &mut changes);
    assert_eq!(r, Some((pos(1, 1, 0), 0)));
}

#[test]
fn buckets() {
    let mut w = LobbyWorld::new_empty();
    let mut changes = Vec::new();
    // water bucket
    let r = w.place_item(true, pos(4, 4, 4), Direction::Up, Some(661), None, false, Looking::South, false, &mut changes);
    assert_eq!(r, None);
    assert_eq!(w.get_block(pos(4, 5, 4)), Ok(34));
    assert_eq!(w.flowing_liquids, vec![pos(4, 5, 4)]);
    assert_eq!(changes, vec![(pos(4, 5, 4), 34)]);
    // lava bucket on a solid block: refused
    assert_eq!(w.set_block(pos(6, 5, 4), 1), Ok(true));
    let r = w.place_item(true, pos(6, 4, 4), Direction::Up, Some(662), None, false, Looking::South, false, &mut changes);
    assert_eq!(r, Some((pos(6, 5, 4), 1)));
    // empty bucket takes the source
    let r = w.place_item(true, pos(4, 4, 4), Direction::Up, Some(660), None, false, Looking::South, false, &mut changes);
    assert_eq!(r, None);
    assert_eq!(w.get_block(pos(4, 5, 4)), Ok(0));
    // empty bucket on air
    let r = w.place_item(true, pos(4, 4, 4), Direction::Up, Some(660), None, false, Looking::South, false, &mut changes);
    assert_eq!(r, Some((pos(4, 5, 4), 0)));
}

#[test]
fn digging() {
    let mut w = LobbyWorld::new_empty();
    assert_eq!(w.set_block(pos(1, 1, 1), 3), Ok(true));
    assert_eq!(w.set_block(pos(1, 2, 1), 34), Ok(true));
    let mut changes = Vec::new();
    w.dig(false, pos(1, 1, 1), &mut changes);
    assert_eq!(w.get_block(pos(1, 1, 1)), Ok(3));
    w.dig(true, pos(1, 1, 1), &mut changes);
    assert_eq!(w.get_block(pos(1, 1, 1)), Ok(0));
    assert_eq!(changes, vec![(pos(1, 1, 1), 0)]);
    // the water above is woken
    assert_eq!(w.flowing_liquids, vec![pos(1, 2, 1)]);
}

#[test]
fn clearing_sections() {
    let mut w = LobbyWorld::new_empty();
    assert_eq!(w.set_block(pos(1, 1, 1), 3), Ok(true));
    assert_eq!(w.set_block(pos(1, 17, 1), 3), Ok(true));
    w.clear_section(0, 0, 0);
    assert_eq!(w.get_block(pos(1, 1, 1)), Ok(0));
    assert_eq!(w.get_block(pos(1, 17, 1)), Ok(3));
}

#[test]
fn lobby_commands() {
    assert_eq!(lobby_chat_action("hello", false, false), LobbyAction::Broadcast);
    assert_eq!(lobby_chat_action("/setblock 12", true, false), LobbyAction::SetBlock(12));
    assert_eq!(lobby_chat_action("/setblock -3", true, false), LobbyAction::SetBlock(-3));
    assert_eq!(lobby_chat_action("/setblock 12", false, true), LobbyAction::Ignore);
    assert_eq!(lobby_chat_action("/setblock x", true, false), LobbyAction::Ignore);
    assert_eq!(lobby_chat_action("/setblock", true, false), LobbyAction::Ignore);
    assert_eq!(lobby_chat_action("/printchunk", true, false), LobbyAction::PrintChunk);
    assert_eq!(lobby_chat_action("/printchunk", false, true), LobbyAction::Ignore);
    assert_eq!(lobby_chat_action("/clearchunk now", true, false), LobbyAction::ClearChunk);
    assert_eq!(lobby_chat_action("/editmode", false, true), LobbyAction::ToggleEditMode);
    assert_eq!(lobby_chat_action("/editmode", true, false), LobbyAction::Ignore);
    assert_eq!(lobby_chat_action("/unknown", true, true), LobbyAction::Ignore);
    assert_eq!(lobby_chat_action("", true, true), LobbyAction::Broadcast);
}

#[test]
fn inventory_slots() {
    assert_eq!(hand_slot(Hand::Left, 0), 36);
    assert_eq!(hand_slot(Hand::Left, 8), 44);
    assert_eq!(hand_slot(Hand::Right, 3), 45);
    assert_eq!(creative_slot(-1), CreativeSlot::Drop);
    assert_eq!(creative_slot(0), CreativeSlot::Store(0));
    assert_eq!(creative_slot(45), CreativeSlot::Store(45));
    assert_eq!(creative_slot(46), CreativeSlot::Invalid);
    assert_eq!(creative_slot(-2), CreativeSlot::Invalid);
}

#[test]
fn join_and_leave_messages() {
    assert_eq!(join_message(0xAB12, "steve"), "§#00AB12steve §7joined.");
    assert_eq!(leave_message(0xFFFFFF, "alex"), "§#FFFFFFalex §7 left.");
    assert_eq!(join_message(0x1234567, "x"), "§#1234567x §7joined.");
}

#[test]
fn inventory() {
    let mut inv = Inventory::new();
    assert_eq!(inv.slots.len(), 46);
    assert_eq!(inv.item_in_hand(Hand::Left), Slot::NotPresent);
    let stone = Slot::Present(VarInt(1), 64);
    // only a player editing the lobby may change it
    assert_eq!(inv.creative_action(false, 36, stone), None);
    assert_eq!(inv.slots[36], Slot::NotPresent);
    assert_eq!(inv.creative_action(true, 46, stone), None);
    assert_eq!(inv.creative_action(true, -1, stone), None);
    assert_eq!(inv.creative_action(true, 38, stone), Some(38));
    assert_eq!(inv.item_in_hand(Hand::Left), Slot::NotPresent);
    inv.set_held_item(2);
    assert_eq!(inv.item_in_hand(Hand::Left), stone);
    assert_eq!(inv.creative_action(true, 45, Slot::Present(VarInt(2), 1)), Some(45));
    assert_eq!(inv.item_in_hand(Hand::Right), Slot::Present(VarInt(2), 1));
}
