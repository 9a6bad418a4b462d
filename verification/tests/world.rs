use bws::fluids::{parse_fluid_state, sorted_unique};
use bws::lobby::{get_chunk_index, LobbyWorld, WorldError};
use bws::world::{bits_per_block, check_if_section_empty, Position, WorldChunkSection};

fn pos(x: i32, y: i32, z: i32) -> Position {
    Position { x, y, z }
}

#[test]
fn chunk_indices() {
    assert_eq!(get_chunk_index(-4, -4), 0);
    assert_eq!(get_chunk_index(3, -4), 7);
    assert_eq!(get_chunk_index(-4, -3), 8);
    assert_eq!(get_chunk_index(3, 3), 63);
}

#[test]
fn bits_per_block_values() {
    assert_eq!(bits_per_block(1), 4);
    assert_eq!(bits_per_block(16), 4);
    assert_eq!(bits_per_block(17), 5);
    assert_eq!(bits_per_block(32), 5);
    assert_eq!(bits_per_block(33), 6);
    assert_eq!(bits_per_block(256), 8);
    assert_eq!(bits_per_block(257), 9);
    assert_eq!(bits_per_block(4096), 12);
}

#[test]
fn read_after_write() {
    let mut w = LobbyWorld::new_empty();
    assert_eq!(w.get_block(pos(1, 64, 1)), Ok(0));
    assert_eq!(w.set_block(pos(1, 64, 1), 5), Ok(true));
    assert_eq!(w.get_block(pos(1, 64, 1)), Ok(5));
    assert_eq!(w.get_block(pos(1, 64, 2)), Ok(0));
    // setting the same block again changes nothing
    assert_eq!(w.set_block(pos(1, 64, 1), 5), Ok(false));
    // negative coordinates round towards negative infinity
    assert_eq!(w.set_block(pos(-1, 0, -16), 7), Ok(true));
    assert_eq!(w.get_block(pos(-1, 0, -16)), Ok(7));
    assert_eq!(w.get_block(pos(15, 0, 0)), Ok(0));
    assert_eq!(w.get_block(pos(-1, 0, 0)), Ok(0));
    // and back to air
    assert_eq!(w.set_block(pos(1, 64, 1), 0), Ok(true));
    assert_eq!(w.get_block(pos(1, 64, 1)), Ok(0));
}

#[test]
fn world_errors() {
    let mut w = LobbyWorld::new_empty();
    assert_eq!(w.get_block(pos(64, 0, 0)), Err(WorldError::OutOfBounds));
    assert_eq!(w.get_block(pos(0, 256, 0)), Err(WorldError::OutOfBounds));
    assert_eq!(w.get_block(pos(0, -1, 0)), Err(WorldError::OutOfBounds));
    assert_eq!(w.get_block(pos(-65, 0, 0)), Err(WorldError::OutOfBounds));
    assert_eq!(w.get_block(pos(-64, 0, 63)), Ok(0));
    assert_eq!(w.set_block(pos(0, 300, 0), 1), Err(WorldError::OutOfBounds));
    assert_eq!(w.set_block(pos(0, 0, 0), -3), Err(WorldError::NegativeBlockId));
}

#[test]
fn palette_grows_and_shrinks() {
    let mut w = LobbyWorld::new_empty();
    // 40 different blocks in one section need a palette of 41 entries
    for i in 0..40 {
        assert_eq!(w.set_block(pos(i % 16, (i / 16) as i32, 0), 100 + i), Ok(true));
    }
    for i in 0..40 {
        assert_eq!(w.get_block(pos(i % 16, (i / 16) as i32, 0)), Ok(100 + i));
    }
    // overwrite them with one block, then with air
    for i in 0..40 {
        assert_eq!(w.set_block(pos(i % 16, (i / 16) as i32, 0), 9), Ok(true));
    }
    assert_eq!(w.get_block(pos(5, 1, 0)), Ok(9));
    for i in 0..40 {
        assert_eq!(w.set_block(pos(i % 16, (i / 16) as i32, 0), 0), Ok(true));
    }
    for i in 0..40 {
        assert_eq!(w.get_block(pos(i % 16, (i / 16) as i32, 0)), Ok(0));
    }
}

#[test]
fn fluid_states() {
    assert_eq!(parse_fluid_state(34), Some((false, 0, false)));
    assert_eq!(parse_fluid_state(37), Some((false, 3, false)));
    assert_eq!(parse_fluid_state(41), Some((false, 7, false)));
    assert_eq!(parse_fluid_state(42), Some((false, 0, true)));
    assert_eq!(parse_fluid_state(49), Some((false, 0, true)));
    assert_eq!(parse_fluid_state(50), Some((true, 0, false)));
    assert_eq!(parse_fluid_state(57), Some((true, 7, false)));
    assert_eq!(parse_fluid_state(58), Some((true, 0, true)));
    assert_eq!(parse_fluid_state(65), Some((true, 0, true)));
    assert_eq!(parse_fluid_state(33), None);
    assert_eq!(parse_fluid_state(66), None);
    assert_eq!(parse_fluid_state(0), None);
}

#[test]
fn liquid_updates_in_sorted_order_without_duplicates() {
    let v = vec![pos(1, 0, 0), pos(0, 5, 0), pos(1, 0, 0), pos(0, 5, -1)];
    assert_eq!(sorted_unique(&v), vec![pos(0, 5, -1), pos(0, 5, 0), pos(1, 0, 0)]);
    assert_eq!(sorted_unique(&Vec::new()), Vec::<Position>::new());
}

#[test]
fn water_falls() {
    let mut w = LobbyWorld::new_empty();
    let mut changes = Vec::new();
    w.pour(pos(0, 1, 0), 34, &mut changes);
    assert_eq!(changes, vec![(pos(0, 1, 0), 34)]);
    assert_eq!(w.flowing_liquids, vec![pos(0, 1, 0)]);

    // not every tick
    assert_eq!(w.tick_liquids(1), vec![]);
    assert_eq!(w.flowing_liquids, vec![pos(0, 1, 0)]);

    // the source makes the block below falling water
    assert_eq!(w.tick_liquids(0), vec![(pos(0, 0, 0), 42)]);
    assert_eq!(w.flowing_liquids, vec![pos(0, 0, 0)]);
    assert_eq!(w.get_block(pos(0, 0, 0)), Ok(42));

    // above the void it stays, fed from above
    assert_eq!(w.tick_liquids(5), vec![]);
    assert_eq!(w.flowing_liquids, vec![]);
    assert_eq!(w.get_block(pos(0, 0, 0)), Ok(42));
    assert_eq!(w.get_block(pos(0, 1, 0)), Ok(34));
}

#[test]
fn water_spreads_on_a_floor() {
    let mut w = LobbyWorld::new_empty();
    assert_eq!(w.set_block(pos(0, 0, 0), 1), Ok(true));
    let mut changes = Vec::new();
    w.pour(pos(0, 1, 0), 34, &mut changes);
    let changes = w.tick_liquids(10);
    assert_eq!(
        changes,
        vec![
            (pos(-1, 1, 0), 35),
            (pos(1, 1, 0), 35),
            (pos(0, 1, -1), 35),
            (pos(0, 1, 1), 35),
        ]
    );
    assert_eq!(
        w.flowing_liquids,
        vec![pos(-1, 1, 0), pos(1, 1, 0), pos(0, 1, -1), pos(0, 1, 1)]
    );
}

#[test]
fn unsupported_water_dries_up() {
    let mut w = LobbyWorld::new_empty();
    let mut changes = Vec::new();
    w.pour(pos(5, 0, 5), 37, &mut changes);
    // level 3, nothing feeding it: two levels weaker each update
    assert_eq!(w.tick_liquids(0), vec![(pos(5, 0, 5), 39)]);
    assert_eq!(w.flowing_liquids, vec![pos(5, 0, 5)]);
    assert_eq!(w.tick_liquids(0), vec![(pos(5, 0, 5), 41)]);
    // at level 7 it disappears
    assert_eq!(w.tick_liquids(0), vec![(pos(5, 0, 5), 0)]);
    assert_eq!(w.flowing_liquids, vec![]);
    assert_eq!(w.get_block(pos(5, 0, 5)), Ok(0));
}

#[test]
fn removed_water_is_no_longer_updated() {
    let mut w = LobbyWorld::new_empty();
    let mut changes = Vec::new();
    w.pour(pos(2, 3, 2), 34, &mut changes);
    assert_eq!(w.set_block(pos(2, 3, 2), 1), Ok(true));
    assert_eq!(w.tick_liquids(0), vec![]);
    assert_eq!(w.flowing_liquids, vec![]);
}

#[test]
fn changed_blocks_wake_liquids_around() {
    let mut w = LobbyWorld::new_empty();
    assert_eq!(w.set_block(pos(3, 3, 3), 50), Ok(true));
    assert_eq!(w.set_block(pos(3, 4, 3), 36), Ok(true));
    w.update_nearby_liquids(pos(3, 3, 4));
    // of the six neighbours only the one to the north holds a liquid
    assert_eq!(w.flowing_liquids, vec![pos(3, 3, 3)]);
    w.update_nearby_liquids(pos(3, 3, 3));
    assert_eq!(w.flowing_liquids, vec![pos(3, 3, 3), pos(3, 4, 3)]);
    // neighbours outside the map are skipped
    w.update_nearby_liquids(pos(i32::MAX, 0, 0));
    assert_eq!(w.flowing_liquids.len(), 2);
}

#[test]
fn empty_sections_are_removed() {
    let air = WorldChunkSection { block_mappings: vec![0], blocks: vec![0u64; 256] };
    let mut section = Some(air.clone());
    check_if_section_empty(&mut section);
    assert!(section.is_none());
    let mut stone = Some(WorldChunkSection { block_mappings: vec![1], blocks: vec![0u64; 256] });
    check_if_section_empty(&mut stone);
    assert!(stone.is_some());
    let mut none: Option<WorldChunkSection> = None;
    check_if_section_empty(&mut none);
    assert!(none.is_none());
}

#[test]
fn palette_entries_follow_the_blocks() {
    let mut w = LobbyWorld::new_empty();
    let c = get_chunk_index(0, 0);
    let palette = |w: &LobbyWorld| w.chunks[c].sections[0].as_ref().map(|s| s.block_mappings.clone());
    assert_eq!(palette(&w), None);
    assert_eq!(w.set_block(pos(0, 0, 0), 5), Ok(true));
    assert_eq!(palette(&w), Some(vec![0, 5]));
    // a new state is appended
    assert_eq!(w.set_block(pos(1, 0, 0), 7), Ok(true));
    assert_eq!(palette(&w), Some(vec![0, 5, 7]));
    // a new state takes the place of an entry no other block uses
    assert_eq!(w.set_block(pos(0, 0, 0), 9), Ok(true));
    assert_eq!(palette(&w), Some(vec![0, 9, 7]));
    // an entry no block uses any more is removed
    assert_eq!(w.set_block(pos(1, 0, 0), 9), Ok(true));
    assert_eq!(palette(&w), Some(vec![0, 9]));
    assert_eq!(w.set_block(pos(0, 0, 0), 0), Ok(true));
    assert_eq!(palette(&w), Some(vec![0, 9]));
    // and a section left all air is dropped
    assert_eq!(w.set_block(pos(1, 0, 0), 0), Ok(true));
    assert_eq!(palette(&w), None);
    // the other sections were never touched
    assert!(w.chunks[c].sections[1].is_none());
}
