use bws::chunks::{block_change_recipients, chunks_to_send, SectionPalette};
use bws::connection::{read_packet_length, LengthError};
use bws::editing::chat_line;
use bws::lobby::LobbyWorld;
use bws::map_file::{check_header, header, MapError};
use bws::plugin::name_collisions;
use bws::world::Position;

#[test]
fn chunk_data() {
    let mut w = LobbyWorld::new_empty();
    let empty = w.chunk_data(0, 0);
    assert_eq!(empty.primary_bitmask, 0);
    assert!(empty.sections.is_empty());
    assert_eq!(empty.biomes, vec![174; 1024]);
    let outside = w.chunk_data(4, 0);
    assert_eq!(outside.primary_bitmask, 0);
    assert_eq!(outside.biomes, vec![174; 1024]);

    assert_eq!(w.set_block(Position { x: 0, y: 17, z: 0 }, 5), Ok(true));
    assert_eq!(w.set_block(Position { x: 0, y: 200, z: 0 }, 6), Ok(true));
    let d = w.chunk_data(0, 0);
    assert_eq!(d.primary_bitmask, (1 << 1) | (1 << 12));
    assert_eq!(d.sections.len(), 2);
    assert_eq!(d.sections[0].block_count, 4096);
    match &d.sections[0].palette {
        SectionPalette::Indirect(p) => assert_eq!(p, &vec![0, 5]),
        SectionPalette::Direct => panic!("expected the section's own palette"),
    }
}

#[test]
fn large_palettes_are_sent_direct() {
    let mut w = LobbyWorld::new_empty();
    // 300 different blocks need 9 bits per block
    for i in 0..300 {
        assert_eq!(w.set_block(Position { x: i % 16, y: i / 256, z: (i / 16) % 16 }, 1 + i), Ok(true));
    }
    let d = w.chunk_data(0, 0);
    assert_eq!(d.sections.len(), 1);
    assert!(matches!(d.sections[0].palette, SectionPalette::Direct));
    let data = &d.sections[0].data;
    assert_eq!(data.len(), 1024);
    // blocks 0..3 are 1, 2, 3, 4, 15 bits each
    assert_eq!(data[0], 1 | (2 << 15) | (3 << 30) | (4 << 45));
    // blocks 300.. are air
    assert_eq!(data[80], 0);
}

#[test]
fn chunks_around_a_player() {
    let mut loaded = Vec::new();
    // view distance 0: chunks within 2
    let sent = chunks_to_send((0, 0), 0, &mut loaded);
    let mut expected = Vec::new();
    for z in -2..2i8 {
        for x in -2..2i8 {
            expected.push((x, z));
        }
    }
    assert_eq!(sent, expected);
    assert_eq!(loaded, Vec::<(i8, i8)>::new().into_iter().chain(expected.clone()).collect::<Vec<_>>());
    // nothing new when standing still
    let again = chunks_to_send((0, 0), 0, &mut loaded);
    assert!(again.is_empty());
    // only the map and one chunk around it are sent
    let mut loaded = Vec::new();
    let sent = chunks_to_send((4, 4), 8, &mut loaded);
    assert!(sent.iter().all(|(x, z)| (-5..5).contains(x) && (-5..5).contains(z)));
    assert_eq!(sent.len(), 100);
    // loaded chunks out of the view distance are dropped
    let mut loaded = vec![(-4, -4), (0, 0)];
    let sent = chunks_to_send((0, 0), 1, &mut loaded);
    assert!(!loaded.contains(&(-4, -4)));
    assert!(loaded.contains(&(0, 0)));
    assert!(!sent.contains(&(0, 0)));
}

#[test]
fn map_headers() {
    let h = header(64);
    assert_eq!(h, vec![0, 0, 0, 1, 0, 0, 0, 64]);
    let mut file = h.clone();
    file.extend_from_slice(&[1, 2, 3]);
    assert_eq!(check_header(&file, 64), Ok(()));
    assert_eq!(check_header(&file, 256), Err(MapError::WrongSize(64)));
    assert_eq!(check_header(&[0, 0, 0, 2, 0, 0, 0, 64], 64), Err(MapError::IncompatibleVersion));
    assert_eq!(check_header(&[0, 0, 0], 64), Err(MapError::Truncated));
    assert_eq!(check_header(&[0, 0, 0, 1, 0], 64), Err(MapError::Truncated));
}

#[test]
fn packet_lengths() {
    assert_eq!(read_packet_length(&[0x05, 0x00]), Ok((5, 1)));
    assert_eq!(read_packet_length(&[0xac, 0x02]), Ok((300, 2)));
    assert_eq!(read_packet_length(&[0xff, 0xff, 0xff, 0xff, 0x0f]), Ok((-1, 5)));
    assert_eq!(read_packet_length(&[0xff, 0xff, 0xff, 0xff, 0xff, 0x01]), Err(LengthError::TooBig));
    assert_eq!(read_packet_length(&[0x80]), Err(LengthError::Eof));
    assert_eq!(read_packet_length(&[]), Err(LengthError::Eof));
}

#[test]
fn plugin_name_collisions() {
    let names = vec![String::from("a"), String::from("b"), String::from("a"), String::from("a")];
    assert_eq!(name_collisions(&names), vec!["a", "a"]);
    assert!(name_collisions(&vec![String::from("x"), String::from("y")]).is_empty());
}

#[test]
fn lobby_chat_lines() {
    assert_eq!(chat_line(false, false, 0xABC, "steve", "hi"), "§#000ABC§lsteve§r§7: §#eeeeeehi");
    assert_eq!(chat_line(true, true, 0x123456, "o", "x"), "§f§l[Owner] §r§#123456§lo§r§7: §#eeeeeex");
    assert_eq!(chat_line(false, true, 0x1234567, "a", ""), "§c§l[§4Admin§c] §r§#1234567§la§r§7: §#eeeeee");
    assert_eq!(chat_line(false, false, 0, "", ""), "§#000000§l§r§7: §#eeeeee");
}

#[test]
fn block_changes_go_to_players_with_the_chunk() {
    let loaded = vec![vec![(0i8, 0i8), (1, 0)], vec![(-1, 0)], vec![(0, -1), (0, 0)]];
    // -1 / 16 is 0: toward zero
    assert_eq!(block_change_recipients(&loaded, Position { x: -1, y: 5, z: 3 }), vec![0, 2]);
    assert_eq!(block_change_recipients(&loaded, Position { x: -17, y: 5, z: 3 }), vec![1]);
    assert_eq!(block_change_recipients(&loaded, Position { x: 20, y: 0, z: 0 }), vec![0]);
    assert_eq!(block_change_recipients(&loaded, Position { x: 0, y: 0, z: -16 }), vec![2]);
    assert_eq!(block_change_recipients(&loaded, Position { x: 100, y: 0, z: 100 }), Vec::<usize>::new());
}
