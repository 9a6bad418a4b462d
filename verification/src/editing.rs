//! Editing the lobby: what players in edit mode place and break, buckets of
//! water and lava, and the lobby's chat commands.
use crate::datatypes::Slot;
use crate::world::{Position, opt_section_wf};
use crate::lobby::{LobbyWorld, in_map, section_of, spec_chunk_index, get_chunk_index, LOBBY_MAP_SIZE};
use crate::fluids::{
    LiquidState, set_block_in, push_liquid, wake_neighbors, block_in, fluid_state, shifted,
    set_and_wake, parse_fluid_state, shift,
};
use crate::placement::{Block, Direction, Looking, placed_state, get_placed_state};
use crate::text::{starts_with, parse_i32, parse_i32_spec, chars_of, string_from_chars};
use vstd::prelude::*;

verus! {

/// The block next to `location` across the clicked face.
pub open spec fn face_target(location: Position, face: Direction) -> Option<Position> {
    match face {
        Direction::Down => shifted(location, 0, -1, 0),
        Direction::Up => shifted(location, 0, 1, 0),
        Direction::North => shifted(location, 0, 0, -1),
        Direction::South => shifted(location, 0, 0, 1),
        Direction::West => shifted(location, -1, 0, 0),
        Direction::East => shifted(location, 1, 0, 0),
    }
}

/// The block a placed item goes to: next to the clicked one, across the
/// clicked face. `None` where a coordinate would leave `i32`.
pub fn placement_target(location: Position, face: Direction) -> (res: Option<Position>)
    ensures
        res == face_target(location, face),
{
    match face {
        Direction::Down => shift(location, 0, -1, 0),
        Direction::Up => shift(location, 0, 1, 0),
        Direction::North => shift(location, 0, 0, -1),
        Direction::South => shift(location, 0, 0, 1),
        Direction::West => shift(location, -1, 0, 0),
        Direction::East => shift(location, 1, 0, 0),
    }
}

/// Water bucket, lava bucket and empty bucket.
pub const WATER_BUCKET: i32 = 661;

pub const LAVA_BUCKET: i32 = 662;

pub const EMPTY_BUCKET: i32 = 660;

/// Whether a block can be placed into: air or a liquid.
pub open spec fn replaceable(id: i32) -> bool {
    id == 0 || fluid_state(id) is Some
}

/// Whether placing reaches the lookup of the placed state: the placing player
/// edits the lobby, holds an item that places a block, and the target lies in
/// the map and holds air or a liquid.
pub open spec fn reaches_placed_state(
    m: Map<Position, i32>,
    editing: bool,
    location: Position,
    face: Direction,
    item: Option<i32>,
    block: Option<&Block>,
) -> bool {
    &&& editing
    &&& item is Some
    &&& block is Some
    &&& block_in(m, face_target(location, face)) matches Some(old) && replaceable(old)
}

/// What using an item on a block does: the new state of the world, and the
/// block that the placing player is sent back to undo what the client
/// displayed on its own.
pub open spec fn place_item_spec(
    s: LiquidState,
    editing: bool,
    location: Position,
    face: Direction,
    item: Option<i32>,
    block: Option<&Block>,
    upper_half: bool,
    looking: Looking,
    obstructed: bool,
) -> (LiquidState, Option<(Position, i32)>) {
    let t = face_target(location, face);
    if !editing {
        (s, None)
    } else {
        match item {
            None => (s, None),
            Some(item_id) => match block {
                Some(b) => match block_in(s.0, t) {
                    None => (s, None),
                    Some(old) => if !replaceable(old) {
                        (s, None)
                    } else {
                        let state = placed_state(*b, face, upper_half, looking).unwrap();
                        if fluid_state(state) is None && obstructed {
                            // a player is standing in the way
                            (s, Some((t.unwrap(), old)))
                        } else {
                            (set_and_wake(s, t.unwrap(), state), None)
                        }
                    },
                },
                None => match block_in(s.0, t) {
                    None => (s, None),
                    Some(old) => if item_id == WATER_BUCKET || item_id == LAVA_BUCKET {
                        if replaceable(old) {
                            let target = t.unwrap();
                            let s1 = push_liquid(
                                set_block_in(
                                    s,
                                    target,
                                    if item_id == WATER_BUCKET {
                                        34i32
                                    } else {
                                        50i32
                                    },
                                ),
                                target,
                            );
                            ((s1.0, wake_neighbors(s1.0, s1.1, target), s1.2), None)
                        } else {
                            (s, Some((t.unwrap(), old)))
                        }
                    } else if item_id == EMPTY_BUCKET {
                        if fluid_state(old) matches Some((_, 0, false)) {
                            (set_and_wake(s, t.unwrap(), 0), None)
                        } else {
                            (s, Some((t.unwrap(), old)))
                        }
                    } else {
                        (s, Some((t.unwrap(), old)))
                    },
                },
            },
        }
    }
}

/// A bucket of water or lava emptied by a player in edit mode onto air or a
/// liquid puts a source of its liquid there (fluid state: not falling, level
/// 0; lava for the lava bucket, water for the water bucket), marks it for an
/// update, and sends nothing back to the player.
pub proof fn lemma_bucket_places_source(
    s: LiquidState,
    location: Position,
    face: Direction,
    target: Position,
    item_id: i32,
    upper_half: bool,
    looking: Looking,
    obstructed: bool,
)
    requires
        item_id == WATER_BUCKET || item_id == LAVA_BUCKET,
        face_target(location, face) == Some(target),
        in_map(target),
        replaceable(s.0[target]),
    ensures
        ({
            let r = place_item_spec(
                s,
                true,
                location,
                face,
                Some(item_id),
                None,
                upper_half,
                looking,
                obstructed,
            );
            &&& fluid_state(r.0.0[target]) == Some((item_id == LAVA_BUCKET, 0i32, false))
            &&& r.0.1.contains(target)
            &&& r.1 is None
        }),
{
    let id: i32 = if item_id == WATER_BUCKET { 34 } else { 50 };
    let s1 = push_liquid(set_block_in(s, target, id), target);
    assert(s1.0[target] == id);
    assert(s1.1[s1.1.len() - 1] == target);
    let w = wake_neighbors(s1.0, s1.1, target);
    crate::fluids::lemma_wake_neighbors_keeps(s1.0, s1.1, target, s1.1.len() - 1);
    assert(w[s1.1.len() - 1] == target);
}

/// An empty bucket used on a source of water or lava takes it away, leaving
/// air, and sends nothing back to the player.
pub proof fn lemma_empty_bucket_takes_source(
    s: LiquidState,
    location: Position,
    face: Direction,
    target: Position,
    upper_half: bool,
    looking: Looking,
    obstructed: bool,
)
    requires
        face_target(location, face) == Some(target),
        in_map(target),
        fluid_state(s.0[target]) matches Some((_, level, falling)) && level == 0 && !falling,
    ensures
        ({
            let r = place_item_spec(
                s,
                true,
                location,
                face,
                Some(EMPTY_BUCKET),
                None,
                upper_half,
                looking,
                obstructed,
            );
            &&& r.0.0[target] == 0
            &&& r.1 is None
        }),
{
}

impl LobbyWorld {
    /// A player in edit mode breaks a block: it becomes air and the liquids
    /// around it are woken. Others cannot break blocks.
    pub fn dig(&mut self, editing: bool, location: Position, changes: &mut Vec<(Position, i32)>)
        requires
            old(self).wf(),
        ensures
            final(self).wf(),
            final(self).state(final(changes)@) == if editing {
                set_and_wake(old(self).state(old(changes)@), location, 0)
            } else {
                old(self).state(old(changes)@)
            },
    {
        if !editing {
            return;
        }
        self.set_block_and_wake(location, 0, changes);
    }

    /// A player uses the item in hand on the face of a block. `item` is the
    /// item's id, `block` the block it places if any, `upper_half` whether the
    /// cursor was above the middle of the face, `obstructed` whether a player
    /// stands in the block that would be placed. Returns the block to send
    /// back to the placing player, if any.
    pub fn place_item(
        &mut self,
        editing: bool,
        location: Position,
        face: Direction,
        item: Option<i32>,
        block: Option<&Block>,
        upper_half: bool,
        looking: Looking,
        obstructed: bool,
        changes: &mut Vec<(Position, i32)>,
    ) -> (res: Option<(Position, i32)>)
        requires
            old(self).wf(),
            reaches_placed_state(old(self).blocks(), editing, location, face, item, block)
                ==> placed_state(*block.unwrap(), face, upper_half, looking) is Some,
        ensures
            final(self).wf(),
            ({
                let r = place_item_spec(
                    old(self).state(old(changes)@),
                    editing,
                    location,
                    face,
                    item,
                    block,
                    upper_half,
                    looking,
                    obstructed,
                );
                final(self).state(final(changes)@) == r.0 && res == r.1
            }),
    {
        if !editing {
            return None;
        }
        let item_id = match item {
            Some(id) => id,
            None => {
                return None;
            },
        };
        let target = placement_target(location, face);
        let old_block = match self.read_block(target) {
            Some(b) => b,
            None => {
                return None;
            },
        };
        let target = target.unwrap();
        match block {
            Some(b) => {
                // target must be air or a liquid
                if old_block != 0 && parse_fluid_state(old_block).is_none() {
                    return None;
                }
                let state = get_placed_state(b, face, upper_half, looking);
                if parse_fluid_state(state).is_none() && obstructed {
                    // send the server-side block to the client in case they placed something locally
                    return Some((target, old_block));
                }
                self.set_block_and_wake(target, state, changes);
                None
            },
            None => {
                // might be a special case like buckets with fluids
                if item_id == WATER_BUCKET || item_id == LAVA_BUCKET {
                    if old_block == 0 || parse_fluid_state(old_block).is_some() {
                        // just place the water/lava, and add it to the flowing fluid list so it spreads
                        self.pour(
                            target,
                            if item_id == WATER_BUCKET {
                                34
                            } else {
                                50
                            },
                            changes,
                        );
                        None
                    } else {
                        // undo client local changes
                        Some((target, old_block))
                    }
                } else if item_id == EMPTY_BUCKET {
                    match parse_fluid_state(old_block) {
                        Some((_, 0, false)) => {
                            // remove the source
                            self.set_block_and_wake(target, 0, changes);
                            None
                        },
                        _ => Some((target, old_block)),
                    }
                } else {
                    // just remove whatever the client might have placed locally
                    Some((target, old_block))
                }
            },
        }
    }

    fn read_block(&self, p: Option<Position>) -> (res: Option<i32>)
        requires
            self.wf(),
        ensures
            res == block_in(self.blocks(), p),
    {
        match p {
            Some(q) => match self.get_block(q) {
                Ok(id) => Some(id),
                Err(_) => None,
            },
            None => None,
        }
    }

    /// Removes a chunk section: all its blocks become air.
    pub fn clear_section(&mut self, chunk_x: i8, section_y: i8, chunk_z: i8)
        requires
            old(self).wf(),
            -LOBBY_MAP_SIZE <= chunk_x < LOBBY_MAP_SIZE,
            -LOBBY_MAP_SIZE <= chunk_z < LOBBY_MAP_SIZE,
            0 <= section_y < 16,
        ensures
            final(self).wf(),
            final(self).flowing_liquids == old(self).flowing_liquids,
            forall|q: Position|
                in_map(q) ==> #[trigger] final(self).block_at(q) == if section_of(q).0
                    == spec_chunk_index(chunk_x as int, chunk_z as int) && section_of(q).1
                    == section_y {
                    0
                } else {
                    old(self).block_at(q)
                },
    {
        let c = get_chunk_index(chunk_x, chunk_z);
        assert(self.chunks@[c as int].sections@.len() == 16);
        let chunk = &mut self.chunks[c];
        chunk.sections.set(section_y as usize, None);
        proof {
            let old_chunks = old(self).chunks@;
            assert(self.chunks@ == old_chunks.update(c as int, self.chunks@[c as int]));
            assert forall|cc: int| 0 <= cc < 64 implies {
                &&& #[trigger] self.chunks@[cc].sections@.len() == 16
                &&& forall|ss: int|
                    0 <= ss < 16 ==> opt_section_wf(#[trigger] self.chunks@[cc].sections@[ss])
            } by {
                assert(old_chunks[cc].sections@.len() == 16);
            }
        }
    }
}

/// What a chat message in the lobby asks for.
#[derive(Clone, Copy, Debug, PartialEq, Eq, Structural)]
pub enum LobbyAction {
    /// nothing: an unknown command, or one the sender may not use
    Ignore,
    /// show the chunk section the sender stands in to everyone
    PrintChunk,
    /// remove the chunk section the sender stands in
    ClearChunk,
    /// set the block where the sender stands
    SetBlock(i32),
    /// switch the sender in or out of edit mode
    ToggleEditMode,
    /// an ordinary message, sent to everyone
    Broadcast,
}

pub open spec fn has_prefix(s: Seq<char>, prefix: Seq<char>) -> bool {
    prefix.len() <= s.len() && s.subrange(0, prefix.len() as int) == prefix
}

/// The lobby's commands: `/printchunk`, `/clearchunk` and `/setblock <id>` for
/// players in edit mode, `/editmode` for players allowed to edit; anything
/// else that starts with `/` does nothing, and the rest is chat.
pub open spec fn lobby_action(message: Seq<char>, editing: bool, may_edit: bool) -> LobbyAction {
    if !has_prefix(message, "/"@) {
        LobbyAction::Broadcast
    } else if has_prefix(message, "/printchunk"@) {
        if editing {
            LobbyAction::PrintChunk
        } else {
            LobbyAction::Ignore
        }
    } else if has_prefix(message, "/clearchunk"@) {
        if editing {
            LobbyAction::ClearChunk
        } else {
            LobbyAction::Ignore
        }
    } else if has_prefix(message, "/setblock "@) {
        if editing {
            match parse_i32_spec(message.skip(10)) {
                Some(id) => LobbyAction::SetBlock(id),
                None => LobbyAction::Ignore,
            }
        } else {
            LobbyAction::Ignore
        }
    } else if has_prefix(message, "/editmode"@) {
        if may_edit {
            LobbyAction::ToggleEditMode
        } else {
            LobbyAction::Ignore
        }
    } else {
        LobbyAction::Ignore
    }
}

/// Decides what a chat message in the lobby does.
pub fn lobby_chat_action(message: &str, editing: bool, may_edit: bool) -> (res: LobbyAction)
    ensures
        res == lobby_action(message@, editing, may_edit),
{
    if !starts_with(message, "/") {
        return LobbyAction::Broadcast;
    }
    if starts_with(message, "/printchunk") {
        if editing {
            LobbyAction::PrintChunk
        } else {
            LobbyAction::Ignore
        }
    } else if starts_with(message, "/clearchunk") {
        if editing {
            LobbyAction::ClearChunk
        } else {
            LobbyAction::Ignore
        }
    } else if starts_with(message, "/setblock ") {
        if !editing {
            return LobbyAction::Ignore;
        }
        proof {
            reveal_strlit("/setblock ");
        }
        let rest = message.substring_char(10, message.unicode_len());
        assert(rest@ =~= message@.skip(10));
        match parse_i32(rest) {
            Some(id) => LobbyAction::SetBlock(id),
            None => LobbyAction::Ignore,
        }
    } else if starts_with(message, "/editmode") {
        if may_edit {
            LobbyAction::ToggleEditMode
        } else {
            LobbyAction::Ignore
        }
    } else {
        LobbyAction::Ignore
    }
}

/// An uppercase hexadecimal digit.
pub open spec fn upper_hex_digit(d: nat) -> char {
    if d < 10 {
        ((d + 48) as u8) as char
    } else {
        ((d + 55) as u8) as char
    }
}

/// The uppercase hexadecimal digits of `n`, without leading zeros.
pub open spec fn upper_hex(n: nat) -> Seq<char>
    decreases n,
{
    if n < 16 {
        seq![upper_hex_digit(n)]
    } else {
        upper_hex(n / 16).push(upper_hex_digit(n % 16))
    }
}

/// `{:06X}`: uppercase hexadecimal, padded with zeros to six digits.
pub open spec fn hex6(n: nat) -> Seq<char> {
    let h = upper_hex(n);
    if h.len() < 6 {
        Seq::new((6 - h.len()) as nat, |i: int| '0') + h
    } else {
        h
    }
}

fn upper_hex_chars(n: u32) -> (res: Vec<char>)
    ensures
        res@ == upper_hex(n as nat),
    decreases n,
{
    let d = (n % 16) as u8;
    let c = if d < 10 {
        (d + 48) as char
    } else {
        (d + 55) as char
    };
    if n < 16 {
        let mut v: Vec<char> = Vec::new();
        v.push(c);
        assert(v@ =~= upper_hex(n as nat));
        v
    } else {
        let mut v = upper_hex_chars(n / 16);
        v.push(c);
        v
    }
}

fn push_all_chars(out: &mut Vec<char>, src: &Vec<char>)
    ensures
        final(out)@ == old(out)@ + src@,
{
    let mut i: usize = 0;
    while i < src.len()
        invariant
            i <= src@.len(),
            out@ == old(out)@ + src@.take(i as int),
        decreases src@.len() - i,
    {
        out.push(src[i]);
        i = i + 1;
        assert(out@ =~= old(out)@ + src@.take(i as int));
    }
    assert(src@.take(src@.len() as int) =~= src@);
}

/// The rank that the lobby's chat shows before a name.
pub open spec fn rank_prefix(owner: bool, admin: bool) -> Seq<char> {
    if owner {
        "§f§l[Owner] §r"@
    } else if admin {
        "§c§l[§4Admin§c] §r"@
    } else {
        Seq::empty()
    }
}

/// How the lobby shows a chat message: the sender's rank, name in its
/// colour, and the message.
pub open spec fn chat_line_text(
    owner: bool,
    admin: bool,
    color: u32,
    username: Seq<char>,
    message: Seq<char>,
) -> Seq<char> {
    rank_prefix(owner, admin) + "§#"@ + hex6(color as nat) + "§l"@ + username + "§r§7: §#eeeeee"@
        + message
}

/// Appends a color as six upper-case hexadecimal digits, as `{:06X}` writes it.
fn push_hex6(out: &mut Vec<char>, color: u32)
    ensures
        final(out)@ == old(out)@ + hex6(color as nat),
{
    let digits = upper_hex_chars(color);
    let mut pad: usize = digits.len();
    let ghost before_pad = out@;
    while pad < 6
        invariant
            digits@.len() <= pad <= 6 || digits@.len() > 6 && pad == digits@.len(),
            out@ == before_pad + Seq::new((pad - digits@.len()) as nat, |i: int| '0'),
        decreases 6 - pad,
    {
        out.push('0');
        pad = pad + 1;
        assert(out@ =~= before_pad + Seq::new((pad - digits@.len()) as nat, |i: int| '0'));
    }
    push_all_chars(out, &digits);
    proof {
        let h = upper_hex(color as nat);
        if h.len() < 6 {
            assert(out@ =~= before_pad + hex6(color as nat));
        } else {
            assert(Seq::new(0nat, |i: int| '0') + h =~= h);
            assert(out@ =~= before_pad + hex6(color as nat));
        }
    }
}

/// What the lobby tells everyone when a player joins, in the player's color.
pub open spec fn join_text(color: u32, username: Seq<char>) -> Seq<char> {
    "§#"@ + hex6(color as nat) + username + " §7joined."@
}

/// What the lobby tells everyone when a player leaves, in the player's color.
pub open spec fn leave_text(color: u32, username: Seq<char>) -> Seq<char> {
    "§#"@ + hex6(color as nat) + username + " §7 left."@
}

/// The message that a player joined (before the § codes are parsed).
pub fn join_message(color: u32, username: &str) -> (res: String)
    ensures
        res@ == join_text(color, username@),
{
    let mut out: Vec<char> = Vec::new();
    push_all_chars(&mut out, &chars_of("§#"));
    push_hex6(&mut out, color);
    push_all_chars(&mut out, &chars_of(username));
    push_all_chars(&mut out, &chars_of(" §7joined."));
    assert(out@ =~= join_text(color, username@));
    string_from_chars(&out)
}

/// The message that a player left (before the § codes are parsed).
pub fn leave_message(color: u32, username: &str) -> (res: String)
    ensures
        res@ == leave_text(color, username@),
{
    let mut out: Vec<char> = Vec::new();
    push_all_chars(&mut out, &chars_of("§#"));
    push_hex6(&mut out, color);
    push_all_chars(&mut out, &chars_of(username));
    push_all_chars(&mut out, &chars_of(" §7 left."));
    assert(out@ =~= leave_text(color, username@));
    string_from_chars(&out)
}

/// Writes a chat message as the lobby shows it (before the § codes are parsed).
pub fn chat_line(owner: bool, admin: bool, color: u32, username: &str, message: &str) -> (res:
    String)
    ensures
        res@ == chat_line_text(owner, admin, color, username@, message@),
{
    let mut out: Vec<char> = Vec::new();
    let prefix = if owner {
        "§f§l[Owner] §r"
    } else if admin {
        "§c§l[§4Admin§c] §r"
    } else {
        ""
    };
    proof {
        reveal_strlit("");
    }
    push_all_chars(&mut out, &chars_of(prefix));
    push_all_chars(&mut out, &chars_of("§#"));
    push_hex6(&mut out, color);
    push_all_chars(&mut out, &chars_of("§l"));
    push_all_chars(&mut out, &chars_of(username));
    push_all_chars(&mut out, &chars_of("§r§7: §#eeeeee"));
    push_all_chars(&mut out, &chars_of(message));
    assert(out@ =~= chat_line_text(owner, admin, color, username@, message@));
    string_from_chars(&out)
}

/// The hand that holds an item.
#[derive(Clone, Copy, Debug, PartialEq, Eq, Structural)]
pub enum Hand {
    /// the main hand, holding the selected hotbar slot
    Left,
    /// the off hand
    Right,
}

/// The inventory slot of the item in a hand: hotbar slots are 36 to 44, the
/// off hand is 45. The selected hotbar slot must be one of the nine.
pub fn hand_slot(hand: Hand, held_item: i16) -> (res: usize)
    requires
        hand == Hand::Left ==> 0 <= held_item <= 9,
    ensures
        hand == Hand::Left ==> res == 36 + held_item,
        hand == Hand::Right ==> res == 45,
{
    match hand {
        Hand::Left => 36 + held_item as usize,
        Hand::Right => 45,
    }
}

/// What a creative inventory action does with its slot.
#[derive(Clone, Copy, Debug, PartialEq, Eq, Structural)]
pub enum CreativeSlot {
    /// not a slot: the action is refused
    Invalid,
    /// -1: the item is dropped, which the lobby has no need for
    Drop,
    /// the inventory slot to set
    Store(usize),
}

/// Sorts the slot of a creative inventory action: -1 drops, 0 to 45 are
/// inventory slots, anything else is refused.
pub fn creative_slot(slot: i16) -> (res: CreativeSlot)
    ensures
        (slot < -1 || slot > 45) ==> res == CreativeSlot::Invalid,
        slot == -1 ==> res == CreativeSlot::Drop,
        0 <= slot <= 45 ==> res == CreativeSlot::Store(slot as usize),
{
    if !(-1 <= slot && slot <= 45) {
        CreativeSlot::Invalid
    } else if slot < 0 {
        CreativeSlot::Drop
    } else {
        CreativeSlot::Store(slot as usize)
    }
}

/// A player's inventory in the lobby: 46 slots, and the selected hotbar slot.
pub struct Inventory {
    pub slots: Vec<Slot>,
    pub held_item: i16,
}

impl Inventory {
    pub open spec fn wf(&self) -> bool {
        self.slots@.len() == 46
    }

    /// An empty inventory, with the first hotbar slot selected.
    pub fn new() -> (res: Self)
        ensures
            res.wf(),
            forall|i: int| 0 <= i < 46 ==> res.slots@[i] == Slot::NotPresent,
            res.held_item == 0,
    {
        let mut slots: Vec<Slot> = Vec::new();
        let mut i: usize = 0;
        while i < 46
            invariant
                i <= 46,
                slots@.len() == i,
                forall|j: int| 0 <= j < i ==> slots@[j] == Slot::NotPresent,
            decreases 46 - i,
        {
            slots.push(Slot::NotPresent);
            i = i + 1;
        }
        Inventory { slots, held_item: 0 }
    }

    /// A creative inventory action of a player, who may change the inventory
    /// only while editing the lobby: an item put into a slot is stored there,
    /// and the slot is returned so that the client is sent it back.
    pub fn creative_action(&mut self, editing: bool, slot: i16, item: Slot) -> (res: Option<usize>)
        requires
            old(self).wf(),
        ensures
            final(self).wf(),
            final(self).held_item == old(self).held_item,
            editing && 0 <= slot <= 45 ==> res == Some(slot as usize) && final(self).slots@
                == old(self).slots@.update(slot as int, item),
            !(editing && 0 <= slot <= 45) ==> res is None && final(self).slots@ == old(
                self,
            ).slots@,
    {
        if !editing {
            return None;
        }
        match creative_slot(slot) {
            CreativeSlot::Store(i) => {
                self.slots.set(i, item);
                Some(i)
            },
            // an invalid slot is refused; a dropped item the lobby has no need for
            _ => None,
        }
    }

    /// The player selects another hotbar slot.
    pub fn set_held_item(&mut self, slot: i16)
        ensures
            final(self).held_item == slot,
            final(self).slots == old(self).slots,
    {
        self.held_item = slot;
    }

    /// The item in a hand.
    pub fn item_in_hand(&self, hand: Hand) -> (res: Slot)
        requires
            self.wf(),
            hand == Hand::Left ==> 0 <= self.held_item <= 9,
        ensures
            hand == Hand::Left ==> res == self.slots@[36 + self.held_item],
            hand == Hand::Right ==> res == self.slots@[45],
    {
        self.slots[hand_slot(hand, self.held_item)]
    }
}

} // verus!
