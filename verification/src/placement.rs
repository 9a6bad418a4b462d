//! Which block state a placed item becomes, from the block's class, the face
//! it was placed against and the direction the player looks in.
use crate::text::str_eq;
use vstd::prelude::*;

verus! {

#[derive(Clone, Debug)]
pub struct BlockState {
    pub state_id: i32,
    /// (property, value) pairs, such as ("facing", "north")
    pub properties: Vec<(String, String)>,
}

/// The block that an item places.
#[derive(Clone, Debug)]
pub struct Block {
    /// the block's class in the game's data, such as "StairsBlock"
    pub class: String,
    pub default_state: i32,
    pub states: Vec<BlockState>,
}

/// The face of a block that a player clicked.
#[derive(Clone, Copy, Debug, PartialEq, Eq, Structural)]
pub enum Direction {
    Down,
    Up,
    North,
    South,
    West,
    East,
}

/// The direction a player looks in, from the yaw taken modulo 360:
/// `South` for [315, 360) and [0, 45), `West` for [45, 135), `North` for
/// [135, 225), `East` for [225, 315), `Unknown` for what falls in none (NaN).
#[derive(Clone, Copy, Debug, PartialEq, Eq, Structural)]
pub enum Looking {
    South,
    West,
    North,
    East,
    Unknown,
}

/// The value of the first pair with the given key.
pub open spec fn lookup(pairs: Seq<(String, String)>, key: Seq<char>) -> Option<Seq<char>>
    decreases pairs.len(),
{
    if pairs.len() == 0 {
        None
    } else if pairs[0].0@ == key {
        Some(pairs[0].1@)
    } else {
        lookup(pairs.skip(1), key)
    }
}

/// The key of the first pair with the given value.
pub open spec fn lookup_by_val(pairs: Seq<(String, String)>, val: Seq<char>) -> Option<Seq<char>>
    decreases pairs.len(),
{
    if pairs.len() == 0 {
        None
    } else if pairs[0].1@ == val {
        Some(pairs[0].0@)
    } else {
        lookup_by_val(pairs.skip(1), val)
    }
}

/// A linear search in a list of (key, value) pairs.
pub trait LinearSearch {
    spec fn spec_lookup(&self, key: Seq<char>) -> Option<Seq<char>>;

    spec fn spec_lookup_by_val(&self, val: Seq<char>) -> Option<Seq<char>>;

    /// The value of the first pair with the key; the key must be there.
    fn search(&self, key: &str) -> (res: &String)
        requires
            self.spec_lookup(key@) is Some,
        ensures
            self.spec_lookup(key@) == Some(res@),
    ;

    /// The key of the first pair with the value; the value must be there.
    fn search_by_val(&self, val: &str) -> (res: &String)
        requires
            self.spec_lookup_by_val(val@) is Some,
        ensures
            self.spec_lookup_by_val(val@) == Some(res@),
    ;
}

/// The position of the first pair whose key (or value, with `by_val`) is `s`.
fn position_of(pairs: &Vec<(String, String)>, s: &str, by_val: bool) -> (res: Option<usize>)
    ensures
        match res {
            Some(i) => i < pairs@.len() && Some(
                if by_val {
                    pairs@[i as int].0@
                } else {
                    pairs@[i as int].1@
                },
            ) == if by_val {
                lookup_by_val(pairs@, s@)
            } else {
                lookup(pairs@, s@)
            },
            None => if by_val {
                lookup_by_val(pairs@, s@) is None
            } else {
                lookup(pairs@, s@) is None
            },
        },
{
    let mut i: usize = 0;
    assert(pairs@.skip(0) =~= pairs@);
    while i < pairs.len()
        invariant
            i <= pairs@.len(),
            !by_val ==> lookup(pairs@, s@) == lookup(pairs@.skip(i as int), s@),
            by_val ==> lookup_by_val(pairs@, s@) == lookup_by_val(pairs@.skip(i as int), s@),
        decreases pairs@.len() - i,
    {
        let ghost rest = pairs@.skip(i as int);
        assert(rest[0] == pairs@[i as int]);
        assert(rest.skip(1) =~= pairs@.skip(i + 1));
        let hit = if by_val {
            str_eq(pairs[i].1.as_str(), s)
        } else {
            str_eq(pairs[i].0.as_str(), s)
        };
        if hit {
            return Some(i);
        }
        i = i + 1;
    }
    None
}

impl LinearSearch for Vec<(String, String)> {
    open spec fn spec_lookup(&self, key: Seq<char>) -> Option<Seq<char>> {
        lookup(self@, key)
    }

    open spec fn spec_lookup_by_val(&self, val: Seq<char>) -> Option<Seq<char>> {
        lookup_by_val(self@, val)
    }

    fn search(&self, key: &str) -> (res: &String) {
        let i = position_of(self, key, false).unwrap();
        &self[i].1
    }

    fn search_by_val(&self, val: &str) -> (res: &String) {
        let i = position_of(self, val, true).unwrap();
        &self[i].0
    }
}

/// Whether a property of a state has a value: `None` where the state lacks
/// the property, on which the search panics.
pub open spec fn prop_is(props: Seq<(String, String)>, key: Seq<char>, val: Seq<char>) -> Option<
    bool,
> {
    match lookup(props, key) {
        Some(v) => Some(v == val),
        None => None,
    }
}

/// `a && b`, evaluated from the left: `b` counts only when `a` holds.
pub open spec fn and_then(a: Option<bool>, b: Option<bool>) -> Option<bool> {
    match a {
        Some(true) => b,
        _ => a,
    }
}

/// What the placed state must have, per class of block.
#[derive(Clone, Copy, Debug)]
pub enum Query {
    /// "facing" (anvils)
    Facing(&'static str),
    /// "facing", straight "shape", "half", not waterlogged (stairs)
    Stairs(&'static str, &'static str),
    /// "type", not waterlogged (slabs)
    Slab(&'static str),
    /// "axis" (pillars)
    Axis(&'static str),
}

pub open spec fn query_matches(q: Query, props: Seq<(String, String)>) -> Option<bool> {
    match q {
        Query::Facing(f) => prop_is(props, "facing"@, f@),
        Query::Stairs(f, h) => and_then(
            prop_is(props, "facing"@, f@),
            and_then(
                prop_is(props, "shape"@, "straight"@),
                and_then(prop_is(props, "half"@, h@), prop_is(props, "waterlogged"@, "false"@)),
            ),
        ),
        Query::Slab(t) => and_then(
            prop_is(props, "type"@, t@),
            prop_is(props, "waterlogged"@, "false"@),
        ),
        Query::Axis(a) => prop_is(props, "axis"@, a@),
    }
}

/// The first state that matches: `None` where there is none, or where a
/// state before it lacks a property that the query reads.
pub open spec fn find_state(states: Seq<BlockState>, q: Query) -> Option<i32>
    decreases states.len(),
{
    if states.len() == 0 {
        None
    } else {
        match query_matches(q, states[0].properties@) {
            Some(true) => Some(states[0].state_id),
            Some(false) => find_state(states.skip(1), q),
            None => None,
        }
    }
}

fn prop_is_exec(props: &Vec<(String, String)>, key: &str, val: &str) -> (res: Option<bool>)
    ensures
        res == prop_is(props@, key@, val@),
{
    match position_of(props, key, false) {
        Some(i) => Some(str_eq(props[i].1.as_str(), val)),
        None => None,
    }
}

fn query_matches_exec(q: Query, props: &Vec<(String, String)>) -> (res: Option<bool>)
    ensures
        res == query_matches(q, props@),
{
    match q {
        Query::Facing(f) => prop_is_exec(props, "facing", f),
        Query::Stairs(f, h) => {
            let a = prop_is_exec(props, "facing", f);
            if a != Some(true) {
                return a;
            }
            let b = prop_is_exec(props, "shape", "straight");
            if b != Some(true) {
                return b;
            }
            let c = prop_is_exec(props, "half", h);
            if c != Some(true) {
                return c;
            }
            prop_is_exec(props, "waterlogged", "false")
        },
        Query::Slab(t) => {
            let a = prop_is_exec(props, "type", t);
            if a != Some(true) {
                return a;
            }
            prop_is_exec(props, "waterlogged", "false")
        },
        Query::Axis(a) => prop_is_exec(props, "axis", a),
    }
}

/// The id of the first state that matches the query.
pub fn find_state_id(states: &Vec<BlockState>, q: Query) -> (res: i32)
    requires
        find_state(states@, q) is Some,
    ensures
        find_state(states@, q) == Some(res),
{
    let mut i: usize = 0;
    assert(states@.skip(0) =~= states@);
    while i < states.len()
        invariant
            i <= states@.len(),
            find_state(states@, q) == find_state(states@.skip(i as int), q),
            find_state(states@, q) is Some,
        decreases states@.len() - i,
    {
        let ghost rest = states@.skip(i as int);
        assert(rest[0] == states@[i as int]);
        assert(rest.skip(1) =~= states@.skip(i + 1));
        match query_matches_exec(q, &states[i].properties) {
            Some(true) => {
                return states[i].state_id;
            },
            _ => {},
        }
        i = i + 1;
    }
    assert(states@.skip(i as int).len() == 0);
    0
}

/// The "facing" of an anvil: to the right of the direction the player looks in.
pub open spec fn anvil_facing(l: Looking) -> &'static str {
    match l {
        Looking::South => "west",
        Looking::West => "north",
        Looking::North => "east",
        Looking::East => "south",
        Looking::Unknown => "north",
    }
}

/// The "facing" of stairs: the direction the player looks in.
pub open spec fn stairs_facing(l: Looking) -> &'static str {
    match l {
        Looking::South => "south",
        Looking::West => "west",
        Looking::North => "north",
        Looking::East => "east",
        Looking::Unknown => "north",
    }
}

/// The half of a stair or slab: the top one when placed against the bottom
/// of a block, or against a side above its middle.
pub open spec fn half_of(face: Direction, upper_half: bool) -> &'static str {
    match face {
        Direction::Down => "top",
        Direction::Up => "bottom",
        _ => if upper_half {
            "top"
        } else {
            "bottom"
        },
    }
}

pub open spec fn axis_of(face: Direction) -> &'static str {
    match face {
        Direction::Down | Direction::Up => "y",
        Direction::West | Direction::East => "x",
        Direction::South | Direction::North => "z",
    }
}

/// What a class of block asks of its placed state; `None` for the classes
/// that are placed in their default state.
pub open spec fn query_for(class: Seq<char>, face: Direction, upper_half: bool, l: Looking) -> Option<
    Query,
> {
    if class == "AnvilBlock"@ {
        Some(Query::Facing(anvil_facing(l)))
    } else if class == "StairsBlock"@ {
        Some(Query::Stairs(stairs_facing(l), half_of(face, upper_half)))
    } else if class == "SlabBlock"@ {
        Some(Query::Slab(half_of(face, upper_half)))
    } else if class == "PillarBlock"@ {
        Some(Query::Axis(axis_of(face)))
    } else {
        None
    }
}

/// The state a block is placed in, `None` where looking it up panics.
pub open spec fn placed_state(block: Block, face: Direction, upper_half: bool, l: Looking) -> Option<
    i32,
> {
    match query_for(block.class@, face, upper_half, l) {
        Some(q) => find_state(block.states@, q),
        None => Some(block.default_state),
    }
}

/// The state found is one of the block's states, and matches the query.
proof fn lemma_find_state_matches(states: Seq<BlockState>, q: Query)
    ensures
        find_state(states, q) matches Some(id) ==> exists|k: int|
            0 <= k < states.len() && (#[trigger] states[k]).state_id == id && query_matches(
                q,
                states[k].properties@,
            ) == Some(true),
    decreases states.len(),
{
    if states.len() > 0 {
        let rest = states.skip(1);
        lemma_find_state_matches(rest, q);
        if query_matches(q, states[0].properties@) == Some(false) {
            if let Some(id) = find_state(rest, q) {
                let k = choose|k: int|
                    0 <= k < rest.len() && (#[trigger] rest[k]).state_id == id && query_matches(
                        q,
                        rest[k].properties@,
                    ) == Some(true);
                assert(states[k + 1] == rest[k]);
            }
        }
    }
}

/// Stairs are placed facing the way the player looks ("north" when the look
/// direction is unknown), straight, in the bottom half when placed on top of
/// a block and the top half when placed under one or against a side above
/// its middle: the state chosen is one of the block's states with those
/// properties.
pub proof fn lemma_stairs_placement(b: Block, face: Direction, upper_half: bool, l: Looking)
    requires
        b.class@ == "StairsBlock"@,
    ensures
        placed_state(b, face, upper_half, l) matches Some(id) ==> exists|k: int|
            0 <= k < b.states@.len() && (#[trigger] b.states@[k]).state_id == id && {
                let props = b.states@[k].properties@;
                &&& lookup(props, "facing"@) == Some(
                    if l == Looking::South {
                        "south"@
                    } else if l == Looking::West {
                        "west"@
                    } else if l == Looking::East {
                        "east"@
                    } else {
                        "north"@
                    },
                )
                &&& lookup(props, "shape"@) == Some("straight"@)
                &&& lookup(props, "half"@) == Some(
                    if face == Direction::Down || (face != Direction::Up && upper_half) {
                        "top"@
                    } else {
                        "bottom"@
                    },
                )
                &&& lookup(props, "waterlogged"@) == Some("false"@)
            },
{
    reveal_strlit("StairsBlock");
    reveal_strlit("AnvilBlock");
    let q = Query::Stairs(stairs_facing(l), half_of(face, upper_half));
    assert("StairsBlock"@[0] != "AnvilBlock"@[0]);
    assert(b.class@ != "AnvilBlock"@);
    assert(query_for(b.class@, face, upper_half, l) == Some(q));
    lemma_find_state_matches(b.states@, q);
    if let Some(id) = placed_state(b, face, upper_half, l) {
        let k = choose|k: int|
            0 <= k < b.states@.len() && (#[trigger] b.states@[k]).state_id == id && query_matches(
                q,
                b.states@[k].properties@,
            ) == Some(true);
        let props = b.states@[k].properties@;
        assert(prop_is(props, "facing"@, stairs_facing(l)@) == Some(true));
        assert(prop_is(props, "shape"@, "straight"@) == Some(true));
        assert(prop_is(props, "half"@, half_of(face, upper_half)@) == Some(true));
        assert(prop_is(props, "waterlogged"@, "false"@) == Some(true));
    }
}

fn query_for_exec(class: &str, face: Direction, upper_half: bool, l: Looking) -> (res: Option<Query>)
    ensures
        res == query_for(class@, face, upper_half, l),
{
    let half = match face {
        Direction::Down => "top",
        Direction::Up => "bottom",
        _ => if upper_half {
            "top"
        } else {
            "bottom"
        },
    };
    if str_eq(class, "AnvilBlock") {
        // only the "facing" property, to the right of the direction the player is facing
        let facing = match l {
            Looking::South => "west",
            Looking::West => "north",
            Looking::North => "east",
            Looking::East => "south",
            Looking::Unknown => "north",
        };
        Some(Query::Facing(facing))
    } else if str_eq(class, "StairsBlock") {
        let facing = match l {
            Looking::South => "south",
            Looking::West => "west",
            Looking::North => "north",
            Looking::East => "east",
            Looking::Unknown => "north",
        };
        Some(Query::Stairs(facing, half))
    } else if str_eq(class, "SlabBlock") {
        // doesnt support double slabs, just use the normal block
        Some(Query::Slab(half))
    } else if str_eq(class, "PillarBlock") {
        let axis = match face {
            Direction::Down | Direction::Up => "y",
            Direction::West | Direction::East => "x",
            Direction::South | Direction::North => "z",
        };
        Some(Query::Axis(axis))
    } else {
        // "Block" and "BambooBlock" have no properties, or none that matter
        // when placing; other classes are placed in their default state too
        None
    }
}

/// Returns the global palette block state of a placed block, based on the
/// circumstances.
pub fn get_placed_state(block: &Block, face: Direction, upper_half: bool, looking: Looking) -> (res:
    i32)
    requires
        placed_state(*block, face, upper_half, looking) is Some,
    ensures
        placed_state(*block, face, upper_half, looking) == Some(res),
{
    match query_for_exec(block.class.as_str(), face, upper_half, looking) {
        Some(q) => find_state_id(&block.states, q),
        None => block.default_state,
    }
}

} // verus!
