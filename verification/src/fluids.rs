//! Water and lava in the lobby: how a liquid spreads, when it dries up, and
//! which liquids a changed block wakes up.
use crate::world::Position;
use crate::lobby::{LobbyWorld, in_map};
use vstd::prelude::*;

verus! {

/// What a global block state says of a liquid: whether it is lava, its level
/// (0 for a source block and for a falling liquid) and whether it is falling.
pub open spec fn fluid_state(id: i32) -> Option<(bool, i32, bool)> {
    if 34 <= id <= 49 {
        Some((false, if id - 34 > 7 { 0i32 } else { (id - 34) as i32 }, id - 34 > 7))
    } else if 50 <= id <= 65 {
        Some((true, if id - 50 > 7 { 0i32 } else { (id - 50) as i32 }, id - 50 > 7))
    } else {
        None
    }
}

/// Returns whether the fluid is lava, the level of the fluid and whether it is falling.
pub fn parse_fluid_state(fluid_id: i32) -> (res: Option<(bool, i32, bool)>)
    ensures
        res == fluid_state(fluid_id),
{
    let is_lava = if 34 <= fluid_id && fluid_id <= 49 {
        false
    } else if 50 <= fluid_id && fluid_id <= 65 {
        true
    } else {
        return None;
    };
    let level = fluid_id - if is_lava {
        50
    } else {
        34
    };
    let is_falling = level > 7;
    Some((
        is_lava,
        if is_falling {
            0
        } else {
            level
        },
        is_falling,
    ))
}

/// The block state of a flowing liquid of level 0: 34 for water, 50 for lava.
pub open spec fn flow_base(is_lava: bool) -> i32 {
    if is_lava {
        50
    } else {
        34
    }
}

/// The position moved by an offset; `None` where a coordinate leaves `i32`,
/// which no map reaches.
pub open spec fn shifted(p: Position, dx: int, dy: int, dz: int) -> Option<Position> {
    if i32::MIN <= p.x + dx <= i32::MAX && i32::MIN <= p.y + dy <= i32::MAX && i32::MIN <= p.z
        + dz <= i32::MAX {
        Some(Position { x: (p.x + dx) as i32, y: (p.y + dy) as i32, z: (p.z + dz) as i32 })
    } else {
        None
    }
}

pub fn shift(p: Position, dx: i32, dy: i32, dz: i32) -> (res: Option<Position>)
    ensures
        res == shifted(p, dx as int, dy as int, dz as int),
{
    match (p.x.checked_add(dx), p.y.checked_add(dy), p.z.checked_add(dz)) {
        (Some(x), Some(y), Some(z)) => Some(Position { x, y, z }),
        _ => None,
    }
}

/// The blocks of the map, the liquids still to update, and the block changes
/// that players are to be told of, in order.
pub type LiquidState = (Map<Position, i32>, Seq<Position>, Seq<(Position, i32)>);

/// The block at a position, `None` outside the map.
pub open spec fn block_in(m: Map<Position, i32>, p: Option<Position>) -> Option<i32> {
    match p {
        Some(q) => if in_map(q) {
            Some(m[q])
        } else {
            None
        },
        None => None,
    }
}

/// Setting a block: refused outside the map and for negative states; a change
/// to a different state is recorded for the players.
pub open spec fn set_block_in(s: LiquidState, p: Position, id: i32) -> LiquidState {
    if in_map(p) && id >= 0 {
        (
            s.0.insert(p, id),
            s.1,
            if s.0[p] != id {
                s.2.push((p, id))
            } else {
                s.2
            },
        )
    } else {
        s
    }
}

pub open spec fn push_liquid(s: LiquidState, p: Position) -> LiquidState {
    (s.0, s.1.push(p), s.2)
}

/// Marks the block at `p` for an update if it holds a liquid.
pub open spec fn wake(m: Map<Position, i32>, flowing: Seq<Position>, p: Option<Position>) -> Seq<
    Position,
> {
    match block_in(m, p) {
        Some(id) => if fluid_state(id) is Some {
            flowing.push(p.unwrap())
        } else {
            flowing
        },
        None => flowing,
    }
}

/// Marks the liquids among the six neighbours of `p` for an update: west,
/// east, north, south, above, below, in that order.
pub open spec fn wake_neighbors(m: Map<Position, i32>, flowing: Seq<Position>, p: Position) -> Seq<
    Position,
> {
    let f = wake(m, flowing, shifted(p, -1, 0, 0));
    let f = wake(m, f, shifted(p, 1, 0, 0));
    let f = wake(m, f, shifted(p, 0, 0, -1));
    let f = wake(m, f, shifted(p, 0, 0, 1));
    let f = wake(m, f, shifted(p, 0, 1, 0));
    wake(m, f, shifted(p, 0, -1, 0))
}

/// Setting a block, then marking the liquids around it for an update.
pub open spec fn set_and_wake(s: LiquidState, p: Position, id: i32) -> LiquidState {
    let s1 = set_block_in(s, p, id);
    (s1.0, wake_neighbors(s1.0, s1.1, p), s1.2)
}

/// A liquid of level `level` flowing into the block beside it: into air, or
/// into the same liquid, not falling, with a weaker current.
pub open spec fn flow_sideways(
    s: LiquidState,
    side: Option<Position>,
    is_lava: bool,
    level: i32,
) -> LiquidState {
    match block_in(s.0, side) {
        Some(id) => {
            let q = side.unwrap();
            let target = flow_base(is_lava) + level + 1;
            let free = id == 0 || match fluid_state(id) {
                Some((l, lv, f)) => l == is_lava && !f && lv >= level + 1,
                None => false,
            };
            if free && target >= 0 {
                push_liquid(set_block_in(s, q, target as i32), q)
            } else {
                s
            }
        },
        None => s,
    }
}

/// How a liquid spreads: down into air or into a flowing liquid of its kind,
/// as a falling liquid; otherwise, with a current left (level below 7), to the
/// four sides. Nothing happens above the void, or above a source or falling
/// liquid of its kind.
pub open spec fn spread(s: LiquidState, liquid: Position, is_lava: bool, level: i32) -> LiquidState {
    let below = shifted(liquid, 0, -1, 0);
    match block_in(s.0, below) {
        None => s,
        Some(bid) => {
            let stop = match fluid_state(bid) {
                Some((l, lv, f)) => l == is_lava && (lv == 0 || f),
                None => false,
            };
            let down = match fluid_state(bid) {
                Some((l, _, _)) => l == is_lava || bid == 0,
                None => bid == 0,
            };
            if stop {
                s
            } else if down {
                let q = below.unwrap();
                push_liquid(
                    set_block_in(
                        s,
                        q,
                        if is_lava {
                            58i32
                        } else {
                            42i32
                        },
                    ),
                    q,
                )
            } else if level < 7 {
                let s = flow_sideways(s, shifted(liquid, -1, 0, 0), is_lava, level);
                let s = flow_sideways(s, shifted(liquid, 1, 0, 0), is_lava, level);
                let s = flow_sideways(s, shifted(liquid, 0, 0, -1), is_lava, level);
                flow_sideways(s, shifted(liquid, 0, 0, 1), is_lava, level)
            } else {
                s
            }
        },
    }
}

/// Whether the block at `p` holds the same liquid with a stronger current.
pub open spec fn feeds(m: Map<Position, i32>, p: Option<Position>, is_lava: bool, level: i32) -> bool {
    match block_in(m, p) {
        Some(id) => match fluid_state(id) {
            Some((l, lv, _)) => l == is_lava && lv < level,
            None => false,
        },
        None => false,
    }
}

/// Whether a liquid stays: a falling liquid under the same liquid, a source,
/// or a flowing liquid beside a stronger current of its kind.
pub open spec fn supported(
    m: Map<Position, i32>,
    liquid: Position,
    is_lava: bool,
    level: i32,
    falling: bool,
) -> bool {
    if falling {
        match block_in(m, shifted(liquid, 0, 1, 0)) {
            Some(id) => match fluid_state(id) {
                Some((l, _, _)) => l == is_lava,
                None => false,
            },
            None => false,
        }
    } else if level == 0 {
        true
    } else {
        feeds(m, shifted(liquid, -1, 0, 0), is_lava, level) || feeds(
            m,
            shifted(liquid, 1, 0, 0),
            is_lava,
            level,
        ) || feeds(m, shifted(liquid, 0, 0, -1), is_lava, level) || feeds(
            m,
            shifted(liquid, 0, 0, 1),
            is_lava,
            level,
        )
    }
}

/// One liquid update: the liquid spreads; if nothing supports it any more it
/// loses two levels, or disappears when falling or at level 6 or 7, and the
/// liquids around it are woken.
pub open spec fn update_liquid(s: LiquidState, liquid: Position) -> LiquidState {
    match block_in(s.0, Some(liquid)) {
        None => s,
        Some(id) => match fluid_state(id) {
            None => s,
            Some((is_lava, level, falling)) => {
                let s1 = spread(s, liquid, is_lava, level);
                if supported(s1.0, liquid, is_lava, level, falling) {
                    s1
                } else {
                    let s2 = if falling || level >= 6 {
                        set_block_in(s1, liquid, 0)
                    } else {
                        push_liquid(
                            set_block_in(s1, liquid, (flow_base(is_lava) + level + 2) as i32),
                            liquid,
                        )
                    };
                    (s2.0, wake_neighbors(s2.0, s2.1, liquid), s2.2)
                }
            },
        },
    }
}

/// A liquid that can flow down falls as its own kind: when the block below a
/// liquid is air, or a flowing (not falling, not source) liquid of the same
/// kind, updating the liquid puts there a falling liquid of that kind (water
/// stays water, lava stays lava), and marks it for an update.
pub proof fn lemma_liquid_falls_as_itself(
    s: LiquidState,
    liquid: Position,
    below: Position,
    is_lava: bool,
)
    requires
        in_map(liquid),
        in_map(below),
        shifted(liquid, 0, -1, 0) == Some(below),
        fluid_state(s.0[liquid]) matches Some((l, _, _)) && l == is_lava,
        s.0[below] == 0 || (fluid_state(s.0[below]) matches Some((l, lv, f)) && l == is_lava && lv
            != 0 && !f),
    ensures
        fluid_state(update_liquid(s, liquid).0[below]) == Some((is_lava, 0i32, true)),
        update_liquid(s, liquid).1.contains(below),
{
    let (_, level, falling) = fluid_state(s.0[liquid])->0;
    let s1 = spread(s, liquid, is_lava, level);
    let id: i32 = if is_lava { 58 } else { 42 };
    assert(s1.0[below] == id);
    assert(s1.1.contains(below)) by {
        assert(s1.1[s1.1.len() - 1] == below);
    }
    assert(liquid != below);
    let r = update_liquid(s, liquid);
    if !supported(s1.0, liquid, is_lava, level, falling) {
        let s2 = if falling || level >= 6 {
            set_block_in(s1, liquid, 0)
        } else {
            push_liquid(set_block_in(s1, liquid, (flow_base(is_lava) + level + 2) as i32), liquid)
        };
        assert(s2.0[below] == id);
        assert(s2.1.contains(below)) by {
            let k = choose|k: int| 0 <= k < s1.1.len() && s1.1[k] == below;
            assert(s2.1[k] == below);
        }
        let w = wake_neighbors(s2.0, s2.1, liquid);
        assert(w.contains(below)) by {
            let k = choose|k: int| 0 <= k < s2.1.len() && s2.1[k] == below;
            lemma_wake_neighbors_keeps(s2.0, s2.1, liquid, k);
        }
    }
}

/// Waking the neighbours of a block keeps the liquids already marked.
pub proof fn lemma_wake_neighbors_keeps(m: Map<Position, i32>, f: Seq<Position>, p: Position, k: int)
    requires
        0 <= k < f.len(),
    ensures
        wake_neighbors(m, f, p).len() >= f.len(),
        wake_neighbors(m, f, p)[k] == f[k],
{
    let f1 = wake(m, f, shifted(p, -1, 0, 0));
    let f2 = wake(m, f1, shifted(p, 1, 0, 0));
    let f3 = wake(m, f2, shifted(p, 0, 0, -1));
    let f4 = wake(m, f3, shifted(p, 0, 0, 1));
    let f5 = wake(m, f4, shifted(p, 0, 1, 0));
    let f6 = wake(m, f5, shifted(p, 0, -1, 0));
    assert(f1.len() >= f.len() && f1[k] == f[k]);
    assert(f2.len() >= f1.len() && f2[k] == f1[k]);
    assert(f3.len() >= f2.len() && f3[k] == f2[k]);
    assert(f4.len() >= f3.len() && f4[k] == f3[k]);
    assert(f5.len() >= f4.len() && f5[k] == f4[k]);
    assert(f6.len() >= f5.len() && f6[k] == f5[k]);
}

/// The liquid updates of a list of liquids, in order.
pub open spec fn update_liquids(s: LiquidState, liquids: Seq<Position>) -> LiquidState
    decreases liquids.len(),
{
    if liquids.len() == 0 {
        s
    } else {
        update_liquid(update_liquids(s, liquids.drop_last()), liquids.last())
    }
}

impl LobbyWorld {
    /// The blocks of the map.
    pub open spec fn blocks(&self) -> Map<Position, i32> {
        Map::new(|p: Position| in_map(p), |p: Position| self.block_at(p))
    }

    /// The world as liquid updates see it, with the changes recorded so far.
    pub open spec fn state(&self, changes: Seq<(Position, i32)>) -> LiquidState {
        (self.blocks(), self.flowing_liquids@, changes)
    }

    fn read(&self, p: Option<Position>) -> (res: Option<i32>)
        requires
            self.wf(),
        ensures
            res == block_in(self.blocks(), p),
    {
        match p {
            Some(q) => match self.get_block(q) {
                Ok(id) => Some(id),
                Err(_) => None,
            },
            None => None,
        }
    }

    /// Sets a block and records the change; returns whether the block could be set.
    fn put(&mut self, p: Position, id: i32, changes: &mut Vec<(Position, i32)>) -> (ok: bool)
        requires
            old(self).wf(),
        ensures
            final(self).wf(),
            ok == (in_map(p) && id >= 0),
            final(self).state(final(changes)@) == set_block_in(
                old(self).state(old(changes)@),
                p,
                id,
            ),
    {
        match self.set_block(p, id) {
            Ok(changed) => {
                if changed {
                    changes.push((p, id));
                }
                assert(self.blocks() =~= old(self).blocks().insert(p, id));
                true
            },
            Err(_) => {
                assert(self.blocks() =~= old(self).blocks());
                false
            },
        }
    }

    /// Sets a block and marks the liquids around it for an update.
    pub fn set_block_and_wake(&mut self, p: Position, id: i32, changes: &mut Vec<(Position, i32)>)
        requires
            old(self).wf(),
        ensures
            final(self).wf(),
            final(self).state(final(changes)@) == set_and_wake(
                old(self).state(old(changes)@),
                p,
                id,
            ),
    {
        let _ = self.put(p, id, changes);
        self.update_nearby_liquids(p);
    }

    /// Sets a block to a liquid, marks it for an update, and marks the liquids
    /// around it for an update too.
    pub fn pour(&mut self, p: Position, id: i32, changes: &mut Vec<(Position, i32)>)
        requires
            old(self).wf(),
        ensures
            final(self).wf(),
            ({
                let s1 = push_liquid(set_block_in(old(self).state(old(changes)@), p, id), p);
                final(self).state(final(changes)@) == (s1.0, wake_neighbors(s1.0, s1.1, p), s1.2)
            }),
    {
        let _ = self.put(p, id, changes);
        self.flowing_liquids.push(p);
        self.update_nearby_liquids(p);
    }

    fn wake_at(&mut self, p: Option<Position>)
        requires
            old(self).wf(),
        ensures
            final(self).wf(),
            final(self).chunks == old(self).chunks,
            final(self).flowing_liquids@ == wake(
                old(self).blocks(),
                old(self).flowing_liquids@,
                p,
            ),
    {
        if let Some(id) = self.read(p) {
            if parse_fluid_state(id).is_some() {
                self.flowing_liquids.push(p.unwrap());
            }
        }
    }

    /// Marks the liquids next to a changed block for an update.
    pub fn update_nearby_liquids(&mut self, position: Position)
        requires
            old(self).wf(),
        ensures
            final(self).wf(),
            final(self).chunks == old(self).chunks,
            final(self).flowing_liquids@ == wake_neighbors(
                old(self).blocks(),
                old(self).flowing_liquids@,
                position,
            ),
    {
        self.wake_at(shift(position, -1, 0, 0));
        self.wake_at(shift(position, 1, 0, 0));
        self.wake_at(shift(position, 0, 0, -1));
        self.wake_at(shift(position, 0, 0, 1));
        self.wake_at(shift(position, 0, 1, 0));
        self.wake_at(shift(position, 0, -1, 0));
    }

    fn flow_into_side(
        &mut self,
        side: Option<Position>,
        is_lava: bool,
        level: i32,
        changes: &mut Vec<(Position, i32)>,
    )
        requires
            old(self).wf(),
            level < 7,
        ensures
            final(self).wf(),
            final(self).state(final(changes)@) == flow_sideways(
                old(self).state(old(changes)@),
                side,
                is_lava,
                level,
            ),
    {
        if let Some(side_block_id) = self.read(side) {
            let target = if is_lava {
                50
            } else {
                34
            } + level + 1;
            let free = if side_block_id == 0 {
                // its just air, free to flow
                true
            } else if let Some((side_is_lava, side_level, side_is_falling)) = parse_fluid_state(
                side_block_id,
            ) {
                // another fluid of the same type with a weaker current
                side_is_lava == is_lava && !side_is_falling && side_level >= level + 1
            } else {
                false
            };
            if free {
                let q = side.unwrap();
                if self.put(q, target, changes) {
                    self.flowing_liquids.push(q);
                }
            }
        }
    }

    /// Lets a liquid flow down, or else to its sides.
    pub fn liquid_spread(
        &mut self,
        liquid: Position,
        is_lava: bool,
        level: i32,
        changes: &mut Vec<(Position, i32)>,
    )
        requires
            old(self).wf(),
        ensures
            final(self).wf(),
            final(self).state(final(changes)@) == spread(
                old(self).state(old(changes)@),
                liquid,
                is_lava,
                level,
            ),
    {
        // first, check if can flow downwards
        let below = shift(liquid, 0, -1, 0);
        let can_flow_downwards = if let Some(below_block_id) = self.read(below) {
            // can flow if below is air or another liquid of the same type
            if let Some(below_liquid) = parse_fluid_state(below_block_id) {
                if below_liquid.0 == is_lava {
                    if below_liquid.1 == 0 || below_liquid.2 {
                        // no need to flow anywhere, because it would flow down,
                        // but there's already a source or falling block there
                        return;
                    }
                    true
                } else {
                    // only if air
                    below_block_id == 0
                }
            } else {
                // only if air
                below_block_id == 0
            }
        } else {
            // blocks above void dont need to do anything, just stop flowing
            return;
        };
        if can_flow_downwards {
            self.flow_down(below.unwrap(), is_lava, changes);
        } else if level < 7 {
            // try flowing to sides, but only if enough current
            self.flow_to_sides(liquid, is_lava, level, changes);
        }
    }

    fn flow_down(&mut self, below: Position, is_lava: bool, changes: &mut Vec<(Position, i32)>)
        requires
            old(self).wf(),
            in_map(below),
        ensures
            final(self).wf(),
            final(self).state(final(changes)@) == push_liquid(
                set_block_in(
                    old(self).state(old(changes)@),
                    below,
                    if is_lava {
                        58i32
                    } else {
                        42i32
                    },
                ),
                below,
            ),
    {
        let ok = self.put(
            below,
            if is_lava {
                58
            } else {
                42
            },
            changes,
        );
        assert(ok);
        self.flowing_liquids.push(below);
    }

    fn flow_to_sides(
        &mut self,
        liquid: Position,
        is_lava: bool,
        level: i32,
        changes: &mut Vec<(Position, i32)>,
    )
        requires
            old(self).wf(),
            level < 7,
        ensures
            final(self).wf(),
            ({
                let s = old(self).state(old(changes)@);
                let s = flow_sideways(s, shifted(liquid, -1, 0, 0), is_lava, level);
                let s = flow_sideways(s, shifted(liquid, 1, 0, 0), is_lava, level);
                let s = flow_sideways(s, shifted(liquid, 0, 0, -1), is_lava, level);
                final(self).state(final(changes)@) == flow_sideways(
                    s,
                    shifted(liquid, 0, 0, 1),
                    is_lava,
                    level,
                )
            }),
    {
        self.flow_into_side(shift(liquid, -1, 0, 0), is_lava, level, changes);
        self.flow_into_side(shift(liquid, 1, 0, 0), is_lava, level, changes);
        self.flow_into_side(shift(liquid, 0, 0, -1), is_lava, level, changes);
        self.flow_into_side(shift(liquid, 0, 0, 1), is_lava, level, changes);
    }

    fn feeds_at(&self, p: Option<Position>, is_lava: bool, level: i32) -> (res: bool)
        requires
            self.wf(),
        ensures
            res == feeds(self.blocks(), p, is_lava, level),
    {
        if let Some(id) = self.read(p) {
            if let Some((neighbor_is_lava, neighbor_level, _)) = parse_fluid_state(id) {
                return neighbor_is_lava == is_lava && neighbor_level < level;
            }
        }
        false
    }

    /// Updates one liquid: it spreads, then dries up by two levels (or
    /// entirely) when nothing supports it any more.
    pub fn update_liquid(&mut self, liquid: Position, changes: &mut Vec<(Position, i32)>)
        requires
            old(self).wf(),
        ensures
            final(self).wf(),
            final(self).state(final(changes)@) == update_liquid(
                old(self).state(old(changes)@),
                liquid,
            ),
    {
        let fluid_id = match self.get_block(liquid) {
            Ok(id) => id,
            Err(_) => return,
        };
        let (is_lava, level, is_falling) = match parse_fluid_state(fluid_id) {
            Some(d) => d,
            None => {
                // this happens a lot, if a block is placed where water was before it got updated
                return;
            },
        };
        self.liquid_spread(liquid, is_lava, level, changes);
        // check if this block is a source block or supported by any stronger block nearby
        let supported = self.is_supported(liquid, is_lava, level, is_falling);
        // if not supported, remove 2 levels or if no levels left just remove the liquid
        if !supported {
            self.dry_up(liquid, is_lava, level, is_falling, changes);
        }
    }

    fn is_supported(&self, liquid: Position, is_lava: bool, level: i32, is_falling: bool) -> (res:
        bool)
        requires
            self.wf(),
        ensures
            res == supported(self.blocks(), liquid, is_lava, level, is_falling),
    {
        if is_falling {
            // if falling, check if above block is a liquid
            match self.read(shift(liquid, 0, 1, 0)) {
                Some(above_block_id) => match parse_fluid_state(above_block_id) {
                    Some((above_is_lava, _, _)) => above_is_lava == is_lava,
                    None => false,
                },
                None => false,
            }
        } else if level == 0 {
            true
        } else {
            self.feeds_at(shift(liquid, -1, 0, 0), is_lava, level) || self.feeds_at(
                shift(liquid, 1, 0, 0),
                is_lava,
                level,
            ) || self.feeds_at(shift(liquid, 0, 0, -1), is_lava, level) || self.feeds_at(
                shift(liquid, 0, 0, 1),
                is_lava,
                level,
            )
        }
    }

    /// An unsupported liquid loses two levels, or disappears when falling or
    /// weak; the liquids around it are woken.
    fn dry_up(
        &mut self,
        liquid: Position,
        is_lava: bool,
        level: i32,
        is_falling: bool,
        changes: &mut Vec<(Position, i32)>,
    )
        requires
            old(self).wf(),
            in_map(liquid),
            0 <= level <= 7,
        ensures
            final(self).wf(),
            ({
                let s1 = old(self).state(old(changes)@);
                let s2 = if is_falling || level >= 6 {
                    set_block_in(s1, liquid, 0)
                } else {
                    push_liquid(
                        set_block_in(s1, liquid, (flow_base(is_lava) + level + 2) as i32),
                        liquid,
                    )
                };
                final(self).state(final(changes)@) == (
                    s2.0,
                    wake_neighbors(s2.0, s2.1, liquid),
                    s2.2,
                )
            }),
    {
        if is_falling || level >= 6 {
            // remove the block
            let _ = self.put(liquid, 0, changes);
        } else {
            // remove 2 levels
            let id = if is_lava {
                50
            } else {
                34
            } + level + 2;
            let ok = self.put(liquid, id, changes);
            assert(ok);
            self.flowing_liquids.push(liquid);
        }
        // if there are any neighbor liquids, may need to update them
        self.update_nearby_liquids(liquid);
    }

    /// Every 5 ticks, the liquids marked for an update are updated once each,
    /// in increasing order of position, and the list starts afresh. Returns the
    /// block changes to send to the players.
    pub fn tick_liquids(&mut self, counter: u128) -> (changes: Vec<(Position, i32)>)
        requires
            old(self).wf(),
        ensures
            final(self).wf(),
            counter % 5 != 0 ==> final(self).chunks == old(self).chunks
                && final(self).flowing_liquids == old(self).flowing_liquids && changes@.len() == 0,
            counter % 5 == 0 ==> exists|l: Seq<Position>|
                {
                    &&& strictly_sorted(l)
                    &&& forall|q: Position| l.contains(q) <==> old(self).flowing_liquids@.contains(q)
                    &&& final(self).state(changes@) == update_liquids(
                        (old(self).blocks(), Seq::empty(), Seq::empty()),
                        l,
                    )
                },
    {
        let mut changes: Vec<(Position, i32)> = Vec::new();
        if counter % 5 != 0 {
            return changes;
        }
        // remove duplications
        let liquids = sorted_unique(&self.flowing_liquids);
        self.flowing_liquids = Vec::new();
        let ghost s0: LiquidState = (old(self).blocks(), Seq::empty(), Seq::empty());
        assert(self.state(changes@) == s0);
        let mut i: usize = 0;
        while i < liquids.len()
            invariant
                i <= liquids@.len(),
                self.wf(),
                self.state(changes@) == update_liquids(s0, liquids@.take(i as int)),
            decreases liquids@.len() - i,
        {
            let liquid = liquids[i];
            self.update_liquid(liquid, &mut changes);
            i = i + 1;
            assert(liquids@.take(i as int).drop_last() =~= liquids@.take(i - 1));
        }
        assert(liquids@.take(liquids@.len() as int) =~= liquids@);
        changes
    }
}

/// The order in which liquids are updated: by x, then y, then z.
pub open spec fn pos_lt(a: Position, b: Position) -> bool {
    a.x < b.x || (a.x == b.x && (a.y < b.y || (a.y == b.y && a.z < b.z)))
}

pub open spec fn strictly_sorted(s: Seq<Position>) -> bool {
    forall|i: int, j: int| 0 <= i < j < s.len() ==> pos_lt(s[i], s[j])
}

fn pos_less(a: Position, b: Position) -> (res: bool)
    ensures
        res == pos_lt(a, b),
{
    a.x < b.x || (a.x == b.x && (a.y < b.y || (a.y == b.y && a.z < b.z)))
}

/// The positions of a list, each once, in increasing order.
pub fn sorted_unique(v: &Vec<Position>) -> (res: Vec<Position>)
    ensures
        strictly_sorted(res@),
        forall|q: Position| res@.contains(q) <==> v@.contains(q),
{
    let mut res: Vec<Position> = Vec::new();
    let mut k: usize = 0;
    while k < v.len()
        invariant
            k <= v@.len(),
            strictly_sorted(res@),
            forall|q: Position| res@.contains(q) <==> v@.take(k as int).contains(q),
        decreases v@.len() - k,
    {
        let p = v[k];
        let mut i: usize = 0;
        while i < res.len()
            invariant
                i <= res@.len(),
                forall|j: int| 0 <= j < i ==> pos_lt(res@[j], p),
            ensures
                i <= res@.len(),
                forall|j: int| 0 <= j < i ==> pos_lt(res@[j], p),
                i < res@.len() ==> !pos_lt(res@[i as int], p),
            decreases res@.len() - i,
        {
            if !pos_less(res[i], p) {
                break;
            }
            i = i + 1;
        }
        let ghost before = res@;
        if i < res.len() && res[i] == p {
            assert(before.contains(p));
            assert forall|q: Position| res@.contains(q) <==> (before.contains(q) || q == p) by {}
        } else {
            res.insert(i, p);
            assert forall|a: int, b: int| 0 <= a < b < res@.len() implies pos_lt(
                res@[a],
                res@[b],
            ) by {
                if a < i as int && b > i as int {
                    assert(pos_lt(before[a], p));
                    assert(res@[b] == before[b - 1]);
                    if i < before.len() {
                        assert(!pos_lt(before[i as int], p));
                        assert(before[i as int] != p);
                        if b - 1 > i {
                            assert(pos_lt(before[i as int], before[b - 1]));
                        }
                    }
                } else if a == i as int && b > i as int {
                    assert(res@[b] == before[b - 1]);
                    assert(!pos_lt(before[i as int], p));
                    assert(before[i as int] != p);
                    if b - 1 > i {
                        assert(pos_lt(before[i as int], before[b - 1]));
                    }
                } else if b == i as int {
                    assert(pos_lt(before[a], p));
                } else if b < i as int {
                    assert(res@[a] == before[a] && res@[b] == before[b]);
                } else {
                    assert(res@[a] == before[a - 1] && res@[b] == before[b - 1]);
                }
            }
            assert forall|q: Position| res@.contains(q) <==> (before.contains(q) || q == p) by {
                if res@.contains(q) {
                    let j = choose|j: int| 0 <= j < res@.len() && res@[j] == q;
                    if j < i as int {
                        assert(before[j] == q);
                    } else if j > i as int {
                        assert(before[j - 1] == q);
                    }
                }
                if before.contains(q) {
                    let j = choose|j: int| 0 <= j < before.len() && before[j] == q;
                    if j < i as int {
                        assert(res@[j] == q);
                    } else {
                        assert(res@[j + 1] == q);
                    }
                }
                if q == p {
                    assert(res@[i as int] == q);
                }
            }
        }
        let ghost t0 = v@.take(k as int);
        let ghost t1 = v@.take(k + 1);
        assert forall|q: Position| t1.contains(q) <==> (t0.contains(q) || q == p) by {
            if t1.contains(q) {
                let j = choose|j: int| 0 <= j < t1.len() && t1[j] == q;
                if j < k {
                    assert(t0[j] == q);
                }
            }
            if t0.contains(q) {
                let j = choose|j: int| 0 <= j < t0.len() && t0[j] == q;
                assert(t1[j] == q);
            }
            if q == p {
                assert(t1[k as int] == q);
            }
        }
        assert forall|q: Position| res@.contains(q) <==> t1.contains(q) by {
            assert(before.contains(q) <==> t0.contains(q));
        }
        k = k + 1;
    }
    assert(v@.take(v@.len() as int) =~= v@);
    res
}

/// Two increasing lists of the same positions are the same list: the order of
/// the liquid updates is fixed by the positions marked.
pub proof fn lemma_sorted_unique(a: Seq<Position>, b: Seq<Position>)
    requires
        strictly_sorted(a),
        strictly_sorted(b),
        forall|q: Position| a.contains(q) <==> b.contains(q),
    ensures
        a == b,
    decreases a.len(),
{
    if a.len() == 0 {
        if b.len() > 0 {
            assert(b.contains(b[0]));
        }
        assert(a =~= b);
    } else if b.len() == 0 {
        assert(a.contains(a[0]));
    } else {
        assert(a.contains(a[0]));
        assert(b.contains(b[0]));
        let i = choose|i: int| 0 <= i < a.len() && a[i] == b[0];
        let j = choose|j: int| 0 <= j < b.len() && b[j] == a[0];
        if a[0] != b[0] {
            assert(i > 0 && j > 0);
            assert(pos_lt(a[0], a[i]));
            assert(pos_lt(b[0], b[j]));
        }
        let a1 = a.skip(1);
        let b1 = b.skip(1);
        assert forall|q: Position| a1.contains(q) <==> b1.contains(q) by {
            if a1.contains(q) {
                let k = choose|k: int| 0 <= k < a1.len() && a1[k] == q;
                assert(a[k + 1] == q);
                assert(pos_lt(a[0], a[k + 1]));
                assert(b.contains(q));
                let m = choose|m: int| 0 <= m < b.len() && b[m] == q;
                assert(m != 0);
                assert(b1[m - 1] == q);
            }
            if b1.contains(q) {
                let k = choose|k: int| 0 <= k < b1.len() && b1[k] == q;
                assert(b[k + 1] == q);
                assert(pos_lt(b[0], b[k + 1]));
                assert(a.contains(q));
                let m = choose|m: int| 0 <= m < a.len() && a[m] == q;
                assert(m != 0);
                assert(a1[m - 1] == q);
            }
        }
        lemma_sorted_unique(a1, b1);
        assert(a =~= seq![a[0]] + a1);
        assert(b =~= seq![b[0]] + b1);
    }
}

} // verus!
