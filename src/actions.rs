//! Timed actions, persistent goals and the dig tasks of a player's pool.

use std::collections::VecDeque;
use vstd::prelude::*;
use crate::entity::{EntID, EntIDs, Entity};
use crate::geometry::{
    ground_dist, in_box, is_isqrt, normalized, rotate_selector, sq_dist, Pos, PlayerID,
    Ticks, TilesSelector,
};
use crate::map::{pos_of_index, MapModel, Tile, TileMap};
use crate::template::{dig_speed, dig_speed_of, CreatureID, CreatureMap};

verus! {

/// Ticks an attack takes.
pub const ATTACK_DURATION: Ticks = 10;

#[derive(Clone, Copy, Debug, PartialEq, Eq)]
pub enum AttackType {
    Bite,
    Punch,
}

#[derive(Clone, Copy, Debug, PartialEq, Eq)]
pub enum ActionType {
    Move(Pos),
    Dig(Pos),
    Attack(AttackType, EntID),
    Wait,
}

/// A single timed primitive an entity executes.
#[derive(Clone, Copy, Debug, PartialEq, Eq)]
pub struct Action {
    pub atype: ActionType,
    pub duration: Ticks,
}

/// A persistent intent: attack the entity, last seen at the position.
#[derive(Clone, Copy, Debug, PartialEq, Eq)]
pub enum Goal {
    Attack(AttackType, EntID, Pos),
}

/// Work waiting in a player's pool, owned by at most one entity.
#[derive(Clone, Copy, Debug, PartialEq, Eq)]
pub struct Task {
    pub atype: ActionType,
    pub owner: Option<EntID>,
}

pub type Actions = VecDeque<Action>;
pub type Tasks = Vec<Task>;

impl Action {
    pub fn new(atype: ActionType, duration: Ticks) -> (r: Action)
        ensures
            r == (Action { atype, duration }),
    {
        Action { atype: atype, duration: duration }
    }

    /// Dig the tile at `pos`, taking the creature kind's dig time.
    pub fn dig(pos: Pos, creature_id: &CreatureID, creature_types: &CreatureMap) -> (r: Action)
        ensures
            r == (Action { atype: ActionType::Dig(pos), duration: dig_speed_of(creature_types@, *creature_id) }),
    {
        Action::new(ActionType::Dig(pos), dig_speed(creature_id, creature_types))
    }

    /// A bite on entity `id`, with the goal of attacking it where it stands at `pos`.
    pub fn attack(id: EntID, pos: Pos, creature_id: CreatureID, creature_types: &CreatureMap) -> (r: (
        Action,
        Goal,
    ))
        ensures
            r.0 == (Action { atype: ActionType::Attack(AttackType::Bite, id), duration: ATTACK_DURATION }),
            r.1 == Goal::Attack(AttackType::Bite, id, pos),
    {
        let attack_type = AttackType::Bite;
        let action = Action::new(ActionType::Attack(attack_type, id), ATTACK_DURATION);
        let goal = Goal::Attack(attack_type, id, pos);
        (action, goal)
    }
}

/// Rounded-down Euclidean distance, the order in which idle entities consider tasks.
pub open spec fn priority_of(t: Task, from: Pos) -> int {
    match t.atype {
        ActionType::Dig(pos) => choose|r: int| is_isqrt(sq_dist(from, pos), r),
        _ => 0,
    }
}

impl Task {
    /// Schedule the tile at `pos` to be dug.
    pub fn dig(pos: Pos) -> (r: Task)
        ensures
            r == (Task { atype: ActionType::Dig(pos), owner: None }),
    {
        Task { atype: ActionType::Dig(pos), owner: None }
    }

    /// How far the entity is from the task's tile (0 for tasks without a tile).
    pub fn priority(&self, ent: &Entity) -> (r: i64)
        ensures
            r == priority_of(*self, ent.pos),
    {
        match self.atype {
            ActionType::Dig(pos) => {
                let r = ground_dist(&ent.pos, &pos);
                proof { crate::geometry::lemma_isqrt_unique(sq_dist(ent.pos, pos), r as int); }
                r
            },
            _ => 0,
        }
    }
}

/// The ids of the entities of team `player_id` standing in the selection, in order.
pub open spec fn selected(ents: Seq<Entity>, player_id: PlayerID, sel: TilesSelector, own: bool) -> Seq<EntID>
    decreases ents.len(),
{
    if ents.len() == 0 {
        Seq::empty()
    } else {
        let rest = selected(ents.drop_last(), player_id, sel, own);
        let e = ents.last();
        if e.team_id is Some && (e.team_id->0 == player_id) == own && in_box(normalized(sel).0, normalized(sel).1, e.pos) {
            rest.push(e.id)
        } else {
            rest
        }
    }
}

fn select_by_team(ents: &Vec<Entity>, player_id: PlayerID, selector: TilesSelector, own: bool) -> (r: EntIDs)
    ensures
        r@ == selected(ents@, player_id, selector, own),
{
    let (s1, s2) = rotate_selector(selector);
    let mut ent_ids: EntIDs = Vec::new();
    let mut i: usize = 0;
    while i < ents.len()
        invariant
            i <= ents@.len(),
            (s1, s2) == normalized(selector),
            ent_ids@ == selected(ents@.subrange(0, i as int), player_id, selector, own),
        decreases ents@.len() - i,
    {
        let ent = &ents[i];
        assert(ents@.subrange(0, i + 1).drop_last() =~= ents@.subrange(0, i as int));
        if let Some(team_id) = ent.team_id {
            let p = ent.pos;
            if (team_id == player_id) == own && s1.0 <= p.0 && p.0 <= s2.0 && s1.1 <= p.1 && p.1 <= s2.1
                && s1.2 <= p.2 && p.2 <= s2.2 {
                ent_ids.push(ent.id);
            }
        }
        i += 1;
    }
    assert(ents@.subrange(0, ents@.len() as int) =~= ents@);
    ent_ids
}

/// The ids of the player's own entities inside the selection.
pub fn select_entities(ents: &Vec<Entity>, player_id: PlayerID, selector: TilesSelector) -> (r: EntIDs)
    ensures
        r@ == selected(ents@, player_id, selector, true),
{
    select_by_team(ents, player_id, selector, true)
}

/// The ids of other teams' entities inside the selection.
pub fn select_bad_entities(ents: &Vec<Entity>, player_id: PlayerID, selector: TilesSelector) -> (r: EntIDs)
    ensures
        r@ == selected(ents@, player_id, selector, false),
{
    select_by_team(ents, player_id, selector, false)
}

/// Positions in lexicographic order: by x, then y, then z.
pub open spec fn lex_lt(p: Pos, q: Pos) -> bool {
    p.0 < q.0 || (p.0 == q.0 && (p.1 < q.1 || (p.1 == q.1 && p.2 < q.2)))
}

pub open spec fn dig_pos(t: Task) -> Pos {
    match t.atype {
        ActionType::Dig(p) => p,
        _ => arbitrary(),
    }
}

/// A task that marking the box `lo..=hi` of `m` adds.
pub open spec fn new_task_ok(m: MapModel, lo: Pos, hi: Pos, t: Task) -> bool {
    &&& t.owner is None
    &&& t.atype is Dig
    &&& in_box(lo, hi, dig_pos(t))
    &&& m.diggable(dig_pos(t))
}

/// `p` lies in the part of the box inside the map, before `cur` in visiting order.
pub open spec fn processed(lo: Pos, hi: Pos, m: MapModel, p: Pos, cur: Pos) -> bool {
    &&& in_box(lo, hi, p)
    &&& m.in_bounds(p)
    &&& lex_lt(p, cur)
}

/// Tile `i` of `m`, flagged as pending when `done` and diggable in the box.
pub open spec fn marked_tile(m: MapModel, lo: Pos, hi: Pos, i: int, done: bool) -> Tile {
    let p = pos_of_index(m, i);
    if done && in_box(lo, hi, p) && m.diggable(p) {
        Tile { marked: true, ..m.tiles[i] }
    } else {
        m.tiles[i]
    }
}

/// `m1` and `t1` are `m0` and `t0` after marking the selection for digging: every
/// tile of the selection diggable in `m0` is flagged as pending and gets a fresh
/// unowned dig task, appended in x, then y, then z order; nothing else changes.
pub open spec fn dig_tasks_added(m0: MapModel, m1: MapModel, t0: Seq<Task>, t1: Seq<Task>, sel: TilesSelector) -> bool {
    let (lo, hi) = normalized(sel);
    &&& m1.wf()
    &&& m1.same_shape(m0)
    &&& m1.tiles.len() == m0.tiles.len()
    &&& forall|i: int| 0 <= i < m0.tiles.len() ==> #[trigger] m1.tiles[i] == marked_tile(m0, lo, hi, i, true)
    &&& t0.len() <= t1.len()
    &&& t1.subrange(0, t0.len() as int) == t0
    &&& forall|k: int| t0.len() <= k < t1.len() ==> #[trigger] new_task_ok(m0, lo, hi, t1[k])
    &&& forall|k1: int, k2: int| t0.len() <= k1 < k2 < t1.len() ==> lex_lt(dig_pos(#[trigger] t1[k1]), dig_pos(#[trigger] t1[k2]))
    &&& forall|p: Pos| in_box(lo, hi, p) && #[trigger] m0.diggable(p) ==> exists|k: int| t0.len() <= k < t1.len() && #[trigger] t1[k] == Task::dig_spec(p)
}

impl Task {
    pub open spec fn dig_spec(p: Pos) -> Task {
        Task { atype: ActionType::Dig(p), owner: None }
    }
}

/// Add a dig task for every diggable tile of the selection, in x, then y, then z
/// order, and mark those tiles as pending.
pub fn add_dig_tasks(tasks: &mut Vec<Task>, map: &mut TileMap, selector: TilesSelector)
    requires
        old(map)@.wf(),
    ensures
        dig_tasks_added(old(map)@, final(map)@, old(tasks)@, final(tasks)@, selector),
{
    let ghost m0 = map@;
    let (lo, hi) = rotate_selector(selector);
    let size = map.size();
    let xs = if lo.0 < 0 { 0 } else { lo.0 };
    let ys = if lo.1 < 0 { 0 } else { lo.1 };
    let zs = if lo.2 < 0 { 0 } else { lo.2 };
    let xe = if hi.0 < size.0 - 1 { hi.0 } else { size.0 - 1 };
    let ye = if hi.1 < size.1 - 1 { hi.1 } else { size.1 - 1 };
    let ze = if hi.2 < size.2 - 1 { hi.2 } else { size.2 - 1 };
    proof {
        assert forall|i: int| 0 <= i < m0.tiles.len() implies #[trigger] map@.tiles[i] == marked_tile(m0, lo, hi, i,
            processed(lo, hi, m0, pos_of_index(m0, i), (xs, ys, zs))) by {
            crate::map::lemma_index_of_pos(m0, i);
        };
    }
    let mut x: i32 = xs;
    while x <= xe
        invariant
            xs <= x <= xe + 1 || (x == xs && xs > xe),
            old(tasks)@.len() <= tasks@.len(),
            tasks@.subrange(0, old(tasks)@.len() as int) == old(tasks)@,
            map@.wf(),
            map@.same_shape(m0),
            map@.tiles.len() == m0.tiles.len(),
            m0 == old(map)@,
            m0.wf(),
            m0.xlen <= i32::MAX && m0.ylen <= i32::MAX && m0.zlen <= i32::MAX,
m0.xlen <= i32::MAX && m0.ylen <= i32::MAX && m0.zlen <= i32::MAX,
            (lo, hi) == normalized(selector),
            xs == crate::geometry::max_of(lo.0 as int, 0),
            ys == crate::geometry::max_of(lo.1 as int, 0),
            zs == crate::geometry::max_of(lo.2 as int, 0),
            xe == crate::geometry::min_of(hi.0 as int, m0.xlen - 1),
            ye == crate::geometry::min_of(hi.1 as int, m0.ylen - 1),
            ze == crate::geometry::min_of(hi.2 as int, m0.zlen - 1),
            forall|k: int| old(tasks)@.len() <= k < tasks@.len() ==> new_task_ok(m0, lo, hi, #[trigger] tasks@[k]),
            forall|k: int| old(tasks)@.len() <= k < tasks@.len() ==> lex_lt(dig_pos(#[trigger] tasks@[k]), (x, ys, zs)),
            forall|k1: int, k2: int| old(tasks)@.len() <= k1 < k2 < tasks@.len() ==> lex_lt(dig_pos(#[trigger] tasks@[k1]), dig_pos(#[trigger] tasks@[k2])),
            forall|p: Pos| in_box(lo, hi, p) && #[trigger] m0.diggable(p) && processed(lo, hi, m0, p, (x, ys, zs)) ==> exists|k: int| old(tasks)@.len() <= k < tasks@.len() && #[trigger] tasks@[k] == Task::dig_spec(p),
            forall|i: int| 0 <= i < m0.tiles.len() ==> #[trigger] map@.tiles[i] == marked_tile(m0, lo, hi, i, processed(lo, hi, m0, pos_of_index(m0, i), (x, ys, zs))),
        decreases xe - x + 1,
    {
        let mut y: i32 = ys;
        while y <= ye
            invariant
                xs <= x <= xe,
                ys <= y <= ye + 1 || (y == ys && ys > ye),
                old(tasks)@.len() <= tasks@.len(),
                tasks@.subrange(0, old(tasks)@.len() as int) == old(tasks)@,
                map@.wf(),
                map@.same_shape(m0),
                map@.tiles.len() == m0.tiles.len(),
                m0 == old(map)@,
                m0.wf(),
                m0.xlen <= i32::MAX && m0.ylen <= i32::MAX && m0.zlen <= i32::MAX,
m0.xlen <= i32::MAX && m0.ylen <= i32::MAX && m0.zlen <= i32::MAX,
                (lo, hi) == normalized(selector),
                xs == crate::geometry::max_of(lo.0 as int, 0),
                ys == crate::geometry::max_of(lo.1 as int, 0),
                zs == crate::geometry::max_of(lo.2 as int, 0),
                xe == crate::geometry::min_of(hi.0 as int, m0.xlen - 1),
                ye == crate::geometry::min_of(hi.1 as int, m0.ylen - 1),
                ze == crate::geometry::min_of(hi.2 as int, m0.zlen - 1),
                forall|k: int| old(tasks)@.len() <= k < tasks@.len() ==> new_task_ok(m0, lo, hi, #[trigger] tasks@[k]),
                forall|k: int| old(tasks)@.len() <= k < tasks@.len() ==> lex_lt(dig_pos(#[trigger] tasks@[k]), (x, y, zs)),
                forall|k1: int, k2: int| old(tasks)@.len() <= k1 < k2 < tasks@.len() ==> lex_lt(dig_pos(#[trigger] tasks@[k1]), dig_pos(#[trigger] tasks@[k2])),
                forall|p: Pos| in_box(lo, hi, p) && #[trigger] m0.diggable(p) && processed(lo, hi, m0, p, (x, y, zs)) ==> exists|k: int| old(tasks)@.len() <= k < tasks@.len() && #[trigger] tasks@[k] == Task::dig_spec(p),
                forall|i: int| 0 <= i < m0.tiles.len() ==> #[trigger] map@.tiles[i] == marked_tile(m0, lo, hi, i, processed(lo, hi, m0, pos_of_index(m0, i), (x, y, zs))),
            decreases ye - y + 1,
        {
            let mut z: i32 = zs;
            while z <= ze
                invariant
                    xs <= x <= xe,
                    ys <= y <= ye,
                    zs <= z <= ze + 1 || (z == zs && zs > ze),
                    old(tasks)@.len() <= tasks@.len(),
                    tasks@.subrange(0, old(tasks)@.len() as int) == old(tasks)@,
                    map@.wf(),
                    map@.same_shape(m0),
                    map@.tiles.len() == m0.tiles.len(),
                    m0 == old(map)@,
                    m0.wf(),
                    m0.xlen <= i32::MAX && m0.ylen <= i32::MAX && m0.zlen <= i32::MAX,
m0.xlen <= i32::MAX && m0.ylen <= i32::MAX && m0.zlen <= i32::MAX,
                    (lo, hi) == normalized(selector),
                    xs == crate::geometry::max_of(lo.0 as int, 0),
                    ys == crate::geometry::max_of(lo.1 as int, 0),
                    zs == crate::geometry::max_of(lo.2 as int, 0),
                    xe == crate::geometry::min_of(hi.0 as int, m0.xlen - 1),
                    ye == crate::geometry::min_of(hi.1 as int, m0.ylen - 1),
                    ze == crate::geometry::min_of(hi.2 as int, m0.zlen - 1),
                    forall|k: int| old(tasks)@.len() <= k < tasks@.len() ==> new_task_ok(m0, lo, hi, #[trigger] tasks@[k]),
                    forall|k: int| old(tasks)@.len() <= k < tasks@.len() ==> lex_lt(dig_pos(#[trigger] tasks@[k]), (x, y, z)),
                    forall|k1: int, k2: int| old(tasks)@.len() <= k1 < k2 < tasks@.len() ==> lex_lt(dig_pos(#[trigger] tasks@[k1]), dig_pos(#[trigger] tasks@[k2])),
                    forall|p: Pos| in_box(lo, hi, p) && #[trigger] m0.diggable(p) && processed(lo, hi, m0, p, (x, y, z)) ==> exists|k: int| old(tasks)@.len() <= k < tasks@.len() && #[trigger] tasks@[k] == Task::dig_spec(p),
                    forall|i: int| 0 <= i < m0.tiles.len() ==> #[trigger] map@.tiles[i] == marked_tile(m0, lo, hi, i, processed(lo, hi, m0, pos_of_index(m0, i), (x, y, z))),
                decreases ze - z + 1,
            {
                let p = (x, y, z);
                let ghost before = map@;
                let ghost tasks_before = tasks@;
                proof {
                    crate::map::lemma_pos_of_index(m0, p);
                    crate::map::lemma_index_bound(x as int, y as int, z as int, m0.xlen, m0.ylen, m0.zlen);
                    assert(map@.tiles[m0.index(p)] == m0.tiles[m0.index(p)]);
                    assert(map@.tile(p) == m0.tile(p));
                }
                if map.diggable(p) {
                    map.mark(p);
                    tasks.push(Task::dig(p));
                    proof {
                        assert(m0.diggable(p));
                        assert(tasks@.subrange(0, old(tasks)@.len() as int) =~= tasks_before.subrange(0, old(tasks)@.len() as int));
                        assert forall|q: Pos| in_box(lo, hi, q) && #[trigger] m0.diggable(q) && processed(lo, hi, m0, q, (x, y, (z + 1) as i32))
                            implies exists|k: int| old(tasks)@.len() <= k < tasks@.len() && #[trigger] tasks@[k] == Task::dig_spec(q) by {
                            if q == p {
                                assert(tasks@[tasks@.len() - 1] == Task::dig_spec(q));
                            } else {
                                let k = choose|k: int| old(tasks)@.len() <= k < tasks_before.len() && #[trigger] tasks_before[k] == Task::dig_spec(q);
                                assert(tasks@[k] == Task::dig_spec(q));
                            }
                        };
                        assert forall|i: int| 0 <= i < m0.tiles.len() implies #[trigger] map@.tiles[i] == marked_tile(m0, lo, hi, i,
                            processed(lo, hi, m0, pos_of_index(m0, i), (x, y, (z + 1) as i32))) by {
                            crate::map::lemma_index_of_pos(m0, i);
                            if pos_of_index(m0, i) == p {
                                assert(i == m0.index(p));
                            } else {
                                assert(i != m0.index(p));
                            }
                        };
                    }
                } else {
                    proof {
                        assert forall|i: int| 0 <= i < m0.tiles.len() implies #[trigger] map@.tiles[i] == marked_tile(m0, lo, hi, i,
                            processed(lo, hi, m0, pos_of_index(m0, i), (x, y, (z + 1) as i32))) by {
                            crate::map::lemma_index_of_pos(m0, i);
                            crate::map::lemma_pos_of_index(m0, p);
                        };
                    }
                }
                z += 1;
            }
            y += 1;
        }
        x += 1;
    }
    proof {
        assert forall|q: Pos| in_box(lo, hi, q) && #[trigger] m0.diggable(q) implies processed(lo, hi, m0, q, (x, ys, zs)) by {};
        assert forall|i: int| 0 <= i < m0.tiles.len() implies #[trigger] map@.tiles[i] == marked_tile(m0, lo, hi, i, true) by {
            crate::map::lemma_index_of_pos(m0, i);
        };
    }
}

} // verus!
