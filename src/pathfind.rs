//! Weighted shortest paths over the map's passability.

use std::collections::VecDeque;
use vstd::prelude::*;
use pathfinding::directed::fringe::fringe;
use crate::actions::{Action, ActionType, Actions};
use crate::entity::Entity;
use crate::geometry::{abs_of, ground_dist, is_isqrt, sq_dist, Pos, Ticks};
use crate::map::{MapModel, Mode, TileMap};
use crate::template::{movement_speed, movement_speed_of, CreatureMap};

verus! {

/// Cost of an orthogonal step.
pub const UNIT_DIST: i64 = 100;

/// Cost of a diagonal step: the unit cost times the square root of two, rounded.
pub const DIAG_DIST: i64 = 141;

/// `q` is one of the up to eight passable lateral neighbours of `p`.
pub open spec fn lateral_step(m: MapModel, p: Pos, q: Pos) -> bool {
    &&& lateral_pos(p, q)
    &&& m.passable(q)
}

/// `q` is one of the eight lateral neighbour positions of `p`.
pub open spec fn lateral_pos(p: Pos, q: Pos) -> bool {
    &&& q.2 == p.2
    &&& q != p
    &&& abs_of(q.0 - p.0) <= 1
    &&& abs_of(q.1 - p.1) <= 1
}

/// `q` is the level that the stair at `p` leads to.
pub open spec fn stair_pos(m: MapModel, p: Pos, q: Pos) -> bool {
    &&& q.0 == p.0 && q.1 == p.1
    &&& m.tile(p) matches Some(t)
    &&& ((t.mode == Mode::UpStairs && q.2 == p.2 - 1) || (t.mode == Mode::DownStairs && q.2 == p.2 + 1))
}

/// `q` is the passable level that the stair at `p` leads to.
pub open spec fn stair_step(m: MapModel, p: Pos, q: Pos) -> bool {
    &&& stair_pos(m, p, q)
    &&& m.passable(q)
}

/// One move of the search from `p` to `q`.
pub open spec fn is_step(m: MapModel, p: Pos, q: Pos) -> bool {
    lateral_step(m, p, q) || stair_step(m, p, q)
}

pub open spec fn step_cost(p: Pos, q: Pos) -> i64 {
    if q.0 != p.0 && q.1 != p.1 { DIAG_DIST } else { UNIT_DIST }
}

/// The search goal: the tile itself, or any tile one move away from it.
pub open spec fn reached(m: MapModel, p: Pos, goal: Pos, next_to: bool) -> bool {
    if next_to { is_step(m, goal, p) } else { p == goal }
}

/// A route: starts at `start`, moves one step at a time, ends at the goal.
pub open spec fn route_valid(m: MapModel, start: Pos, goal: Pos, next_to: bool, v: Seq<Pos>) -> bool {
    &&& v.len() >= 1
    &&& v[0] == start
    &&& reached(m, v.last(), goal, next_to)
    &&& forall|k: int| 0 <= k < v.len() - 1 ==> is_step(m, #[trigger] v[k], v[k + 1])
}

/// The cost of a route: the sum of its steps' costs.
pub open spec fn route_cost(v: Seq<Pos>) -> int
    decreases v.len(),
{
    if v.len() < 2 {
        0
    } else {
        route_cost(v.drop_last()) + step_cost(v[v.len() - 2], v.last())
    }
}

/// The route that the fringe search finds on this map.
pub uninterp spec fn fringe_route(m: MapModel, start: Pos, goal: Pos, next_to: bool) -> Option<Seq<Pos>>;

/// What is known of the search's result: a cheapest valid route when one exists,
/// and none otherwise.
pub open spec fn route_facts(m: MapModel, start: Pos, goal: Pos, next_to: bool) -> bool {
    match fringe_route(m, start, goal, next_to) {
        Some(v) => {
            &&& route_valid(m, start, goal, next_to, v)
            &&& v.no_duplicates()
            &&& forall|w: Seq<Pos>| #[trigger] route_valid(m, start, goal, next_to, w) ==> route_cost(v) <= route_cost(w)
        },
        None => forall|w: Seq<Pos>| !#[trigger] route_valid(m, start, goal, next_to, w),
    }
}

/// The moves along a route, the start left out.
pub open spec fn moves_of(route: Option<Seq<Pos>>, duration: Ticks) -> Seq<Action> {
    match route {
        Some(v) => if v.len() == 0 {
            Seq::empty()
        } else {
            v.subrange(1, v.len() as int).map_values(|p: Pos| Action { atype: ActionType::Move(p), duration })
        },
        None => Seq::empty(),
    }
}

/// The moves that `path` plans on `m`.
pub open spec fn path_of(m: MapModel, start: Pos, goal: Pos, next_to: bool, duration: Ticks) -> Seq<Action> {
    moves_of(fringe_route(m, start, goal, next_to), duration)
}

pub open spec fn move_target(a: Action) -> Pos {
    match a.atype {
        ActionType::Move(p) => p,
        _ => arbitrary(),
    }
}

/// Every tile next to `t` is impassable: its eight lateral neighbours and the
/// level its stair (if any) leads to.
pub open spec fn enclosed(m: MapModel, t: Pos) -> bool {
    forall|q: Pos| (lateral_pos(t, q) || stair_pos(m, t, q)) ==> !#[trigger] m.passable(q)
}

/// `t`'s eight lateral neighbours are impassable and no stair leads onto `t`.
pub open spec fn ringed(m: MapModel, t: Pos) -> bool {
    &&& forall|q: Pos| lateral_pos(t, q) ==> !#[trigger] m.passable(q)
    &&& forall|p: Pos| !#[trigger] stair_step(m, p, t)
}

/// `t` is impassable and no stair leads onto it.
pub open spec fn walled_in(m: MapModel, t: Pos) -> bool {
    &&& !m.passable(t)
    &&& forall|p: Pos| p.0 == t.0 && p.1 == t.1 ==> !#[trigger] stair_step(m, p, t)
}

fn try_lateral(map: &TileMap, pos: Pos, dx: i64, dy: i64, out: &mut Vec<(Pos, i64)>)
    requires
        map@.wf(),
        -1 <= dx <= 1,
        -1 <= dy <= 1,
        dx != 0 || dy != 0,
        forall|k: int| 0 <= k < old(out)@.len() ==> is_step(map@, pos, (#[trigger] old(out)@[k]).0)
            && old(out)@[k].1 == step_cost(pos, old(out)@[k].0),
    ensures
        forall|k: int| 0 <= k < final(out)@.len() ==> is_step(map@, pos, (#[trigger] final(out)@[k]).0)
            && final(out)@[k].1 == step_cost(pos, final(out)@[k].0),
        grows(old(out)@, final(out)@),
        forall|q: Pos| q.2 == pos.2 && q.0 == pos.0 + dx && q.1 == pos.1 + dy && map@.passable(q) ==> #[trigger] listed(
            final(out)@, q),
{
    let x = pos.0 as i64 + dx;
    let y = pos.1 as i64 + dy;
    if x < 0 || y < 0 || x > i32::MAX as i64 || y > i32::MAX as i64 {
        return;
    }
    let q = (x as i32, y as i32, pos.2);
    if map.passable(q) {
        let cost = if dx != 0 && dy != 0 { DIAG_DIST } else { UNIT_DIST };
        out.push((q, cost));
        assert(out@[out@.len() - 1].0 == q);
    }
}

/// `q` is among the positions of `v`.
pub open spec fn listed(v: Seq<(Pos, i64)>, q: Pos) -> bool {
    exists|k: int| 0 <= k < v.len() && (#[trigger] v[k]).0 == q
}

/// `v1` extends `v0`.
pub open spec fn grows(v0: Seq<(Pos, i64)>, v1: Seq<(Pos, i64)>) -> bool {
    &&& v0.len() <= v1.len()
    &&& forall|k: int| 0 <= k < v0.len() ==> #[trigger] v1[k] == v0[k]
}

proof fn lemma_listed_grows(v0: Seq<(Pos, i64)>, v1: Seq<(Pos, i64)>)
    requires
        grows(v0, v1),
    ensures
        forall|q: Pos| #[trigger] listed(v0, q) ==> listed(v1, q),
{
    assert forall|q: Pos| #[trigger] listed(v0, q) implies listed(v1, q) by {
        let k = choose|k: int| 0 <= k < v0.len() && (#[trigger] v0[k]).0 == q;
        assert(v1[k].0 == q);
    };
}

/// The moves out of `pos`, with their costs: every passable lateral neighbour,
/// and the passable level a stair leads to.
fn succ(map: &TileMap, pos: &Pos) -> (r: Vec<(Pos, i64)>)
    requires
        map@.wf(),
    ensures
        forall|k: int| 0 <= k < r@.len() ==> is_step(map@, *pos, (#[trigger] r@[k]).0) && r@[k].1 == step_cost(*pos, r@[k].0),
        forall|q: Pos| #[trigger] is_step(map@, *pos, q) ==> listed(r@, q),
{
    let p = *pos;
    let mut successors: Vec<(Pos, i64)> = Vec::new();
    let ghost s0 = successors@;
    try_lateral(map, p, -1, -1, &mut successors);
    let ghost s1 = successors@;
    try_lateral(map, p, -1, 0, &mut successors);
    let ghost s2 = successors@;
    proof { lemma_listed_grows(s1, s2); }
    try_lateral(map, p, -1, 1, &mut successors);
    let ghost s3 = successors@;
    proof { lemma_listed_grows(s2, s3); lemma_listed_grows(s1, s3); }
    try_lateral(map, p, 0, -1, &mut successors);
    let ghost s4 = successors@;
    proof { lemma_listed_grows(s3, s4); lemma_listed_grows(s2, s4); lemma_listed_grows(s1, s4); }
    try_lateral(map, p, 0, 1, &mut successors);
    let ghost s5 = successors@;
    proof { lemma_listed_grows(s4, s5); lemma_listed_grows(s3, s5); lemma_listed_grows(s2, s5); lemma_listed_grows(s1, s5); }
    try_lateral(map, p, 1, -1, &mut successors);
    let ghost s6 = successors@;
    proof {
        lemma_listed_grows(s5, s6); lemma_listed_grows(s4, s6); lemma_listed_grows(s3, s6);
        lemma_listed_grows(s2, s6); lemma_listed_grows(s1, s6);
    }
    try_lateral(map, p, 1, 0, &mut successors);
    let ghost s7 = successors@;
    proof {
        lemma_listed_grows(s6, s7); lemma_listed_grows(s5, s7); lemma_listed_grows(s4, s7);
        lemma_listed_grows(s3, s7); lemma_listed_grows(s2, s7); lemma_listed_grows(s1, s7);
    }
    try_lateral(map, p, 1, 1, &mut successors);
    let ghost s8 = successors@;
    proof {
        lemma_listed_grows(s7, s8); lemma_listed_grows(s6, s8); lemma_listed_grows(s5, s8);
        lemma_listed_grows(s4, s8); lemma_listed_grows(s3, s8); lemma_listed_grows(s2, s8);
        lemma_listed_grows(s1, s8);
        assert forall|q: Pos| #[trigger] lateral_step(map@, p, q) implies listed(s8, q) by {
            assert(listed(s1, q) || listed(s2, q) || listed(s3, q) || listed(s4, q) || listed(s5, q) || listed(s6, q)
                || listed(s7, q) || listed(s8, q));
        };
    }
    if let Some(tile) = map.get_tile(p) {
        match tile.mode {
            Mode::UpStairs => {
                let q = (p.0, p.1, p.2 - 1);
                if map.passable(q) {
                    successors.push((q, UNIT_DIST));
                    proof {
                        lemma_listed_grows(s8, successors@);
                        assert(successors@[successors@.len() - 1].0 == q);
                    }
                }
            },
            Mode::DownStairs => {
                if p.2 < i32::MAX {
                    let q = (p.0, p.1, p.2 + 1);
                    if map.passable(q) {
                        successors.push((q, UNIT_DIST));
                        proof {
                            lemma_listed_grows(s8, successors@);
                            assert(successors@[successors@.len() - 1].0 == q);
                        }
                    }
                }
            },
            _ => {},
        }
    }
    successors
}

/// The search's estimate of the cost left from `p`: the rounded-down distance to
/// the goal in tiles, one less when a tile next to the goal suffices. It never
/// exceeds the cost of a route, since each step costs at least a hundred and
/// covers at most one and a half tiles.
fn heuristic(p: &Pos, goal: &Pos, next_to: bool) -> (r: i64)
    ensures
        r >= 0,
        !next_to ==> is_isqrt(sq_dist(*p, *goal), r as int),
        next_to ==> (exists|d: int| is_isqrt(sq_dist(*p, *goal), d) && r == if d > 0 { d - 1 } else { 0 }),
{
    let d = ground_dist(p, goal);
    if next_to {
        if d > 0 { d - 1 } else { 0 }
    } else {
        d
    }
}

fn is_step_exec(map: &TileMap, p: &Pos, q: &Pos) -> (r: bool)
    requires
        map@.wf(),
    ensures
        r == is_step(map@, *p, *q),
{
    let dx = q.0 as i64 - p.0 as i64;
    let dy = q.1 as i64 - p.1 as i64;
    let lateral = q.2 == p.2 && !(dx == 0 && dy == 0) && -1 <= dx && dx <= 1 && -1 <= dy && dy <= 1
        && map.passable(*q);
    if lateral {
        return true;
    }
    if q.0 != p.0 || q.1 != p.1 {
        return false;
    }
    let on_stair = match map.get_tile(*p) {
        Some(t) => match t.mode {
            Mode::UpStairs => q.2 as i64 == p.2 as i64 - 1,
            Mode::DownStairs => q.2 as i64 == p.2 as i64 + 1,
            _ => false,
        },
        None => false,
    };
    on_stair && map.passable(*q)
}

/// Whether the search may stop at `p`.
fn goal_reached(map: &TileMap, p: &Pos, goal: &Pos, next_to: bool) -> (r: bool)
    requires
        map@.wf(),
    ensures
        r == reached(map@, *p, *goal, next_to),
{
    if next_to {
        is_step_exec(map, goal, p)
    } else {
        p.0 == goal.0 && p.1 == goal.1 && p.2 == goal.2
    }
}

/// Relies on pathfinding::directed::fringe::fringe: with successors and costs
/// from `succ` and an estimate from `heuristic` that never exceeds the real
/// cost left, it returns a cheapest path from `start` to a node the goal test
/// accepts, start and end included, every node a successor of the one before and
/// none twice; `None` exactly when no such path exists. The search is
/// deterministic in its arguments.
#[verifier::external_body]
fn fringe_search(map: &TileMap, start: Pos, goal: Pos, next_to: bool) -> (r: Option<Vec<Pos>>)
    requires
        map@.wf(),
    ensures
        match r {
            Some(v) => fringe_route(map@, start, goal, next_to) == Some(v@) && route_facts(map@, start, goal, next_to),
            None => fringe_route(map@, start, goal, next_to) is None && route_facts(map@, start, goal, next_to),
        },
{
    fringe(
        &start,
        |p| succ(map, p),
        |p| heuristic(p, &goal, next_to),
        |p| goal_reached(map, p, &goal, next_to),
    ).map(|found| found.0)
}

/// The moves along a found route, each taking `duration`, the start left out.
pub fn route_to_moves(route: Option<Vec<Pos>>, duration: Ticks) -> (r: Actions)
    ensures
        r@ == moves_of(
            match route {
                Some(v) => Some(v@),
                None => None,
            },
            duration,
        ),
{
    let mut actions: Actions = VecDeque::new();
    match route {
        None => {},
        Some(v) => {
            if v.len() == 0 {
                return actions;
            }
            let ghost want = moves_of(Some(v@), duration);
            let mut i: usize = 1;
            assert(actions@ =~= v@.subrange(1, 1).map_values(|p: Pos| Action { atype: ActionType::Move(p), duration }));
            while i < v.len()
                invariant
                    1 <= i <= v@.len(),
                    want == moves_of(Some(v@), duration),
                    actions@ =~= v@.subrange(1, i as int).map_values(|p: Pos| Action { atype: ActionType::Move(p), duration }),
                decreases v@.len() - i,
            {
                actions.push_back(Action { atype: ActionType::Move(v[i]), duration });
                i += 1;
                assert(actions@ =~= v@.subrange(1, i as int).map_values(|p: Pos| Action { atype: ActionType::Move(p), duration }));
            }
            assert(actions@ =~= want);
        },
    }
    actions
}

/// Plan the moves of `ent` towards `end_pos` (or, with `next_to`, towards any
/// tile one move away from it), each step taking the creature kind's movement
/// time: the moves of a cheapest route, or none when the goal cannot be reached.
pub fn path(map: &TileMap, ent: &Entity, creature_types: &CreatureMap, end_pos: Pos, next_to: bool) -> (r: Actions)
    requires
        map@.wf(),
    ensures
        r@ == path_of(map@, ent.pos, end_pos, next_to, movement_speed_of(creature_types@, ent.creature_id)),
        route_facts(map@, ent.pos, end_pos, next_to),
        r@.len() > 0 ==> is_step(map@, ent.pos, move_target(r@[0])),
        forall|i: int| 1 <= i < r@.len() ==> is_step(map@, move_target(r@[i - 1]), move_target(#[trigger] r@[i])),
        forall|i: int| 0 <= i < r@.len() ==> (#[trigger] r@[i]).atype is Move && r@[i].duration == movement_speed_of(
            creature_types@, ent.creature_id),
        r@.len() > 0 ==> reached(map@, move_target(r@.last()), end_pos, next_to),
        (exists|w: Seq<Pos>| route_valid(map@, ent.pos, end_pos, next_to, w)) && !reached(map@, ent.pos, end_pos, next_to)
            ==> r@.len() > 0,
        next_to && enclosed(map@, end_pos) ==> r@.len() == 0,
        !next_to && ent.pos != end_pos && walled_in(map@, end_pos) ==> r@.len() == 0,
        !next_to && ent.pos != end_pos && !lateral_pos(end_pos, ent.pos) && ringed(map@, end_pos) ==> r@.len() == 0,
{
    let route = fringe_search(map, ent.pos, end_pos, next_to);
    let duration = movement_speed(&ent.creature_id, creature_types);
    let ghost m = map@;
    let ghost start = ent.pos;
    proof {
        if let Some(ref v) = route {
            let s = v@;
            let moves = moves_of(Some(s), duration);
            assert forall|i: int| 0 <= i < moves.len() implies move_target(#[trigger] moves[i]) == s[i + 1]
                && moves[i].atype is Move && moves[i].duration == duration by {};
            assert forall|i: int| 1 <= i < moves.len() implies is_step(m, move_target(moves[i - 1]), move_target(#[trigger] moves[i])) by {
                assert(move_target(moves[i - 1]) == s[i]);
                assert(is_step(m, s[i], s[i + 1]));
            };
            if moves.len() > 0 {
                assert(move_target(moves[0]) == s[1]);
                assert(is_step(m, s[0], s[1]));
                assert(move_target(moves.last()) == s.last());
            }
            if !reached(m, start, end_pos, next_to) {
                assert(s.len() >= 2);
            }
            if next_to && enclosed(m, end_pos) {
                assert(is_step(m, end_pos, s.last()));
                assert(lateral_pos(end_pos, s.last()) || stair_pos(m, end_pos, s.last()));
            }
            if !next_to && start != end_pos {
                let k = s.len() - 2;
                assert(is_step(m, s[k], s[k + 1]));
                if walled_in(m, end_pos) {
                    assert(!stair_step(m, s[k], end_pos));
                }
                if !lateral_pos(end_pos, start) && ringed(m, end_pos) {
                    assert(!stair_step(m, s[k], end_pos));
                    assert(lateral_pos(end_pos, s[k]));
                    assert(!m.passable(s[k]));
                    if k > 0 {
                        assert(is_step(m, s[k - 1], s[k]));
                    }
                }
            }
        }
    }
    route_to_moves(route, duration)
}

/// Plan the moves of `ent` onto `end_pos`.
pub fn path_to(map: &TileMap, ent: &Entity, creature_types: &CreatureMap, end_pos: Pos) -> (r: Actions)
    requires
        map@.wf(),
    ensures
        r@ == path_of(map@, ent.pos, end_pos, false, movement_speed_of(creature_types@, ent.creature_id)),
        route_facts(map@, ent.pos, end_pos, false),
        r@.len() > 0 ==> is_step(map@, ent.pos, move_target(r@[0])) && move_target(r@.last()) == end_pos,
        forall|i: int| 1 <= i < r@.len() ==> is_step(map@, move_target(r@[i - 1]), move_target(#[trigger] r@[i])),
        forall|i: int| 0 <= i < r@.len() ==> (#[trigger] r@[i]).atype is Move && r@[i].duration == movement_speed_of(
            creature_types@, ent.creature_id),
        (exists|w: Seq<Pos>| route_valid(map@, ent.pos, end_pos, false, w)) && ent.pos != end_pos ==> r@.len() > 0,
        ent.pos != end_pos && walled_in(map@, end_pos) ==> r@.len() == 0,
        ent.pos != end_pos && !lateral_pos(end_pos, ent.pos) && ringed(map@, end_pos) ==> r@.len() == 0,
{
    path(map, ent, creature_types, end_pos, false)
}

/// Plan the moves of `ent` onto a passable tile one move away from `end_pos`.
pub fn path_next_to(map: &TileMap, ent: &Entity, creature_types: &CreatureMap, end_pos: Pos) -> (r: Actions)
    requires
        map@.wf(),
    ensures
        r@ == path_of(map@, ent.pos, end_pos, true, movement_speed_of(creature_types@, ent.creature_id)),
        route_facts(map@, ent.pos, end_pos, true),
        r@.len() > 0 ==> is_step(map@, ent.pos, move_target(r@[0])) && is_step(map@, end_pos, move_target(r@.last())),
        forall|i: int| 1 <= i < r@.len() ==> is_step(map@, move_target(r@[i - 1]), move_target(#[trigger] r@[i])),
        forall|i: int| 0 <= i < r@.len() ==> (#[trigger] r@[i]).atype is Move && r@[i].duration == movement_speed_of(
            creature_types@, ent.creature_id),
        (exists|w: Seq<Pos>| route_valid(map@, ent.pos, end_pos, true, w)) && !is_step(map@, end_pos, ent.pos) ==> r@.len() > 0,
        enclosed(map@, end_pos) ==> r@.len() == 0,
{
    path(map, ent, creature_types, end_pos, true)
}

/// The planned path depends on nothing but the map (its tiles, extents and
/// materials), the start, the goal and the step time.
pub proof fn lemma_path_deterministic(m1: MapModel, m2: MapModel, start: Pos, goal: Pos, next_to: bool, duration: Ticks)
    requires
        m1.tiles == m2.tiles,
        m1.xlen == m2.xlen && m1.ylen == m2.ylen && m1.zlen == m2.zlen,
        m1.materials == m2.materials,
    ensures
        path_of(m1, start, goal, next_to, duration) == path_of(m2, start, goal, next_to, duration),
{
    assert(m1 == m2);
}

} // verus!
