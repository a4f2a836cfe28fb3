//! Entities and the per-tick execution of their actions.

use std::collections::VecDeque;
use vstd::prelude::*;
use crate::actions::{priority_of, Action, ActionType, Actions, AttackType, Goal, Task};
use crate::geometry::{adjacent, is_adjacent, Pos, PlayerID, TeamID, Ticks};
use crate::map::{MapModel, TileMap};
use crate::pathfind::{path_next_to, path_of};
use crate::template::{dig_speed_of, movement_speed_of, Creature, CreatureID, CreatureMap};

verus! {

pub type EntID = i64;
pub type EntIDs = Vec<EntID>;
pub type Entities = Vec<Entity>;
pub type EntSnaps = Vec<EntSnap>;
pub type Health = i32;

/// Health a new entity starts with.
pub const START_HEALTH: Health = 100;

/// Damage one attack deals.
pub const ATTACK_DAMAGE: Health = 40;

pub struct Entity {
    /// Unique to each entity.
    pub id: EntID,
    /// The creature kind, for property lookups.
    pub creature_id: CreatureID,
    pub pos: Pos,
    /// The team the entity belongs to; none once dead.
    pub team_id: TeamID,
    /// Queued actions, front first.
    pub actions: Actions,
    /// What the entity persistently wants to do.
    pub goal: Option<Goal>,
    pub health: Health,
    pub alive: bool,
    /// Ticks spent so far on the front action.
    pub timer: Ticks,
}

/// An entity as a value: its fields, with the queue as a sequence.
pub ghost struct EntityView {
    pub id: EntID,
    pub creature_id: CreatureID,
    pub pos: Pos,
    pub team_id: TeamID,
    pub actions: Seq<Action>,
    pub goal: Option<Goal>,
    pub health: Health,
    pub alive: bool,
    pub timer: Ticks,
}

impl View for Entity {
    type V = EntityView;

    open spec fn view(&self) -> EntityView {
        EntityView {
            id: self.id,
            creature_id: self.creature_id,
            pos: self.pos,
            team_id: self.team_id,
            actions: self.actions@,
            goal: self.goal,
            health: self.health,
            alive: self.alive,
            timer: self.timer,
        }
    }
}

pub open spec fn views(ents: Seq<Entity>) -> Seq<EntityView> {
    ents.map_values(|e: Entity| e@)
}

/// The part of an entity that is sent to clients.
#[derive(Clone, Copy, Debug, PartialEq, Eq)]
pub struct EntSnap {
    pub id: EntID,
    pub creature_id: CreatureID,
    pub pos: Pos,
    pub team_id: TeamID,
    pub health: Health,
    pub alive: bool,
}

/// Health after one attack, saturating at the type's minimum.
pub open spec fn hit(h: Health) -> Health {
    if h >= Health::MIN + ATTACK_DAMAGE { (h - ATTACK_DAMAGE) as Health } else { Health::MIN }
}

/// Index of the first entity from `k` on, other than `skip`, with id `id`.
pub open spec fn first_with_id(es: Seq<EntityView>, id: EntID, skip: int, k: int) -> Option<int>
    decreases es.len() - k,
{
    if k >= es.len() || k < 0 {
        None
    } else if k != skip && es[k].id == id {
        Some(k)
    } else {
        first_with_id(es, id, skip, k + 1)
    }
}

/// The entities after one attack from `from` on the first entity (other than
/// `skip`) with id `target`: it loses health if it stands adjacent.
pub open spec fn struck(es: Seq<EntityView>, from: Pos, target: EntID, skip: int) -> Seq<EntityView> {
    match first_with_id(es, target, skip, 0) {
        Some(j) => if adjacent(from, es[j].pos) {
            es.update(j, EntityView { health: hit(es[j].health), ..es[j] })
        } else {
            es
        },
        None => es,
    }
}

pub proof fn lemma_first_with_id_bound(es: Seq<EntityView>, id: EntID, skip: int, k: int)
    ensures
        first_with_id(es, id, skip, k) matches Some(j) ==> 0 <= j < es.len() && j != skip && es[j].id == id,
    decreases es.len() - k,
{
    if !(k >= es.len() || k < 0) && !(k != skip && es[k].id == id) {
        lemma_first_with_id_bound(es, id, skip, k + 1);
    }
}

proof fn lemma_first_with_id_skip(es: Seq<EntityView>, id: EntID, s1: int, s2: int, k: int)
    requires
        !(0 <= s1 < es.len()),
        !(0 <= s2 < es.len()),
    ensures
        first_with_id(es, id, s1, k) == first_with_id(es, id, s2, k),
    decreases es.len() - k,
{
    if !(k >= es.len() || k < 0) {
        lemma_first_with_id_skip(es, id, s1, s2, k + 1);
    }
}

/// Index of the first entity other than `skip` with id `id`.
fn find_other(ents: &Vec<Entity>, id: EntID, skip: usize) -> (r: Option<usize>)
    ensures
        match r {
            Some(j) => first_with_id(views(ents@), id, skip as int, 0) == Some(j as int) && j < ents@.len(),
            None => first_with_id(views(ents@), id, skip as int, 0) is None,
        },
{
    let mut k: usize = 0;
    while k < ents.len()
        invariant
            k <= ents@.len(),
            first_with_id(views(ents@), id, skip as int, 0) == first_with_id(views(ents@), id, skip as int, k as int),
        decreases ents@.len() - k,
    {
        if k != skip && ents[k].id == id {
            return Some(k);
        }
        k += 1;
    }
    None
}

/// Attack from `from` on the first entity other than `skip` with id `target`.
fn strike(ents: &mut Vec<Entity>, from: Pos, target: EntID, skip: usize)
    ensures
        views(final(ents)@) == struck(views(old(ents)@), from, target, skip as int),
{
    let ghost es = views(ents@);
    if let Some(j) = find_other(ents, target, skip) {
        if is_adjacent(&from, &ents[j].pos) {
            let h = ents[j].health;
            let nh = if h >= Health::MIN + ATTACK_DAMAGE { h - ATTACK_DAMAGE } else { Health::MIN };
            ents[j].health = nh;
            assert(views(ents@) =~= es.update(j as int, EntityView { health: hit(es[j as int].health), ..es[j as int] }));
        }
    }
}

impl Entity {
    pub open spec fn new_spec(id: EntID, creature_id: CreatureID, pos: Pos, team_id: PlayerID) -> EntityView {
        EntityView {
            id,
            creature_id,
            pos,
            team_id: Some(team_id),
            actions: Seq::empty(),
            goal: None,
            health: START_HEALTH,
            alive: true,
            timer: 0,
        }
    }

    /// A fresh, idle, living entity of the team.
    pub fn new(id: EntID, creature_id: CreatureID, pos: Pos, team_id: PlayerID) -> (r: Entity)
        ensures
            r@ == Entity::new_spec(id, creature_id, pos, team_id),
    {
        Entity {
            id: id,
            creature_id: creature_id,
            pos: pos,
            team_id: Some(team_id),
            actions: VecDeque::new(),
            goal: None,
            health: START_HEALTH,
            alive: true,
            timer: 0,
        }
    }

    /// What clients see of the entity.
    pub fn snap(&self) -> (r: EntSnap)
        ensures
            r == (EntSnap {
                id: self.id,
                creature_id: self.creature_id,
                pos: self.pos,
                team_id: self.team_id,
                health: self.health,
                alive: self.alive,
            }),
    {
        EntSnap {
            id: self.id,
            creature_id: self.creature_id,
            pos: self.pos,
            team_id: self.team_id,
            health: self.health,
            alive: self.alive,
        }
    }

    /// Attack the first of `ents` with id `target_id`: it loses health if it
    /// stands adjacent to this entity.
    pub fn attack(&self, target_id: EntID, ents: &mut Vec<Entity>, attack_type: AttackType)
        ensures
            views(final(ents)@) == struck(views(old(ents)@), self.pos, target_id, -1),
    {
        let ghost es = views(ents@);
        let n = ents.len();
        assert(n < usize::MAX + 1);
        proof { lemma_first_with_id_skip(es, target_id, usize::MAX as int, -1, 0); }
        if let Some(j) = find_other(ents, target_id, usize::MAX) {
            if is_adjacent(&self.pos, &ents[j].pos) {
                let h = ents[j].health;
                let nh = if h >= Health::MIN + ATTACK_DAMAGE { h - ATTACK_DAMAGE } else { Health::MIN };
                ents[j].health = nh;
                assert(views(ents@) =~= es.update(j as int, EntityView { health: hit(es[j as int].health), ..es[j as int] }));
            }
        }
    }

    /// Whether the other entity is within one tile on every axis.
    pub fn is_adjacent(&self, ent: &Entity) -> (r: bool)
        ensures
            r == adjacent(self.pos, ent.pos),
    {
        is_adjacent(&self.pos, &ent.pos)
    }
}

/// What a tick changed, for selective updates to clients.
pub enum Change {
    TileChange(Pos),
    EntChange(EntID),
}

/// Whether the entity is to be treated as dead.
pub open spec fn is_dead(e: EntityView) -> bool {
    e.health < 0 || !e.alive
}

/// A dead entity: not alive, without a team, goal or queued actions.
pub open spec fn buried(e: EntityView) -> EntityView {
    EntityView { alive: false, team_id: None, goal: None, actions: Seq::empty(), ..e }
}

/// Every entity with negative health or already dead, buried.
pub open spec fn dead_resolved(es: Seq<EntityView>) -> Seq<EntityView> {
    es.map_values(|e: EntityView| if is_dead(e) { buried(e) } else { e })
}

/// Mark every entity with negative health or already dead as dead, detached
/// from its team, with its goal and queue cleared.
pub fn resolve_dead(entities: &mut Vec<Entity>)
    ensures
        final(entities)@.len() == old(entities)@.len(),
        views(final(entities)@) == dead_resolved(views(old(entities)@)),
        forall|i: int| 0 <= i < old(entities)@.len() ==> (#[trigger] final(entities)@[i])@ == if is_dead(
            old(entities)@[i]@) {
            buried(old(entities)@[i]@)
        } else {
            old(entities)@[i]@
        },
{
    let mut i: usize = 0;
    while i < entities.len()
        invariant
            i <= entities@.len(),
            entities@.len() == old(entities)@.len(),
            forall|k: int| 0 <= k < entities@.len() ==> (#[trigger] entities@[k])@ == if k < i && is_dead(
                old(entities)@[k]@) {
                buried(old(entities)@[k]@)
            } else {
                old(entities)@[k]@
            },
        decreases entities@.len() - i,
    {
        if entities[i].health < 0 || !entities[i].alive {
            entities[i].alive = false;
            entities[i].team_id = None;
            entities[i].goal = None;
            entities[i].actions.clear();
        }
        i += 1;
    }
    assert(views(entities@) =~= dead_resolved(views(old(entities)@)));
}

/// Entity `i`'s share of a tick over entities `es`, map `m` and changes `cs`:
/// its timer advances while the front action is in flight; once it reaches the
/// action's duration the effect applies, the action is popped and the timer reset.
pub open spec fn step_entity(es: Seq<EntityView>, m: MapModel, cs: Seq<Change>, i: int) -> (Seq<EntityView>, MapModel, Seq<Change>) {
    let e = es[i];
    if e.actions.len() == 0 {
        (es, m, cs)
    } else {
        let act = e.actions[0];
        if act.duration > e.timer {
            (es.update(i, EntityView { timer: (e.timer + 1) as Ticks, ..e }), m, cs)
        } else {
            let e0 = EntityView { timer: 0, actions: e.actions.subrange(1, e.actions.len() as int), ..e };
            match act.atype {
                ActionType::Move(p) => (es.update(i, EntityView { pos: p, ..e0 }), m, cs),
                ActionType::Dig(p) => (es.update(i, e0), m.dug(p), cs.push(Change::TileChange(p))),
                ActionType::Attack(_, target) => (struck(es.update(i, e0), e.pos, target, i), m, cs),
                ActionType::Wait => (es.update(i, e0), m, cs),
            }
        }
    }
}

/// The first `k` entities' shares of a tick, in order.
pub open spec fn run_actions(es: Seq<EntityView>, m: MapModel, k: int) -> (Seq<EntityView>, MapModel, Seq<Change>)
    decreases k,
{
    if k <= 0 {
        (es, m, Seq::empty())
    } else {
        let (es1, m1, cs1) = run_actions(es, m, k - 1);
        step_entity(es1, m1, cs1, k - 1)
    }
}

pub proof fn lemma_run_actions_len(es: Seq<EntityView>, m: MapModel, k: int)
    requires
        k <= es.len(),
    ensures
        run_actions(es, m, k).0.len() == es.len(),
{
    lemma_run_len(es, m, k);
}

/// Claiming keeps the number of entities.
pub proof fn lemma_claim_run_len(m: MapModel, types: Map<CreatureID, Creature>, team: TeamID, es: Seq<EntityView>, ts: Seq<Task>, k: int)
    requires
        0 <= k <= es.len(),
    ensures
        claim_run(m, types, team, es, ts, k).0.len() == es.len(),
{
    lemma_claim_run(m, types, team, es, ts, k);
}

proof fn lemma_run_len(es: Seq<EntityView>, m: MapModel, k: int)
    requires
        k <= es.len(),
    ensures
        run_actions(es, m, k).0.len() == es.len(),
        m.wf() ==> run_actions(es, m, k).1.wf() && run_actions(es, m, k).1.same_shape(m),
    decreases k,
{
    if k > 0 {
        lemma_run_len(es, m, k - 1);
        let (es1, m1, cs1) = run_actions(es, m, k - 1);
        if 0 <= k - 1 < es1.len() {
            let e = es1[k - 1];
            if e.actions.len() > 0 {
                match e.actions[0].atype {
                    ActionType::Dig(p) => {
                        if m.wf() {
                            crate::map::lemma_dug_shape(m1, p);
                        }
                    },
                    ActionType::Attack(_, target) => {
                        lemma_first_with_id_bound(es1.update(k - 1, EntityView { timer: 0, actions: e.actions.subrange(1, e.actions.len() as int), ..e }), target, k - 1, 0);
                    },
                    _ => {},
                }
            }
        }
    }
}

/// Advance every entity's front action by one tick, in order, applying the
/// effects of those that complete. Returns the tiles that were dug.
pub fn do_actions(entities: &mut Vec<Entity>, map: &mut TileMap) -> (r: Vec<Change>)
    requires
        old(map)@.wf(),
    ensures
        (views(final(entities)@), final(map)@, r@) == run_actions(views(old(entities)@), old(map)@, old(entities)@.len() as int),
        final(map)@.wf(),
{
    let mut changes: Vec<Change> = Vec::new();
    let ent_len = entities.len();
    let ghost es0 = views(entities@);
    let ghost m0 = map@;
    let mut i: usize = 0;
    while i < ent_len
        invariant
            ent_len == old(entities)@.len(),
            entities@.len() == ent_len,
            es0 == views(old(entities)@),
            es0.len() == ent_len,
            m0 == old(map)@,
            m0.wf(),
            map@.wf(),
            i <= ent_len,
            (views(entities@), map@, changes@) == run_actions(es0, m0, i as int),
        decreases ent_len - i,
    {
        let ghost es1 = views(entities@);
        let ghost m1 = map@;
        let ghost cs1 = changes@;
        proof { lemma_run_len(es0, m0, i as int + 1); }
        if entities[i].actions.len() > 0 {
            let act = entities[i].actions[0];
            if act.duration > entities[i].timer {
                entities[i].timer = entities[i].timer + 1;
                assert(views(entities@) =~= step_entity(es1, m1, cs1, i as int).0);
            } else {
                let from = entities[i].pos;
                entities[i].timer = 0;
                let _ = entities[i].actions.pop_front();
                let ghost e0 = views(entities@);
                assert(e0 =~= es1.update(i as int, EntityView { timer: 0, actions: es1[i as int].actions.subrange(1, es1[i as int].actions.len() as int), ..es1[i as int] }));
                match act.atype {
                    ActionType::Move(pos) => {
                        entities[i].pos = pos;
                        assert(views(entities@) =~= step_entity(es1, m1, cs1, i as int).0);
                    },
                    ActionType::Dig(pos) => {
                        map.dig(pos);
                        changes.push(Change::TileChange(pos));
                    },
                    ActionType::Attack(_, target) => {
                        strike(entities, from, target, i);
                    },
                    ActionType::Wait => {},
                }
            }
        }
        i += 1;
    }
    changes
}

/// The queue that entity `e` takes on for a task: the moves to a tile next to the
/// dig target, then the dig; `None` when no such path exists or the task is no dig.
pub open spec fn plan_of(m: MapModel, types: Map<CreatureID, Creature>, e: EntityView, atype: ActionType) -> Option<Seq<Action>> {
    match atype {
        ActionType::Dig(pos) => {
            let moves = path_of(m, e.pos, pos, true, movement_speed_of(types, e.creature_id));
            if moves.len() > 0 {
                Some(moves.push(Action { atype: ActionType::Dig(pos), duration: dig_speed_of(types, e.creature_id) }))
            } else {
                None
            }
        },
        _ => None,
    }
}

/// The unowned task nearest to `from` among the first `k` (ties: the earliest).
pub open spec fn nearest_free(ts: Seq<Task>, from: Pos, k: int) -> Option<int>
    decreases k,
{
    if k <= 0 {
        None
    } else {
        let b = nearest_free(ts, from, k - 1);
        if ts[k - 1].owner is None && (b matches Some(j) ==> priority_of(ts[k - 1], from) < priority_of(ts[j], from)) {
            Some(k - 1)
        } else {
            b
        }
    }
}

/// Entity `i`'s turn at task claiming: if idle and of the team, it takes the
/// nearest free task when a path to it exists.
pub open spec fn claim_step(m: MapModel, types: Map<CreatureID, Creature>, team: TeamID, es: Seq<EntityView>, ts: Seq<Task>, i: int) -> (Seq<EntityView>, Seq<Task>) {
    let e = es[i];
    if e.actions.len() == 0 && e.team_id == team {
        match nearest_free(ts, e.pos, ts.len() as int) {
            Some(j) => match plan_of(m, types, e, ts[j].atype) {
                Some(acts) => (es.update(i, EntityView { actions: acts, ..e }), ts.update(j, Task { owner: Some(e.id), ..ts[j] })),
                None => (es, ts),
            },
            None => (es, ts),
        }
    } else {
        (es, ts)
    }
}

/// The first `k` entities' turns at task claiming, in order.
pub open spec fn claim_run(m: MapModel, types: Map<CreatureID, Creature>, team: TeamID, es: Seq<EntityView>, ts: Seq<Task>, k: int) -> (Seq<EntityView>, Seq<Task>)
    decreases k,
{
    if k <= 0 {
        (es, ts)
    } else {
        let (es1, ts1) = claim_run(m, types, team, es, ts, k - 1);
        claim_step(m, types, team, es1, ts1, k - 1)
    }
}

proof fn lemma_nearest_free_bound(ts: Seq<Task>, from: Pos, k: int)
    requires
        k <= ts.len(),
    ensures
        nearest_free(ts, from, k) matches Some(j) ==> 0 <= j < k && ts[j].owner is None,
    decreases k,
{
    if k > 0 {
        lemma_nearest_free_bound(ts, from, k - 1);
    }
}

/// A task newly owned after claiming went to an idle entity of the team.
pub open spec fn claimed_by_idle(es: Seq<EntityView>, team: TeamID, t0: Task, t1: Task, k: int) -> bool {
    exists|i: int| 0 <= i < k && (#[trigger] es[i]).actions.len() == 0 && es[i].team_id == team && t1.owner == Some(es[i].id)
}

/// Entity ids are pairwise distinct.
pub open spec fn unique_ids(es: Seq<EntityView>) -> bool {
    forall|a: int, b: int| 0 <= a < b < es.len() ==> #[trigger] es[a].id != #[trigger] es[b].id
}

/// Task exclusivity: however many idle entities take their turn at claiming, the
/// pool keeps its length and its tasks' kinds; a task that has an owner keeps
/// exactly that owner; a task changes owner only from none to an idle entity of
/// the team; and, ids being distinct, no entity takes two tasks.
pub proof fn lemma_claim_run(m: MapModel, types: Map<CreatureID, Creature>, team: TeamID, es: Seq<EntityView>, ts: Seq<Task>, k: int)
    requires
        0 <= k <= es.len(),
    ensures
        ({
            let (es1, ts1) = claim_run(m, types, team, es, ts, k);
            &&& es1.len() == es.len()
            &&& ts1.len() == ts.len()
            &&& forall|j: int| 0 <= j < ts.len() ==> (#[trigger] ts1[j]).atype == ts[j].atype
            &&& forall|j: int| 0 <= j < ts.len() && ts[j].owner is Some ==> (#[trigger] ts1[j]) == ts[j]
            &&& forall|i: int| 0 <= i < es.len() ==> (#[trigger] es1[i]).id == es[i].id && es1[i].team_id == es[i].team_id
            &&& forall|i: int| k <= i < es.len() ==> #[trigger] es1[i] == es[i]
            &&& forall|j: int| 0 <= j < ts.len() && (#[trigger] ts1[j]).owner != ts[j].owner ==> ts[j].owner is None
                && claimed_by_idle(es, team, ts[j], ts1[j], k)
            &&& unique_ids(es) ==> forall|j1: int, j2: int| 0 <= j1 < ts.len() && 0 <= j2 < ts.len() && j1 != j2
                && (#[trigger] ts1[j1]).owner != ts[j1].owner && (#[trigger] ts1[j2]).owner != ts[j2].owner
                ==> ts1[j1].owner != ts1[j2].owner
        }),
    decreases k,
{
    if k > 0 {
        lemma_claim_run(m, types, team, es, ts, k - 1);
        let (es1, ts1) = claim_run(m, types, team, es, ts, k - 1);
        let (es2, ts2) = claim_run(m, types, team, es, ts, k);
        lemma_nearest_free_bound(ts1, es1[k - 1].pos, ts1.len() as int);
        assert(es1[k - 1] == es[k - 1]);
        assert forall|j: int| 0 <= j < ts.len() && (#[trigger] ts2[j]).owner != ts[j].owner implies ts[j].owner is None
            && claimed_by_idle(es, team, ts[j], ts2[j], k) by {
            if ts1[j].owner != ts[j].owner {
                let i = choose|i: int| 0 <= i < k - 1 && (#[trigger] es[i]).actions.len() == 0 && es[i].team_id == team
                    && ts1[j].owner == Some(es[i].id);
                if ts2[j] != ts1[j] {
                    assert(ts1[j].owner is None);
                }
                assert(es[i].actions.len() == 0);
            } else {
                assert(ts2[j] != ts1[j]);
                assert(es[k - 1].actions.len() == 0);
            }
        };
        if unique_ids(es) {
            assert forall|j1: int, j2: int| 0 <= j1 < ts.len() && 0 <= j2 < ts.len() && j1 != j2
                && (#[trigger] ts2[j1]).owner != ts[j1].owner && (#[trigger] ts2[j2]).owner != ts[j2].owner
                implies ts2[j1].owner != ts2[j2].owner by {
                if ts1[j1].owner != ts[j1].owner && ts1[j2].owner != ts[j2].owner {
                    if ts2[j1] != ts1[j1] {
                        assert(ts1[j1].owner is None);
                    }
                    if ts2[j2] != ts1[j2] {
                        assert(ts1[j2].owner is None);
                    }
                } else if ts1[j1].owner != ts[j1].owner {
                    let i = choose|i: int| 0 <= i < k - 1 && (#[trigger] es[i]).actions.len() == 0 && es[i].team_id == team
                        && ts1[j1].owner == Some(es[i].id);
                    if ts2[j1] != ts1[j1] {
                        assert(ts1[j1].owner is None);
                    }
                    assert(es[i].id != es[k - 1].id);
                } else if ts1[j2].owner != ts[j2].owner {
                    let i = choose|i: int| 0 <= i < k - 1 && (#[trigger] es[i]).actions.len() == 0 && es[i].team_id == team
                        && ts1[j2].owner == Some(es[i].id);
                    if ts2[j2] != ts1[j2] {
                        assert(ts1[j2].owner is None);
                    }
                    assert(es[i].id != es[k - 1].id);
                } else {
                    assert(ts2[j1] != ts1[j1] && ts2[j2] != ts1[j2]);
                }
            };
        }
    }
}

impl Entity {
    /// The queue this entity would take on for a task of kind `atype`: the moves to
    /// a tile next to the dig target, then the dig. `None` when no path exists or
    /// the kind is not a dig.
    pub fn schedule_action(&self, map: &TileMap, creature_types: &CreatureMap, atype: ActionType) -> (r: Option<Actions>)
        requires
            map@.wf(),
        ensures
            match plan_of(map@, creature_types@, self@, atype) {
                Some(acts) => r matches Some(a) && a@ == acts,
                None => r is None,
            },
    {
        match atype {
            ActionType::Dig(pos) => {
                let mut actions = path_next_to(map, self, creature_types, pos);
                if actions.len() > 0 {
                    actions.push_back(Action::dig(pos, &self.creature_id, creature_types));
                    Some(actions)
                } else {
                    None
                }
            },
            _ => None,
        }
    }
}

/// Index of the unowned task nearest to `from` (ties: the earliest).
fn nearest_free_task(tasks: &Vec<Task>, ent: &Entity) -> (r: Option<usize>)
    ensures
        match r {
            Some(j) => nearest_free(tasks@, ent.pos, tasks@.len() as int) == Some(j as int),
            None => nearest_free(tasks@, ent.pos, tasks@.len() as int) is None,
        },
{
    let mut best: Option<usize> = None;
    let mut best_pri: i64 = 0;
    let mut k: usize = 0;
    while k < tasks.len()
        invariant
            k <= tasks@.len(),
            match best {
                Some(j) => nearest_free(tasks@, ent.pos, k as int) == Some(j as int) && j < k
                    && best_pri == priority_of(tasks@[j as int], ent.pos),
                None => nearest_free(tasks@, ent.pos, k as int) is None,
            },
        decreases tasks@.len() - k,
    {
        let t = tasks[k];
        if t.owner.is_none() {
            let pri = t.priority(ent);
            match best {
                Some(_) => {
                    if pri < best_pri {
                        best = Some(k);
                        best_pri = pri;
                    }
                },
                None => {
                    best = Some(k);
                    best_pri = pri;
                },
            }
        }
        k += 1;
    }
    best
}

/// Let every idle entity of the team claim the nearest free task of the pool, in
/// entity order, when a path to it exists. A task with an owner keeps it.
pub fn schedule_actions(entities: &mut Vec<Entity>, tasks: &mut Vec<Task>, map: &TileMap, creature_types: &CreatureMap, team_id: TeamID)
    requires
        map@.wf(),
    ensures
        (views(final(entities)@), final(tasks)@) == claim_run(map@, creature_types@, team_id, views(old(entities)@), old(tasks)@, old(entities)@.len() as int),
        final(entities)@.len() == old(entities)@.len(),
        final(tasks)@.len() == old(tasks)@.len(),
        forall|j: int| 0 <= j < old(tasks)@.len() ==> (#[trigger] final(tasks)@[j]).atype == old(tasks)@[j].atype,
        forall|j: int| 0 <= j < old(tasks)@.len() && old(tasks)@[j].owner is Some ==> #[trigger] final(tasks)@[j] == old(tasks)@[j],
        forall|j: int| 0 <= j < old(tasks)@.len() && (#[trigger] final(tasks)@[j]).owner != old(tasks)@[j].owner
            ==> old(tasks)@[j].owner is None && claimed_by_idle(views(old(entities)@), team_id, old(tasks)@[j],
            final(tasks)@[j], old(entities)@.len() as int),
        unique_ids(views(old(entities)@)) ==> forall|j1: int, j2: int| 0 <= j1 < old(tasks)@.len() && 0 <= j2
            < old(tasks)@.len() && j1 != j2 && (#[trigger] final(tasks)@[j1]).owner != old(tasks)@[j1].owner
            && (#[trigger] final(tasks)@[j2]).owner != old(tasks)@[j2].owner ==> final(tasks)@[j1].owner
            != final(tasks)@[j2].owner,
{
    let n = entities.len();
    let ghost es0 = views(entities@);
    let ghost ts0 = tasks@;
    let mut i: usize = 0;
    while i < n
        invariant
            n == old(entities)@.len(),
            entities@.len() == n,
            es0 == views(old(entities)@),
            es0.len() == n,
            ts0 == old(tasks)@,
            map@.wf(),
            i <= n,
            (views(entities@), tasks@) == claim_run(map@, creature_types@, team_id, es0, ts0, i as int),
        decreases n - i,
    {
        proof { lemma_claim_run(map@, creature_types@, team_id, es0, ts0, i as int); }
        let ghost es1 = views(entities@);
        let ghost ts1 = tasks@;
        let idle = entities[i].actions.len() == 0;
        let same_team = match (entities[i].team_id, team_id) {
            (Some(a), Some(b)) => a == b,
            (None, None) => true,
            _ => false,
        };
        if idle && same_team {
            if let Some(j) = nearest_free_task(tasks, &entities[i]) {
                proof { lemma_nearest_free_bound(ts1, es1[i as int].pos, ts1.len() as int); }
                let t = tasks[j];
                match entities[i].schedule_action(map, creature_types, t.atype) {
                    Some(actions) => {
                        let id = entities[i].id;
                        tasks.set(j, Task { atype: t.atype, owner: Some(id) });
                        entities[i].actions = actions;
                        assert(views(entities@) =~= claim_step(map@, creature_types@, team_id, es1, ts1, i as int).0);
                    },
                    None => {},
                }
            }
        }
        i += 1;
    }
    proof { lemma_claim_run(map@, creature_types@, team_id, es0, ts0, n as int); }
}

/// The starting roster: three entities of team 1 and three of team 2.
pub fn init_entities() -> (r: Entities)
    ensures
        r@.len() == 6,
        r@[0]@ == Entity::new_spec(-1i64, 1u16, (7i32, 7i32, 0i32), 1u16),
        r@[1]@ == Entity::new_spec(-2i64, 1u16, (3i32, 3i32, 0i32), 1u16),
        r@[2]@ == Entity::new_spec(-3i64, 1u16, (4i32, 4i32, 0i32), 1u16),
        r@[3]@ == Entity::new_spec(-4i64, 2u16, (80i32, 7i32, 0i32), 2u16),
        r@[4]@ == Entity::new_spec(-5i64, 2u16, (83i32, 3i32, 0i32), 2u16),
        r@[5]@ == Entity::new_spec(-6i64, 2u16, (85i32, 4i32, 0i32), 2u16),
{
    let mut ents: Entities = Vec::new();
    ents.push(Entity::new(-1, 1, (7, 7, 0), 1));
    ents.push(Entity::new(-2, 1, (3, 3, 0), 1));
    ents.push(Entity::new(-3, 1, (4, 4, 0), 1));
    ents.push(Entity::new(-4, 2, (80, 7, 0), 2));
    ents.push(Entity::new(-5, 2, (83, 3, 0), 2));
    ents.push(Entity::new(-6, 2, (85, 4, 0), 2));
    ents
}

} // verus!
