//! The simulation state and its tick: actions, goal revalidation and the dead.

use vstd::prelude::*;
use crate::actions::{Action, ActionType, AttackType, Goal, ATTACK_DURATION};
use crate::entity::{
    dead_resolved, do_actions, first_with_id, resolve_dead, run_actions, views, Change, EntID,
    Entities, Entity, EntityView,
};
use crate::geometry::{Pos, Ticks};
use crate::map::{MapModel, TileMap};
use crate::pathfind::{path_next_to, path_of, path_to};
use crate::template::{movement_speed_of, Creature, CreatureID, CreatureMap};

verus! {

/// Nanoseconds per simulation tick.
pub const FRAME_RATE_NS: u32 = 16_666_667;

/// Goals are revalidated on every tick that is a multiple of this.
pub const VALIDATION_PERIOD: Ticks = 10;

/// The outcome of revalidating one entity's goal.
#[derive(Clone, Copy, Debug, PartialEq, Eq)]
pub enum NewGoalPoss {
    NoChange,
    Delete(EntID),
    NewGoal(EntID, Goal),
}

/// Everything a running game holds.
pub struct GameState {
    pub map: TileMap,
    pub creature_types: CreatureMap,
    pub entities: Entities,
    pub ticks: Ticks,
    /// Last id handed out.
    pub cur_id: EntID,
}

/// What revalidation decides for entity `i`: drop the goal when its target is gone
/// or dead; re-aim it when the target moved or the queue ran out.
pub open spec fn goal_decision(es: Seq<EntityView>, i: int) -> NewGoalPoss {
    let e = es[i];
    match e.goal {
        None => NewGoalPoss::NoChange,
        Some(Goal::Attack(at, target, pos)) => match first_with_id(es, target, -1, 0) {
            None => NewGoalPoss::Delete(e.id),
            Some(j) => if !es[j].alive {
                NewGoalPoss::Delete(e.id)
            } else if es[j].pos != pos || e.actions.len() == 0 {
                NewGoalPoss::NewGoal(e.id, Goal::Attack(at, target, es[j].pos))
            } else {
                NewGoalPoss::NoChange
            },
        },
    }
}

/// Entity `i` after its revalidation.
pub open spec fn revalidated(m: MapModel, types: Map<CreatureID, Creature>, es: Seq<EntityView>, i: int) -> EntityView {
    let e = es[i];
    match goal_decision(es, i) {
        NewGoalPoss::NoChange => e,
        NewGoalPoss::Delete(_) => EntityView { goal: None, actions: Seq::empty(), ..e },
        NewGoalPoss::NewGoal(_, Goal::Attack(_, target, tpos)) => EntityView {
            actions: path_of(m, e.pos, tpos, true, movement_speed_of(types, e.creature_id)).push(
                Action { atype: ActionType::Attack(AttackType::Bite, target), duration: ATTACK_DURATION },
            ),
            goal: Some(Goal::Attack(AttackType::Bite, target, tpos)),
            ..e
        },
    }
}

/// The first `k` entities revalidated, in order.
pub open spec fn revalidate_run(m: MapModel, types: Map<CreatureID, Creature>, es: Seq<EntityView>, k: int) -> Seq<EntityView>
    decreases k,
{
    if k <= 0 {
        es
    } else {
        let es1 = revalidate_run(m, types, es, k - 1);
        es1.update(k - 1, revalidated(m, types, es1, k - 1))
    }
}

proof fn lemma_revalidate_len(m: MapModel, types: Map<CreatureID, Creature>, es: Seq<EntityView>, k: int)
    requires
        k <= es.len(),
    ensures
        revalidate_run(m, types, es, k).len() == es.len(),
    decreases k,
{
    if k > 0 {
        lemma_revalidate_len(m, types, es, k - 1);
    }
}

/// Entity `i` holds an attack goal whose target is gone or dead.
pub open spec fn target_lost(es: Seq<EntityView>, i: int) -> bool {
    match es[i].goal {
        Some(Goal::Attack(_, t, _)) => match first_with_id(es, t, -1, 0) {
            None => true,
            Some(j) => !es[j].alive,
        },
        None => false,
    }
}

proof fn lemma_first_with_id_ids(es1: Seq<EntityView>, es2: Seq<EntityView>, id: EntID, skip: int, k: int)
    requires
        es1.len() == es2.len(),
        forall|i: int| 0 <= i < es1.len() ==> #[trigger] es1[i].id == es2[i].id,
    ensures
        first_with_id(es1, id, skip, k) == first_with_id(es2, id, skip, k),
    decreases es1.len() - k,
{
    if !(k >= es1.len() || k < 0) {
        lemma_first_with_id_ids(es1, es2, id, skip, k + 1);
    }
}

/// Revalidation keeps every entity's id, position and liveness, leaves the
/// entities not yet visited as they were, and abandons every chase whose target
/// is gone or dead: the goal and the queue are cleared.
pub proof fn lemma_revalidate_abandons(m: MapModel, types: Map<CreatureID, Creature>, es: Seq<EntityView>, k: int)
    requires
        0 <= k <= es.len(),
    ensures
        ({
            let r = revalidate_run(m, types, es, k);
            &&& r.len() == es.len()
            &&& forall|i: int| 0 <= i < es.len() ==> (#[trigger] r[i]).id == es[i].id && r[i].alive == es[i].alive
                && r[i].pos == es[i].pos
            &&& forall|i: int| k <= i < es.len() ==> #[trigger] r[i] == es[i]
            &&& forall|i: int| 0 <= i < k && target_lost(es, i) ==> (#[trigger] r[i]).goal is None && r[i].actions.len() == 0
        }),
    decreases k,
{
    if k > 0 {
        lemma_revalidate_abandons(m, types, es, k - 1);
        let r1 = revalidate_run(m, types, es, k - 1);
        let r = revalidate_run(m, types, es, k);
        assert(r == r1.update(k - 1, revalidated(m, types, r1, k - 1)));
        if let Some(Goal::Attack(_, t, _)) = es[k - 1].goal {
            lemma_first_with_id_ids(r1, es, t, -1, 0);
            crate::entity::lemma_first_with_id_bound(es, t, -1, 0);
        }
        assert forall|i: int| 0 <= i < es.len() implies (#[trigger] r[i]).id == es[i].id && r[i].alive == es[i].alive
            && r[i].pos == es[i].pos by {
            if i != k - 1 {
                assert(r[i] == r1[i]);
            }
        };
        assert forall|i: int| 0 <= i < k && target_lost(es, i) implies (#[trigger] r[i]).goal is None && r[i].actions.len() == 0 by {
            if i != k - 1 {
                assert(r[i] == r1[i]);
            }
        };
    }
}

pub open spec fn next_tick(t: Ticks) -> Ticks {
    if t == Ticks::MAX { 0 } else { (t + 1) as Ticks }
}

/// Entities after one tick of `update`: actions, then (every period) goal
/// revalidation, then the dead.
pub open spec fn tick_entities(m: MapModel, types: Map<CreatureID, Creature>, es: Seq<EntityView>, ticks: Ticks) -> (Seq<EntityView>, MapModel, Seq<Change>) {
    let (es1, m1, cs) = run_actions(es, m, es.len() as int);
    let es2 = if ticks % VALIDATION_PERIOD == 0 { revalidate_run(m1, types, es1, es1.len() as int) } else { es1 };
    (dead_resolved(es2), m1, cs)
}

impl GameState {
    pub fn new(map: TileMap, entities: Entities, creature_types: CreatureMap) -> (r: GameState)
        ensures
            r.map@ == map@,
            r.entities@ == entities@,
            r.creature_types@ == creature_types@,
            r.ticks == 0,
            r.cur_id == 0,
    {
        GameState { map: map, creature_types: creature_types, entities: entities, ticks: 0, cur_id: 0 }
    }

    /// The decision of revalidation for entity `i`.
    fn goal_decision(&self, i: usize) -> (r: NewGoalPoss)
        requires
            i < self.entities@.len(),
        ensures
            r == goal_decision(views(self.entities@), i as int),
    {
        let ent = &self.entities[i];
        assert(views(self.entities@)[i as int] == self.entities@[i as int]@);
        match ent.goal {
            None => NewGoalPoss::NoChange,
            Some(Goal::Attack(at, target, pos)) => {
                let n = self.entities.len();
                let mut k: usize = 0;
                while k < n
                    invariant
                        n == self.entities@.len(),
                        i < n,
                        ent == &self.entities@[i as int],
                        ent.goal == Some(Goal::Attack(at, target, pos)),
                        k <= n,
                        first_with_id(views(self.entities@), target, -1, 0) == first_with_id(views(self.entities@), target, -1, k as int),
                    decreases n - k,
                {
                    assert(views(self.entities@)[k as int] == self.entities@[k as int]@);
                    if self.entities[k].id == target {
                        assert(first_with_id(views(self.entities@), target, -1, k as int) == Some(k as int));
                        let t = &self.entities[k];
                        if !t.alive {
                            return NewGoalPoss::Delete(ent.id);
                        } else if t.pos.0 != pos.0 || t.pos.1 != pos.1 || t.pos.2 != pos.2 || ent.actions.len() == 0 {
                            return NewGoalPoss::NewGoal(ent.id, Goal::Attack(at, target, t.pos));
                        } else {
                            return NewGoalPoss::NoChange;
                        }
                    }
                    k += 1;
                }
                NewGoalPoss::Delete(ent.id)
            },
        }
    }

    /// Revalidate every entity's goal, in order: a goal whose target is gone or
    /// dead is dropped along with the queue; one whose target moved, or whose
    /// queue ran out, gets a fresh path next to the target and a new attack.
    pub fn validate_goals(&mut self)
        requires
            old(self).map@.wf(),
        ensures
            views(final(self).entities@) == revalidate_run(old(self).map@, old(self).creature_types@,
                views(old(self).entities@), old(self).entities@.len() as int),
            forall|i: int| 0 <= i < old(self).entities@.len() && target_lost(views(old(self).entities@), i)
                ==> (#[trigger] final(self).entities@[i]).goal is None && final(self).entities@[i].actions@.len() == 0,
            final(self).map@ == old(self).map@,
            final(self).creature_types@ == old(self).creature_types@,
            final(self).ticks == old(self).ticks,
            final(self).cur_id == old(self).cur_id,
    {
        let n = self.entities.len();
        let ghost es0 = views(self.entities@);
        let ghost m = self.map@;
        let ghost types = self.creature_types@;
        let mut i: usize = 0;
        while i < n
            invariant
                n == old(self).entities@.len(),
                self.entities@.len() == n,
                es0 == views(old(self).entities@),
                m == old(self).map@,
                m.wf(),
                self.map@ == m,
                types == old(self).creature_types@,
                self.creature_types@ == types,
                self.ticks == old(self).ticks,
                self.cur_id == old(self).cur_id,
                i <= n,
                views(self.entities@) == revalidate_run(m, types, es0, i as int),
            decreases n - i,
        {
            proof { lemma_revalidate_len(m, types, es0, i as int + 1); }
            let ghost es1 = views(self.entities@);
            let decision = self.goal_decision(i);
            match decision {
                NewGoalPoss::NoChange => {
                    assert(es1 =~= es1.update(i as int, revalidated(m, types, es1, i as int)));
                },
                NewGoalPoss::Delete(_) => {
                    self.entities[i].goal = None;
                    self.entities[i].actions.clear();
                    assert(views(self.entities@) =~= es1.update(i as int, revalidated(m, types, es1, i as int)));
                },
                NewGoalPoss::NewGoal(_, Goal::Attack(_, target, tpos)) => {
                    let mut actions = path_next_to(&self.map, &self.entities[i], &self.creature_types, tpos);
                    let (action, goal) = Action::attack(target, tpos, self.entities[i].creature_id, &self.creature_types);
                    actions.push_back(action);
                    self.entities[i].actions = actions;
                    self.entities[i].goal = Some(goal);
                    assert(views(self.entities@) =~= es1.update(i as int, revalidated(m, types, es1, i as int)));
                },
            }
            i += 1;
        }
        proof {
            lemma_revalidate_abandons(m, types, es0, n as int);
            assert forall|i: int| 0 <= i < n && target_lost(es0, i) implies (#[trigger] self.entities@[i]).goal is None
                && self.entities@[i].actions@.len() == 0 by {
                assert(views(self.entities@)[i] == self.entities@[i]@);
            };
        }
    }

    /// One tick: the tick count advances, every entity's front action advances
    /// (completing ones take effect), goals are revalidated on period ticks, and
    /// the dead are resolved. Returns the tiles that were dug.
    pub fn update(&mut self) -> (r: Vec<Change>)
        requires
            old(self).map@.wf(),
        ensures
            final(self).ticks == next_tick(old(self).ticks),
            (views(final(self).entities@), final(self).map@, r@) == tick_entities(old(self).map@,
                old(self).creature_types@, views(old(self).entities@), final(self).ticks),
            final(self).map@.wf(),
            final(self).creature_types@ == old(self).creature_types@,
            final(self).cur_id == old(self).cur_id,
    {
        self.ticks = if self.ticks == Ticks::MAX { 0 } else { self.ticks + 1 };
        let changes = do_actions(&mut self.entities, &mut self.map);
        if self.ticks % VALIDATION_PERIOD == 0 {
            self.validate_goals();
        }
        resolve_dead(&mut self.entities);
        changes
    }

    /// Give each listed entity a fresh queue of moves onto `dest_pos`.
    pub fn move_ents(&mut self, ent_ids: &[EntID], dest_pos: Pos)
        requires
            old(self).map@.wf(),
        ensures
            final(self).entities@.len() == old(self).entities@.len(),
            forall|i: int| 0 <= i < old(self).entities@.len() ==> (#[trigger] final(self).entities@[i])@ == if ent_ids@.contains(
                old(self).entities@[i].id) {
                EntityView {
                    actions: path_of(old(self).map@, old(self).entities@[i].pos, dest_pos, false,
                        movement_speed_of(old(self).creature_types@, old(self).entities@[i].creature_id)),
                    ..old(self).entities@[i]@
                }
            } else {
                old(self).entities@[i]@
            },
            final(self).map@ == old(self).map@,
            final(self).creature_types@ == old(self).creature_types@,
            final(self).ticks == old(self).ticks,
            final(self).cur_id == old(self).cur_id,
    {
        let n = self.entities.len();
        let mut i: usize = 0;
        while i < n
            invariant
                n == old(self).entities@.len(),
                self.entities@.len() == n,
                self.map@ == old(self).map@,
                self.map@.wf(),
                self.creature_types@ == old(self).creature_types@,
                self.ticks == old(self).ticks,
                self.cur_id == old(self).cur_id,
                i <= n,
                forall|k: int| 0 <= k < n ==> (#[trigger] self.entities@[k])@ == if k < i && ent_ids@.contains(
                    old(self).entities@[k].id) {
                    EntityView {
                        actions: path_of(old(self).map@, old(self).entities@[k].pos, dest_pos, false,
                            movement_speed_of(old(self).creature_types@, old(self).entities@[k].creature_id)),
                        ..old(self).entities@[k]@
                    }
                } else {
                    old(self).entities@[k]@
                },
            decreases n - i,
        {
            let id = self.entities[i].id;
            let mut found = false;
            let mut k: usize = 0;
            while k < ent_ids.len()
                invariant
                    k <= ent_ids@.len(),
                    found == exists|j: int| 0 <= j < k && ent_ids@[j] == id,
                decreases ent_ids@.len() - k,
            {
                if ent_ids[k] == id {
                    found = true;
                }
                k += 1;
            }
            if found {
                let actions = path_to(&self.map, &self.entities[i], &self.creature_types, dest_pos);
                self.entities[i].actions = actions;
            }
            i += 1;
        }
    }

    /// Hand out the next id.
    pub fn give_id(&mut self) -> (r: EntID)
        requires
            old(self).cur_id < EntID::MAX,
        ensures
            r == old(self).cur_id + 1,
            final(self).cur_id == r,
            final(self).map@ == old(self).map@,
            final(self).entities@ == old(self).entities@,
            final(self).ticks == old(self).ticks,
    {
        self.cur_id += 1;
        self.cur_id
    }
}

} // verus!
