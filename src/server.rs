//! The server's side of a session: players, their task pools, and the
//! messages each tick produces. The network itself is run by the caller.

use vstd::prelude::*;
use crate::actions::{add_dig_tasks, dig_tasks_added, AttackType, Goal, Task, Tasks};
use crate::entity::{
    claim_run, dead_resolved, do_actions, resolve_dead, run_actions, schedule_actions, views, Change,
    EntID, EntSnap, EntSnaps, Entities, Entity, EntityView,
};
use crate::game::{next_tick, revalidate_run, GameState, VALIDATION_PERIOD};
use crate::geometry::{Pos, PlayerID, TeamID, Ticks, TilesSelector};
use crate::map::{is_chunking, MapChunk, MapModel, TileMap};
use crate::net::{ClientMsg, PlayerJoin, ServerMsg};
use crate::template::{Creature, CreatureID, CreatureMap};

verus! {

/// A connected player and its pool of tasks.
pub struct ServerPlayer {
    pub player_id: PlayerID,
    pub team_id: TeamID,
    pub tasks: Tasks,
}

impl ServerPlayer {
    pub fn new(player_id: PlayerID, team_id: TeamID) -> (r: ServerPlayer)
        ensures
            r.player_id == player_id,
            r.team_id == team_id,
            r.tasks@.len() == 0,
    {
        ServerPlayer { player_id: player_id, team_id: team_id, tasks: Vec::new() }
    }
}

/// The authoritative game and its players, in joining order.
pub struct Server {
    pub g_state: GameState,
    pub players: Vec<ServerPlayer>,
}

pub type Outbox = Vec<(PlayerID, ServerMsg)>;

/// What clients see of the entities.
pub open spec fn snaps_of(es: Seq<EntityView>) -> Seq<EntSnap> {
    es.map_values(|e: EntityView| EntSnap {
        id: e.id,
        creature_id: e.creature_id,
        pos: e.pos,
        team_id: e.team_id,
        health: e.health,
        alive: e.alive,
    })
}

/// `m` sends player `pid` the snapshots of `es`.
pub open spec fn is_ents_msg(m: (PlayerID, ServerMsg), pid: PlayerID, es: Seq<EntityView>) -> bool {
    &&& m.0 == pid
    &&& m.1 matches ServerMsg::SendEnts(s)
    &&& s@ == snaps_of(es)
}

/// The goal is a bite on `target`.
pub open spec fn aims_at(g: Option<Goal>, target: EntID) -> bool {
    g matches Some(Goal::Attack(AttackType::Bite, t, _)) && t == target
}

/// Every player of `ps_before` is still there, at the same place, in `ps_after`.
pub open spec fn ids_kept(ps_before: Seq<ServerPlayer>, ps_after: Seq<ServerPlayer>) -> bool {
    &&& ps_before.len() <= ps_after.len()
    &&& forall|q: int| 0 <= q < ps_before.len() ==> (#[trigger] ps_after[q]).player_id == ps_before[q].player_id
}

pub open spec fn registered(ps: Seq<ServerPlayer>, pid: PlayerID) -> bool {
    exists|k: int| 0 <= k < ps.len() && (#[trigger] ps[k]).player_id == pid
}

/// A player that was registered stays registered while the players are kept.
proof fn lemma_registered_kept(ps_before: Seq<ServerPlayer>, ps_after: Seq<ServerPlayer>)
    requires
        ids_kept(ps_before, ps_after),
    ensures
        forall|pid: PlayerID| #[trigger] registered(ps_before, pid) ==> registered(ps_after, pid),
{
    assert forall|pid: PlayerID| #[trigger] registered(ps_before, pid) implies registered(ps_after, pid) by {
        let k = choose|k: int| 0 <= k < ps_before.len() && (#[trigger] ps_before[k]).player_id == pid;
        assert(ps_after[k].player_id == pid);
    };
}

/// The task pools of the players, in order.
pub open spec fn pools(ps: Seq<ServerPlayer>) -> Seq<Seq<Task>> {
    ps.map_values(|p: ServerPlayer| p.tasks@)
}

/// Task claiming for the first `k` players in turn, each with its own pool and
/// its id as the team: the entities and the pools afterwards.
pub open spec fn claim_players(m: MapModel, types: Map<CreatureID, Creature>, es: Seq<EntityView>, ps: Seq<ServerPlayer>, k: int) -> (Seq<EntityView>, Seq<Seq<Task>>)
    decreases k,
{
    if k <= 0 {
        (es, pools(ps))
    } else {
        let (es1, pl1) = claim_players(m, types, es, ps, k - 1);
        let (es2, ts2) = claim_run(m, types, Some(ps[k - 1].player_id), es1, pl1[k - 1], es1.len() as int);
        (es2, pl1.update(k - 1, ts2))
    }
}

proof fn lemma_claim_players_len(m: MapModel, types: Map<CreatureID, Creature>, es: Seq<EntityView>, ps: Seq<ServerPlayer>, k: int)
    requires
        k <= ps.len(),
    ensures
        claim_players(m, types, es, ps, k).0.len() == es.len(),
        claim_players(m, types, es, ps, k).1.len() == ps.len(),
    decreases k,
{
    if k > 0 {
        lemma_claim_players_len(m, types, es, ps, k - 1);
        let (es1, pl1) = claim_players(m, types, es, ps, k - 1);
        crate::entity::lemma_claim_run_len(m, types, Some(ps[k - 1].player_id), es1, pl1[k - 1], es1.len() as int);
    }
}

/// Entities and pools after one world tick from entities `es`, map `m` and
/// players `ps` at tick `ticks`: actions, task claiming, goal revalidation on
/// period ticks, then the dead; with the map and the dug tiles.
pub open spec fn world_tick(m: MapModel, types: Map<CreatureID, Creature>, es: Seq<EntityView>, ps: Seq<ServerPlayer>, ticks: Ticks) -> (Seq<EntityView>, Seq<Seq<Task>>, MapModel, Seq<Change>) {
    let (es1, m1, cs) = run_actions(es, m, es.len() as int);
    let (es2, pl2) = claim_players(m1, types, es1, ps, ps.len() as int);
    let es3 = if ticks % VALIDATION_PERIOD == 0 { revalidate_run(m1, types, es2, es2.len() as int) } else { es2 };
    (dead_resolved(es3), pl2, m1, cs)
}

/// Index of the first entity from `k` on with id `id` whose team is `team`
/// (with `same` false: is not `team`).
pub open spec fn first_in_side(es: Seq<Entity>, id: EntID, team: TeamID, same: bool, k: int) -> Option<int>
    decreases es.len() - k,
{
    if k >= es.len() || k < 0 {
        None
    } else if es[k].id == id && (es[k].team_id == team) == same {
        Some(k)
    } else {
        first_in_side(es, id, team, same, k + 1)
    }
}

/// The entities after a team-`team` attack order: the attacker gets the goal of
/// biting the target where it stands.
pub open spec fn attack_goal_set(es: Seq<Entity>, team: TeamID, attacker_id: EntID, target_id: EntID) -> Seq<Entity> {
    match (first_in_side(es, attacker_id, team, true, 0), first_in_side(es, target_id, team, false, 0)) {
        (Some(a), Some(t)) => es.update(a, Entity {
            goal: Some(Goal::Attack(AttackType::Bite, target_id, es[t].pos)),
            ..es[a]
        }),
        _ => es,
    }
}

/// Index of the player with id `pid`.
pub open spec fn player_index(ps: Seq<ServerPlayer>, pid: PlayerID) -> Option<int> {
    if exists|k: int| 0 <= k < ps.len() && ps[k].player_id == pid {
        Some(choose|k: int| 0 <= k < ps.len() && ps[k].player_id == pid)
    } else {
        None
    }
}

/// `s1` is `s0` after entity `ent_id` was sent to `pos`.
pub open spec fn moved(s0: Server, s1: Server, ent_id: EntID, pos: Pos) -> bool {
    &&& s1.g_state.creature_types@ == s0.g_state.creature_types@
    &&& s1.g_state.ticks == s0.g_state.ticks
    &&& s1.g_state.cur_id == s0.g_state.cur_id
    &&& s1.players@ == s0.players@
    &&& s1.g_state.map@ == s0.g_state.map@
    &&& s1.g_state.entities@.len() == s0.g_state.entities@.len()
    &&& forall|i: int| 0 <= i < s0.g_state.entities@.len() ==> (#[trigger] s1.g_state.entities@[i])@
        == if s0.g_state.entities@[i].id == ent_id {
        EntityView {
            actions: crate::pathfind::path_of(s0.g_state.map@, s0.g_state.entities@[i].pos, pos,
                false, crate::template::movement_speed_of(s0.g_state.creature_types@,
                s0.g_state.entities@[i].creature_id)),
            ..s0.g_state.entities@[i]@
        }
    } else {
        s0.g_state.entities@[i]@
    }
}

/// `s1` is `s0` after the player's dig selection: its pool and the map as marking
/// the selection makes them; nothing else changes.
pub open spec fn dug(s0: Server, s1: Server, player_id: PlayerID, selection: TilesSelector) -> bool {
    &&& s1.g_state.creature_types@ == s0.g_state.creature_types@
    &&& s1.g_state.ticks == s0.g_state.ticks
    &&& s1.g_state.cur_id == s0.g_state.cur_id
    &&& s1.g_state.entities@ == s0.g_state.entities@
    &&& s1.players@.len() == s0.players@.len()
    &&& player_index(s0.players@, player_id) is None ==> s1.g_state.map@ == s0.g_state.map@ && s1.players@
        == s0.players@
    &&& player_index(s0.players@, player_id) matches Some(k) ==> {
        &&& dig_tasks_added(s0.g_state.map@, s1.g_state.map@, s0.players@[k].tasks@,
            s1.players@[k].tasks@, selection)
        &&& forall|q: int| 0 <= q < s0.players@.len() && q != k ==> #[trigger] s1.players@[q]
            == s0.players@[q]
        &&& s1.players@[k].player_id == s0.players@[k].player_id
        &&& s1.players@[k].team_id == s0.players@[k].team_id
    }
}

/// `s1` is `s0` after the player's attack order.
pub open spec fn attacked(s0: Server, s1: Server, player_id: PlayerID, attacker_id: EntID, target_id: EntID) -> bool {
    &&& s1.g_state.creature_types@ == s0.g_state.creature_types@
    &&& s1.g_state.ticks == s0.g_state.ticks
    &&& s1.g_state.cur_id == s0.g_state.cur_id
    &&& s1.players@ == s0.players@
    &&& s1.g_state.map@ == s0.g_state.map@
    &&& s1.g_state.entities@ == match player_index(s0.players@, player_id) {
        None => s0.g_state.entities@,
        Some(k) => attack_goal_set(s0.g_state.entities@, s0.players@[k].team_id, attacker_id, target_id)
    }
}

/// Player `k` of `s` is a fresh player `pid`: its team is its id, its pool empty.
pub open spec fn fresh_at(s: Server, k: int, pid: PlayerID) -> bool {
    &&& 0 <= k < s.players@.len()
    &&& s.players@[k].player_id == pid
    &&& s.players@[k].team_id == Some(pid)
    &&& s.players@[k].tasks@.len() == 0
}

/// `s1` is `s0` after player `pid` joined: it replaces any player of that id, or
/// is appended; the game is untouched.
pub open spec fn joined_rel(s0: Server, s1: Server, pid: PlayerID) -> bool {
    &&& s1.g_state == s0.g_state
    &&& match player_index(s0.players@, pid) {
        Some(k) => {
            &&& s1.players@.len() == s0.players@.len()
            &&& fresh_at(s1, k, pid)
            &&& forall|q: int| 0 <= q < s0.players@.len() && q != k ==> #[trigger] s1.players@[q] == s0.players@[q]
        },
        None => {
            &&& s1.players@.len() == s0.players@.len() + 1
            &&& fresh_at(s1, s0.players@.len() as int, pid)
            &&& forall|q: int| 0 <= q < s0.players@.len() ==> #[trigger] s1.players@[q] == s0.players@[q]
        },
    }
}

/// `s1` is `s0` after acting on one client message.
pub open spec fn dispatched(s0: Server, s1: Server, msg: ClientMsg, pid: PlayerID) -> bool {
    match msg {
        ClientMsg::MarkDig(sel) => dug(s0, s1, pid, sel),
        ClientMsg::EntAttack(a, t) => attacked(s0, s1, pid, a, t),
        ClientMsg::EntMove(e, p) => moved(s0, s1, e, p),
        _ => s1 == s0,
    }
}

/// `chain` runs from `s0` to `s1` through the joins of `joined`, then the
/// messages of `inbound`, in order.
pub open spec fn intake_chain(chain: Seq<Server>, s0: Server, s1: Server, joined: Seq<PlayerID>, inbound: Seq<(ClientMsg, PlayerID)>) -> bool {
    &&& chain.len() == joined.len() + inbound.len() + 1
    &&& chain[0] == s0
    &&& chain.last() == s1
    &&& forall|i: int| 0 <= i < joined.len() ==> #[trigger] joined_rel(chain[i], chain[i + 1], joined[i])
    &&& forall|j: int| 0 <= j < inbound.len() ==> #[trigger] dispatched(chain[joined.len() + j],
        chain[joined.len() + j + 1], inbound[j].0, inbound[j].1)
}

/// `s1` is `s0` after the joins of `joined`, then the messages of `inbound`.
pub open spec fn intake(s0: Server, s1: Server, joined: Seq<PlayerID>, inbound: Seq<(ClientMsg, PlayerID)>) -> bool {
    exists|chain: Seq<Server>| intake_chain(chain, s0, s1, joined, inbound)
}

impl Server {
    /// Player ids are unique and the map is well formed.
    pub open spec fn wf(&self) -> bool {
        &&& self.g_state.map@.wf()
        &&& forall|a: int, b: int| 0 <= a < b < self.players@.len() ==> #[trigger] self.players@[a].player_id
            != #[trigger] self.players@[b].player_id
    }

    pub fn new(map: TileMap, entities: Entities, creature_types: CreatureMap) -> (r: Server)
        requires
            map@.wf(),
        ensures
            r.wf(),
            r.g_state.map@ == map@,
            r.g_state.entities@ == entities@,
            r.g_state.creature_types@ == creature_types@,
            r.g_state.ticks == 0,
            r.players@.len() == 0,
    {
        Server { g_state: GameState::new(map, entities, creature_types), players: Vec::new() }
    }

    fn find_player(&self, player_id: PlayerID) -> (r: Option<usize>)
        requires
            self.wf(),
        ensures
            match r {
                Some(k) => k < self.players@.len() && self.players@[k as int].player_id == player_id
                    && player_index(self.players@, player_id) == Some(k as int),
                None => player_index(self.players@, player_id) is None,
            },
    {
        let mut k: usize = 0;
        while k < self.players.len()
            invariant
                self.wf(),
                k <= self.players@.len(),
                forall|j: int| 0 <= j < k ==> self.players@[j].player_id != player_id,
            decreases self.players@.len() - k,
        {
            if self.players[k].player_id == player_id {
                proof {
                    let c = choose|j: int| 0 <= j < self.players@.len() && self.players@[j].player_id == player_id;
                    if c != k {
                        if c < k {
                            assert(self.players@[c].player_id != self.players@[k as int].player_id);
                        } else {
                            assert(0 <= k < c < self.players@.len());
                            assert(self.players@[k as int].player_id != self.players@[c].player_id);
                        }
                    }
                }
                return Some(k);
            }
            k += 1;
        }
        None
    }

    /// Register a player (its team is its own id), replacing any earlier one of that
    /// id, and answer with the join reply carrying the map's extents.
    pub fn add_player(&mut self, player_id: PlayerID) -> (r: Outbox)
        requires
            old(self).wf(),
        ensures
            joined_rel(*old(self), *final(self), player_id),
            ids_kept(old(self).players@, final(self).players@),
            registered(final(self).players@, player_id),
            final(self).g_state.ticks == old(self).g_state.ticks,
            final(self).wf(),
            final(self).g_state.map@ == old(self).g_state.map@,
            final(self).g_state.entities@ == old(self).g_state.entities@,
            player_index(final(self).players@, player_id) matches Some(k) && final(self).players@[k].team_id
                == Some(player_id) && final(self).players@[k].tasks@.len() == 0,
            r@.len() == 1,
            r@[0].0 == player_id,
            r@[0].1 == ServerMsg::ReplyJoin(PlayerJoin {
                player_id,
                team_id: Some(player_id),
                map_dim: (old(self).g_state.map@.xlen as i32, old(self).g_state.map@.ylen as i32,
                    old(self).g_state.map@.zlen as i32),
            }),
    {
        let player = ServerPlayer::new(player_id, Some(player_id));
        match self.find_player(player_id) {
            Some(k) => {
                self.players.set(k, player);
                proof {
                    assert(self.players@[k as int].player_id == player_id);
                }
            },
            None => {
                self.players.push(player);
                proof {
                    let n = self.players@.len() - 1;
                    assert(self.players@[n].player_id == player_id);
                }
            },
        }
        let size = self.g_state.map.size();
        let join = PlayerJoin::new(player_id, Some(player_id), size);
        let mut out: Outbox = Vec::new();
        out.push((player_id, ServerMsg::ReplyJoin(join)));
        out
    }

    /// The whole map as a stream of chunks to one player.
    pub fn send_map(&self, player_id: PlayerID) -> (r: Outbox)
        requires
            self.wf(),
        ensures
            exists|cs: Seq<MapChunk>| #[trigger] is_chunking(self.g_state.map@, cs) && r@.len() == cs.len()
                && forall|k: int| 0 <= k < cs.len() ==> #[trigger] r@[k] == (player_id, ServerMsg::SendMapChunk(cs[k])),
    {
        let mut chunks = self.g_state.map.to_chunks();
        let ghost cs = chunks@;
        let mut rev: Outbox = Vec::new();
        while chunks.len() > 0
            invariant
                chunks@.len() + rev@.len() == cs.len(),
                chunks@ == cs.subrange(0, chunks@.len() as int),
                forall|k: int| 0 <= k < rev@.len() ==> #[trigger] rev@[k] == (player_id, ServerMsg::SendMapChunk(cs[cs.len() - 1 - k])),
            decreases chunks@.len(),
        {
            let c = chunks.pop().unwrap();
            rev.push((player_id, ServerMsg::SendMapChunk(c)));
            assert(chunks@ =~= cs.subrange(0, chunks@.len() as int));
        }
        let mut out: Outbox = Vec::new();
        while rev.len() > 0
            invariant
                rev@.len() + out@.len() == cs.len(),
                forall|k: int| 0 <= k < rev@.len() ==> #[trigger] rev@[k] == (player_id, ServerMsg::SendMapChunk(cs[cs.len() - 1 - k])),
                forall|k: int| 0 <= k < out@.len() ==> #[trigger] out@[k] == (player_id, ServerMsg::SendMapChunk(cs[k])),
            decreases rev@.len(),
        {
            let m = rev.pop().unwrap();
            out.push(m);
        }
        out
    }

    /// Send the entity to `pos`.
    pub fn ent_move(&mut self, ent_id: EntID, pos: Pos)
        requires
            old(self).wf(),
        ensures
            final(self).g_state.ticks == old(self).g_state.ticks,
            final(self).wf(),
            moved(*old(self), *final(self), ent_id, pos),
    {
        let ent_ids = vec![ent_id];
        assert(forall|x: EntID| ent_ids@.contains(x) <==> x == ent_id) by {
            assert forall|x: EntID| ent_ids@.contains(x) implies x == ent_id by {
                let j = choose|j: int| 0 <= j < ent_ids@.len() && ent_ids@[j] == x;
            };
            assert(ent_ids@[0] == ent_id);
        };
        self.g_state.move_ents(ent_ids.as_slice(), pos);
    }

    /// Every player's idle entities claim tasks from that player's pool, players in
    /// joining order.
    pub fn player_update(&mut self)
        requires
            old(self).wf(),
        ensures
            final(self).wf(),
            final(self).g_state.map@ == old(self).g_state.map@,
            final(self).g_state.creature_types@ == old(self).g_state.creature_types@,
            final(self).g_state.ticks == old(self).g_state.ticks,
            final(self).players@.len() == old(self).players@.len(),
            final(self).g_state.entities@.len() == old(self).g_state.entities@.len(),
            forall|k: int| 0 <= k < old(self).players@.len() ==> (#[trigger] final(self).players@[k]).player_id
                == old(self).players@[k].player_id && final(self).players@[k].team_id == old(self).players@[k].team_id,
            forall|k: int, j: int| 0 <= k < old(self).players@.len() && 0 <= j < old(self).players@[k].tasks@.len()
                && old(self).players@[k].tasks@[j].owner is Some ==> #[trigger] final(self).players@[k].tasks@[j]
                == old(self).players@[k].tasks@[j],
            (views(final(self).g_state.entities@), pools(final(self).players@)) == claim_players(old(self).g_state.map@,
                old(self).g_state.creature_types@, views(old(self).g_state.entities@), old(self).players@,
                old(self).players@.len() as int),
    {
        let n = self.players.len();
        let mut k: usize = 0;
        while k < n
            invariant
                n == old(self).players@.len(),
                self.players@.len() == n,
                self.wf(),
                self.g_state.map@ == old(self).g_state.map@,
                self.g_state.creature_types@ == old(self).g_state.creature_types@,
                self.g_state.ticks == old(self).g_state.ticks,
                self.g_state.entities@.len() == old(self).g_state.entities@.len(),
                forall|q: int| 0 <= q < n ==> (#[trigger] self.players@[q]).player_id == old(self).players@[q].player_id
                    && self.players@[q].team_id == old(self).players@[q].team_id,
                forall|q: int, j: int| 0 <= q < n && 0 <= j < old(self).players@[q].tasks@.len()
                    && old(self).players@[q].tasks@[j].owner is Some ==> #[trigger] self.players@[q].tasks@[j]
                    == old(self).players@[q].tasks@[j],
                forall|q: int| k <= q < n ==> (#[trigger] self.players@[q]).tasks@ == old(self).players@[q].tasks@,
                k <= n,
                (views(self.g_state.entities@), pools(self.players@)) == claim_players(old(self).g_state.map@,
                    old(self).g_state.creature_types@, views(old(self).g_state.entities@), old(self).players@, k as int),
            decreases n - k,
        {
            proof {
                lemma_claim_players_len(old(self).g_state.map@, old(self).g_state.creature_types@,
                    views(old(self).g_state.entities@), old(self).players@, k as int);
            }
            let pid = self.players[k].player_id;
            let ghost before = self.players@;
            schedule_actions(&mut self.g_state.entities, &mut self.players[k].tasks, &self.g_state.map,
                &self.g_state.creature_types, Some(pid));
            proof {
                assert(pools(self.players@) =~= pools(before).update(k as int, self.players@[k as int].tasks@));
            }
            k += 1;
        }
    }

    /// One tick of the world: actions, task claiming, goal revalidation on period
    /// ticks, then the dead. Returns the tiles that were dug.
    pub fn world_update(&mut self) -> (r: Vec<Change>)
        requires
            old(self).wf(),
        ensures
            ids_kept(old(self).players@, final(self).players@),
            final(self).wf(),
            final(self).g_state.ticks == next_tick(old(self).g_state.ticks),
            final(self).players@.len() == old(self).players@.len(),
            (views(final(self).g_state.entities@), pools(final(self).players@), final(self).g_state.map@, r@) == world_tick(
                old(self).g_state.map@, old(self).g_state.creature_types@, views(old(self).g_state.entities@),
                old(self).players@, final(self).g_state.ticks),
            final(self).g_state.creature_types@ == old(self).g_state.creature_types@,
    {
        proof {
            crate::entity::lemma_run_actions_len(views(self.g_state.entities@), self.g_state.map@,
                self.g_state.entities@.len() as int);
        }
        self.g_state.ticks = if self.g_state.ticks == i32::MAX { 0 } else { self.g_state.ticks + 1 };
        let changes = do_actions(&mut self.g_state.entities, &mut self.g_state.map);
        self.player_update();
        proof {
            let (es1, m1, cs) = run_actions(views(old(self).g_state.entities@), old(self).g_state.map@,
                old(self).g_state.entities@.len() as int);
            lemma_claim_players_len(m1, old(self).g_state.creature_types@, es1, old(self).players@, old(self).players@.len() as int);
        }
        if self.g_state.ticks % VALIDATION_PERIOD == 0 {
            self.g_state.validate_goals();
        }
        resolve_dead(&mut self.g_state.entities);
        changes
    }

    /// Add dig tasks for the player's selection.
    pub fn dig(&mut self, player_id: PlayerID, selection: TilesSelector)
        requires
            old(self).wf(),
        ensures
            final(self).g_state.ticks == old(self).g_state.ticks,
            final(self).wf(),
            dug(*old(self), *final(self), player_id, selection),
    {
        if let Some(k) = self.find_player(player_id) {
            add_dig_tasks(&mut self.players[k].tasks, &mut self.g_state.map, selection);
            proof {
                assert forall|a: int, b: int| 0 <= a < b < self.players@.len() implies #[trigger] self.players@[a].player_id
                    != #[trigger] self.players@[b].player_id by {
                    assert(old(self).players@[a].player_id != old(self).players@[b].player_id);
                };
            }
        }
    }

    /// Give the player's entity `attacker_id` the goal of attacking `target_id`:
    /// the attacker is the first entity of the player's team with that id, the
    /// target the first entity of another team with that id. Nothing changes when
    /// the player or either entity is not found.
    pub fn attack(&mut self, player_id: PlayerID, attacker_id: EntID, target_id: EntID)
        requires
            old(self).wf(),
        ensures
            final(self).g_state.ticks == old(self).g_state.ticks,
            final(self).wf(),
            attacked(*old(self), *final(self), player_id, attacker_id, target_id),
    {
        if let Some(k) = self.find_player(player_id) {
            let team = self.players[k].team_id;
            let ghost es = self.g_state.entities@;
            let n = self.g_state.entities.len();
            let mut target: Option<usize> = None;
            let mut attacker: Option<usize> = None;
            let mut i: usize = 0;
            while i < n
                invariant
                    n == es.len(),
                    i <= n,
                    self.g_state.entities@ == es,
                    first_in_side(es, attacker_id, team, true, 0) == match attacker {
                        Some(a) => Some(a as int),
                        None => first_in_side(es, attacker_id, team, true, i as int),
                    },
                    first_in_side(es, target_id, team, false, 0) == match target {
                        Some(t) => Some(t as int),
                        None => first_in_side(es, target_id, team, false, i as int),
                    },
                    attacker matches Some(a) ==> a < n,
                    target matches Some(t) ==> t < n,
                decreases n - i,
            {
                let same = match (self.g_state.entities[i].team_id, team) {
                    (Some(a), Some(b)) => a == b,
                    (None, None) => true,
                    _ => false,
                };
                if same {
                    if attacker.is_none() && self.g_state.entities[i].id == attacker_id {
                        attacker = Some(i);
                    }
                } else {
                    if target.is_none() && self.g_state.entities[i].id == target_id {
                        target = Some(i);
                    }
                }
                i += 1;
            }
            if let (Some(t), Some(a)) = (target, attacker) {
                let tpos = self.g_state.entities[t].pos;
                self.g_state.entities[a].goal = Some(Goal::Attack(AttackType::Bite, target_id, tpos));
                assert(self.g_state.entities@ =~= attack_goal_set(es, team, attacker_id, target_id));
            }
        }
    }

    /// The entity snapshot message for one player.
    pub fn ent_updates(&self, player_id: PlayerID) -> (r: (PlayerID, ServerMsg))
        ensures
            r.0 == player_id,
            r.1 matches ServerMsg::SendEnts(s) && s@ == snaps_of(views(self.g_state.entities@)),
    {
        let mut snaps: EntSnaps = Vec::new();
        let mut i: usize = 0;
        while i < self.g_state.entities.len()
            invariant
                i <= self.g_state.entities@.len(),
                snaps@ =~= snaps_of(views(self.g_state.entities@)).subrange(0, i as int),
            decreases self.g_state.entities@.len() - i,
        {
            snaps.push(self.g_state.entities[i].snap());
            i += 1;
            assert(snaps@ =~= snaps_of(views(self.g_state.entities@)).subrange(0, i as int));
        }
        assert(snaps@ =~= snaps_of(views(self.g_state.entities@)));
        (player_id, ServerMsg::SendEnts(snaps))
    }

    /// The tile at `pos`, pushed to every player.
    pub fn tile_update(&self, pos: Pos) -> (r: Outbox)
        requires
            self.wf(),
        ensures
            match self.g_state.map@.tile(pos) {
                Some(t) => r@.len() == self.players@.len() && forall|k: int| 0 <= k < r@.len() ==> #[trigger] r@[k]
                    == (self.players@[k].player_id, ServerMsg::UpdateTile(t, pos)),
                None => r@.len() == 0,
            },
    {
        let mut out: Outbox = Vec::new();
        if let Some(tile) = self.g_state.map.get_tile(pos) {
            let mut k: usize = 0;
            while k < self.players.len()
                invariant
                    k <= self.players@.len(),
                    self.g_state.map@.tile(pos) == Some(tile),
                    out@.len() == k,
                    forall|j: int| 0 <= j < k ==> #[trigger] out@[j] == (self.players@[j].player_id, ServerMsg::UpdateTile(tile, pos)),
                decreases self.players@.len() - k,
            {
                out.push((self.players[k].player_id, ServerMsg::UpdateTile(tile, pos)));
                k += 1;
            }
        }
        out
    }

    /// Act on one client message: map requests are answered with the map, dig
    /// selections become tasks, attack and move commands become goals and paths.
    pub fn dispatch(&mut self, msg: ClientMsg, player_id: PlayerID) -> (r: Outbox)
        requires
            old(self).wf(),
        ensures
            ids_kept(old(self).players@, final(self).players@),
            final(self).g_state.ticks == old(self).g_state.ticks,
            final(self).wf(),
            !(msg is RequestMap) ==> r@.len() == 0,
            msg is RequestMap ==> final(self).g_state.map@ == old(self).g_state.map@ && exists|cs: Seq<MapChunk>|
                #[trigger] is_chunking(old(self).g_state.map@, cs) && r@.len() == cs.len() && forall|k: int| 0 <= k < cs.len()
                ==> #[trigger] r@[k] == (player_id, ServerMsg::SendMapChunk(cs[k])),
            msg is RequestMap || msg is Heartbeat || msg is Ack || msg is Join || msg is RequestEnts || msg is Leave
                ==> final(self).g_state.map@ == old(self).g_state.map@ && final(self).g_state.entities@ == old(self).g_state.entities@
                && final(self).players@ == old(self).players@,
            dispatched(*old(self), *final(self), msg, player_id),
            msg matches ClientMsg::MarkDig(sel) ==> dug(*old(self), *final(self), player_id, sel),
            msg matches ClientMsg::EntAttack(a, t) ==> attacked(*old(self), *final(self), player_id, a, t),
            msg matches ClientMsg::EntMove(e, p) ==> moved(*old(self), *final(self), e, p),
    {
        match msg {
            ClientMsg::RequestMap(_) => self.send_map(player_id),
            ClientMsg::MarkDig(sel) => {
                self.dig(player_id, sel);
                Vec::new()
            },
            ClientMsg::EntAttack(attacker, target) => {
                self.attack(player_id, attacker, target);
                Vec::new()
            },
            ClientMsg::EntMove(ent_id, pos) => {
                self.ent_move(ent_id, pos);
                Vec::new()
            },
            _ => Vec::new(),
        }
    }

    /// One server tick: new players are registered and answered, client messages
    /// are acted on in order, the world advances one tick, dug tiles are pushed to
    /// every player, and every player gets the full entity list.
    pub fn update(&mut self, joined: Vec<PlayerID>, inbound: Vec<(ClientMsg, PlayerID)>) -> (r: Outbox)
        requires
            old(self).wf(),
        ensures
            exists|mid: Server| #![trigger mid.wf()] mid.wf() && intake(*old(self), mid, joined@, inbound@) && ({
                let (es, pl, m, _) = world_tick(mid.g_state.map@, mid.g_state.creature_types@, views(mid.g_state.entities@),
                    mid.players@, final(self).g_state.ticks);
                &&& views(final(self).g_state.entities@) == es
                &&& pools(final(self).players@) == pl
                &&& final(self).g_state.map@ == m
            }),
            ids_kept(old(self).players@, final(self).players@),
            forall|j: int| 0 <= j < joined@.len() ==> registered(final(self).players@, #[trigger] joined@[j]),
            final(self).wf(),
            final(self).g_state.ticks == next_tick(old(self).g_state.ticks),
            r@.len() >= final(self).players@.len(),
            forall|k: int| 0 <= k < final(self).players@.len() ==> is_ents_msg(
                #[trigger] r@[r@.len() - final(self).players@.len() + k], final(self).players@[k].player_id,
                views(final(self).g_state.entities@)),
    {
        let mut out: Outbox = Vec::new();
        let mut i: usize = 0;
        let ghost mut chain: Seq<Server> = seq![*self];
        while i < joined.len()
            invariant
                chain.len() == i + 1,
                chain[0] == *old(self),
                chain.last() == *self,
                forall|q: int| 0 <= q < i ==> #[trigger] joined_rel(chain[q], chain[q + 1], joined@[q]),
                self.wf(),
                self.g_state.ticks == old(self).g_state.ticks,
                i <= joined@.len(),
                ids_kept(old(self).players@, self.players@),
                forall|j: int| 0 <= j < i ==> registered(self.players@, #[trigger] joined@[j]),
            decreases joined@.len() - i,
        {
            let ghost before = self.players@;
            let ghost prev = chain;
            let mut reply = self.add_player(joined[i]);
            proof {
                lemma_registered_kept(before, self.players@);
                chain = chain.push(*self);
                assert forall|q: int| 0 <= q < i + 1 implies #[trigger] joined_rel(chain[q], chain[q + 1], joined@[q]) by {
                    if q < i {
                        assert(chain[q] == prev[q] && chain[q + 1] == prev[q + 1]);
                    }
                };
            }
            out.append(&mut reply);
            i += 1;
        }
        let mut j: usize = 0;
        while j < inbound.len()
            invariant
                j <= inbound@.len(),
                chain.len() == joined@.len() + j + 1,
                chain[0] == *old(self),
                chain.last() == *self,
                forall|q: int| 0 <= q < joined@.len() ==> #[trigger] joined_rel(chain[q], chain[q + 1], joined@[q]),
                forall|q: int| 0 <= q < j ==> #[trigger] dispatched(chain[joined@.len() + q], chain[joined@.len() + q + 1],
                    inbound@[q].0, inbound@[q].1),
                self.wf(),
                self.g_state.ticks == old(self).g_state.ticks,
                ids_kept(old(self).players@, self.players@),
                forall|q: int| 0 <= q < joined@.len() ==> registered(self.players@, #[trigger] joined@[q]),
            decreases inbound@.len() - j,
        {
            let (msg, pid) = inbound[j];
            let ghost before = self.players@;
            let ghost prev = chain;
            let mut reply = self.dispatch(msg, pid);
            proof {
                lemma_registered_kept(before, self.players@);
                chain = chain.push(*self);
                let jl = joined@.len() as int;
                assert forall|q: int| 0 <= q < jl implies #[trigger] joined_rel(chain[q], chain[q + 1], joined@[q]) by {
                    assert(chain[q] == prev[q] && chain[q + 1] == prev[q + 1]);
                };
                assert forall|q: int| 0 <= q < j + 1 implies #[trigger] dispatched(chain[jl + q], chain[jl + q + 1],
                    inbound@[q].0, inbound@[q].1) by {
                    if q < j {
                        assert(chain[jl + q] == prev[jl + q] && chain[jl + q + 1] == prev[jl + q + 1]);
                    }
                };
            }
            out.append(&mut reply);
            j += 1;
        }
        let ghost before = self.players@;
        let ghost mid = *self;
        assert(intake_chain(chain, *old(self), mid, joined@, inbound@));
        assert(intake(*old(self), mid, joined@, inbound@));
        let changes = self.world_update();
        proof { lemma_registered_kept(before, self.players@); }
        let mut c: usize = 0;
        while c < changes.len()
            invariant
                self.wf(),
                self.g_state.ticks == next_tick(old(self).g_state.ticks),
                ids_kept(old(self).players@, self.players@),
                forall|q: int| 0 <= q < joined@.len() ==> registered(self.players@, #[trigger] joined@[q]),
            decreases changes@.len() - c,
        {
            match &changes[c] {
                Change::TileChange(pos) => {
                    let mut reply = self.tile_update(*pos);
                    out.append(&mut reply);
                },
                Change::EntChange(_) => {},
            }
            c += 1;
        }
        let base = out.len();
        let mut k: usize = 0;
        while k < self.players.len()
            invariant
                self.wf(),
                self.g_state.ticks == next_tick(old(self).g_state.ticks),
                ids_kept(old(self).players@, self.players@),
                forall|q: int| 0 <= q < joined@.len() ==> registered(self.players@, #[trigger] joined@[q]),
                k <= self.players@.len(),
                out@.len() == base + k,
                forall|q: int| 0 <= q < k ==> is_ents_msg(#[trigger] out@[base + q], self.players@[q].player_id,
                    views(self.g_state.entities@)),
            decreases self.players@.len() - k,
        {
            let m = self.ent_updates(self.players[k].player_id);
            out.push(m);
            k += 1;
        }
        out
    }
}

} // verus!
