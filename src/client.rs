//! The client's copy of the world, kept in step with what the server sends.

use vstd::prelude::*;
use crate::entity::{EntSnap, Entities, EntityView};
use crate::geometry::{Pos, PlayerID, TeamID};
use crate::map::{Materials, Tile, TileMap, MAX_TILES};
use crate::net::{ClientMsg, PlayerJoin, ServerMsg};

verus! {

/// What a client knows: who it is, the map as far as it has arrived, and the
/// entities it tracks.
pub struct ClientState {
    pub player_id: Option<PlayerID>,
    pub team_id: TeamID,
    pub map: TileMap,
    pub entities: Entities,
    /// Set once the server has booted the client.
    pub done: bool,
}

/// `e` with the position, health and liveness of every snapshot carrying its id,
/// the last one winning.
pub open spec fn synced(e: EntityView, snaps: Seq<EntSnap>) -> EntityView
    decreases snaps.len(),
{
    if snaps.len() == 0 {
        e
    } else {
        let e1 = synced(e, snaps.drop_last());
        let s = snaps.last();
        if s.id == e.id { EntityView { pos: s.pos, health: s.health, alive: s.alive, ..e1 } } else { e1 }
    }
}

proof fn lemma_synced_id(e: EntityView, snaps: Seq<EntSnap>)
    ensures
        synced(e, snaps).id == e.id,
    decreases snaps.len(),
{
    if snaps.len() > 0 {
        lemma_synced_id(e, snaps.drop_last());
    }
}

/// The extents fit a map.
pub open spec fn valid_dims(d: Pos) -> bool {
    0 <= d.0 && 0 <= d.1 && 0 <= d.2 && d.0 * d.1 * d.2 <= MAX_TILES
}

fn dims_ok(d: Pos) -> (r: bool)
    ensures
        r == valid_dims(d),
{
    if d.0 < 0 || d.1 < 0 || d.2 < 0 {
        return false;
    }
    proof {
        assert(d.0 * d.1 < 0x4000_0000_0000_0000) by (nonlinear_arith)
            requires 0 <= d.0 < 0x8000_0000, 0 <= d.1 < 0x8000_0000;
    }
    let xy = d.0 as u64 * d.1 as u64;
    if d.2 == 0 {
        assert(d.0 * d.1 * d.2 == 0) by (nonlinear_arith) requires d.2 == 0;
        return true;
    }
    if xy > MAX_TILES as u64 {
        assert(d.0 * d.1 * d.2 > MAX_TILES) by (nonlinear_arith) requires d.0 * d.1 > MAX_TILES, d.2 >= 1;
        return false;
    }
    proof {
        assert(xy * d.2 < 0x4000_0000_0000_0000) by (nonlinear_arith)
            requires 0 <= xy <= 0x7fff_ffff, 0 <= d.2 < 0x8000_0000;
    }
    xy * d.2 as u64 <= MAX_TILES as u64
}

impl ClientState {
    /// A client that has not joined yet: an empty map over the given materials and
    /// the entities it starts out tracking.
    pub fn new(materials: Materials, entities: Entities) -> (r: ClientState)
        ensures
            r.map@.wf(),
            r.map@.tiles.len() == 0,
            r.entities@ == entities@,
            r.player_id is None,
            r.team_id is None,
            !r.done,
    {
        ClientState { player_id: None, team_id: None, map: TileMap::new(materials), entities, done: false }
    }

    /// Take on the identity the server gave, size the map (all air) and ask for
    /// its contents.
    pub fn join(&mut self, player_join: PlayerJoin) -> (r: Vec<ClientMsg>)
        requires
            old(self).map@.wf(),
        ensures
            final(self).player_id == Some(player_join.player_id),
            final(self).team_id == player_join.team_id,
            final(self).map@.wf(),
            valid_dims(player_join.map_dim) ==> final(self).map@.xlen == player_join.map_dim.0
                && final(self).map@.ylen == player_join.map_dim.1 && final(self).map@.zlen == player_join.map_dim.2,
            !valid_dims(player_join.map_dim) ==> final(self).map@ == old(self).map@,
            final(self).entities@ == old(self).entities@,
            r@ == seq![ClientMsg::RequestMap(((0i32, 0i32, 0i32), (0i32, 0i32, 0i32)))],
    {
        self.player_id = Some(player_join.player_id);
        self.team_id = player_join.team_id;
        if dims_ok(player_join.map_dim) {
            self.map.resize(player_join.map_dim);
        }
        let mut out: Vec<ClientMsg> = Vec::new();
        out.push(ClientMsg::RequestMap(((0, 0, 0), (0, 0, 0))));
        assert(out@ =~= seq![ClientMsg::RequestMap(((0i32, 0i32, 0i32), (0i32, 0i32, 0i32)))]);
        out
    }

    /// Take over position, health and liveness from the snapshots.
    pub fn update_ents(&mut self, ent_snaps: &Vec<EntSnap>)
        ensures
            final(self).entities@.len() == old(self).entities@.len(),
            forall|i: int| 0 <= i < old(self).entities@.len() ==> (#[trigger] final(self).entities@[i])@ == synced(
                old(self).entities@[i]@, ent_snaps@),
            final(self).map@ == old(self).map@,
            final(self).player_id == old(self).player_id,
            final(self).team_id == old(self).team_id,
            final(self).done == old(self).done,
    {
        let n = self.entities.len();
        let mut i: usize = 0;
        while i < n
            invariant
                n == old(self).entities@.len(),
                self.entities@.len() == n,
                i <= n,
                self.map@ == old(self).map@,
                self.player_id == old(self).player_id,
                self.team_id == old(self).team_id,
                self.done == old(self).done,
                forall|k: int| 0 <= k < n ==> (#[trigger] self.entities@[k])@ == if k < i {
                    synced(old(self).entities@[k]@, ent_snaps@)
                } else {
                    old(self).entities@[k]@
                },
            decreases n - i,
        {
            let mut j: usize = 0;
            while j < ent_snaps.len()
                invariant
                    n == self.entities@.len(),
                    i < n,
                    j <= ent_snaps@.len(),
                    self.map@ == old(self).map@,
                    self.player_id == old(self).player_id,
                    self.team_id == old(self).team_id,
                    self.done == old(self).done,
                    self.entities@[i as int]@ == synced(old(self).entities@[i as int]@, ent_snaps@.subrange(0, j as int)),
                    forall|k: int| 0 <= k < n && k != i ==> (#[trigger] self.entities@[k])@ == if k < i {
                        synced(old(self).entities@[k]@, ent_snaps@)
                    } else {
                        old(self).entities@[k]@
                    },
                decreases ent_snaps@.len() - j,
            {
                let s = ent_snaps[j];
                assert(ent_snaps@.subrange(0, j + 1).drop_last() =~= ent_snaps@.subrange(0, j as int));
                proof { lemma_synced_id(old(self).entities@[i as int]@, ent_snaps@.subrange(0, j as int)); }
                if s.id == self.entities[i].id {
                    self.entities[i].pos = s.pos;
                    self.entities[i].health = s.health;
                    self.entities[i].alive = s.alive;
                }
                j += 1;
            }
            assert(ent_snaps@.subrange(0, ent_snaps@.len() as int) =~= ent_snaps@);
            i += 1;
        }
    }

    /// Apply one server message: a join reply, an entity list, a map chunk, a tile
    /// update, or the boot. Returns what to send back.
    pub fn dispatch(&mut self, msg: ServerMsg) -> (r: Vec<ClientMsg>)
        requires
            old(self).map@.wf(),
        ensures
            final(self).map@.wf(),
            msg matches ServerMsg::SendMapChunk(c) ==> final(self).map@ == old(self).map@.apply_chunk(c),
            msg matches ServerMsg::Boot ==> final(self).done,
            msg matches ServerMsg::UpdateTile(t, p) ==> final(self).map@ == (match old(self).map@.tile(p) {
                Some(u) => old(self).map@.set_tile(p, Tile { material: t.material, marked: false, ..u }),
                None => old(self).map@,
            }),
            msg matches ServerMsg::SendEnts(snaps) ==> final(self).entities@.len() == old(self).entities@.len()
                && forall|i: int| 0 <= i < old(self).entities@.len() ==> (#[trigger] final(self).entities@[i])@ == synced(
                old(self).entities@[i]@, snaps@),
            !(msg is SendMapChunk || msg is UpdateTile || msg is ReplyJoin) ==> final(self).map@ == old(self).map@,
            msg matches ServerMsg::ReplyJoin(j) ==> final(self).player_id == Some(j.player_id) && r@.len() == 1,
            !(msg is ReplyJoin) ==> r@.len() == 0,
    {
        match msg {
            ServerMsg::ReplyJoin(player_join) => self.join(player_join),
            ServerMsg::SendEnts(ent_snaps) => {
                self.update_ents(&ent_snaps);
                Vec::new()
            },
            ServerMsg::SendMapChunk(chunk) => {
                self.map.apply_chunk(&chunk);
                Vec::new()
            },
            ServerMsg::UpdateTile(tile, pos) => {
                self.map.update_tile(tile, pos);
                proof { crate::map::lemma_set_tile_shape(old(self).map@, pos, tile); }
                Vec::new()
            },
            ServerMsg::Boot => {
                self.done = true;
                Vec::new()
            },
            _ => Vec::new(),
        }
    }
}

} // verus!
