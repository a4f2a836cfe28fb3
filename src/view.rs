//! The client-facing projection of the map: a camera and the slice it shows.

use vstd::prelude::*;
use crate::geometry::{Pos, PosUnit};
use crate::map::{air, air_tile, Tile, TileMap, MAX_TILES};

verus! {

/// What a selection on the client currently picks.
#[derive(Clone, Copy, Debug, PartialEq, Eq, Structural)]
pub enum SelState {
    Ents,
    Digging,
    Attack,
}

/// A player's camera: a `xlen` by `ylen` window at `(x, y)` on level `z`.
#[derive(Clone, Copy, Debug, PartialEq, Eq, Structural)]
pub struct CameraHandle {
    pub xlen: i32,
    pub ylen: i32,
    pub x: i32,
    pub y: i32,
    pub z: i32,
}

impl CameraHandle {
    pub fn new(xlen: i32, ylen: i32, x: i32, y: i32, z: i32) -> (r: CameraHandle)
        ensures
            r == (CameraHandle { xlen, ylen, x, y, z }),
    {
        CameraHandle { xlen: xlen, ylen: ylen, x: x, y: y, z: z }
    }

    pub open spec fn shows(&self, p: Pos) -> bool {
        &&& p.2 == self.z
        &&& self.x <= p.0 < self.x + self.xlen
        &&& self.y <= p.1 < self.y + self.ylen
    }

    /// Whether the position is inside the camera's window.
    pub fn in_bounds(&self, pos: &Pos) -> (r: bool)
        ensures
            r == self.shows(*pos),
    {
        let (x, y, z) = *pos;
        z == self.z && self.x <= x && (x as i64) < self.x as i64 + self.xlen as i64 && self.y <= y
            && (y as i64) < self.y as i64 + self.ylen as i64
    }
}

/// A rectangular slice of one level of the map, row by row.
#[derive(Clone, Debug, PartialEq, Eq)]
pub struct MapSnapshot {
    pub tiles: Vec<Tile>,
    pub xlen: PosUnit,
    pub ylen: PosUnit,
}

impl MapSnapshot {
    pub open spec fn index_of(&self, x: int, y: int) -> int {
        x + y * self.xlen
    }

    /// The snapshot's tile at window coordinates `(x, y)`.
    pub fn tile_at(&self, x: PosUnit, y: PosUnit) -> (r: Option<Tile>)
        ensures
            (0 <= x < self.xlen && 0 <= y < self.ylen && self.index_of(x as int, y as int) < self.tiles@.len())
                ==> r == Some(self.tiles@[self.index_of(x as int, y as int)]),
            !(0 <= x < self.xlen && 0 <= y < self.ylen && self.index_of(x as int, y as int) < self.tiles@.len())
                ==> r is None,
    {
        if x < 0 || y < 0 || x >= self.xlen || y >= self.ylen {
            return None;
        }
        proof {
            assert(0 <= y * self.xlen <= 0x7fff_ffff * 0x7fff_ffff) by (nonlinear_arith)
                requires 0 <= y < 0x8000_0000, 0 <= self.xlen < 0x8000_0000;
        }
        let i = x as u64 + y as u64 * self.xlen as u64;
        if i >= self.tiles.len() as u64 {
            return None;
        }
        Some(self.tiles[i as usize])
    }
}

/// The tile shown at window offset `(a, b)`: the map's tile there, or air.
pub open spec fn shown_tile(m: crate::map::MapModel, h: CameraHandle, a: int, b: int) -> Tile {
    match m.tile(((h.x + a) as i32, (h.y + b) as i32, h.z)) {
        Some(t) => t,
        None => air(),
    }
}

/// The camera's window of the map, row by row; tiles off the map show as air.
pub fn handle_to_snapshot(handle: &CameraHandle, map: &TileMap) -> (r: MapSnapshot)
    requires
        map@.wf(),
        0 <= handle.xlen && 0 <= handle.ylen,
        handle.xlen * handle.ylen <= MAX_TILES,
        handle.x + handle.xlen <= i32::MAX + 1,
        handle.y + handle.ylen <= i32::MAX + 1,
    ensures
        r.xlen == handle.xlen && r.ylen == handle.ylen,
        r.tiles@.len() == handle.xlen * handle.ylen,
        forall|a: int, b: int| 0 <= a < handle.xlen && 0 <= b < handle.ylen ==> #[trigger] r.tiles@[a + b * handle.xlen]
            == shown_tile(map@, *handle, a, b),
{
    let mut tiles: Vec<Tile> = Vec::new();
    let mut b: i32 = 0;
    assert(0 * handle.xlen == 0);
    while b < handle.ylen
        invariant
            map@.wf(),
            0 <= b <= handle.ylen,
            0 <= handle.xlen,
            handle.x + handle.xlen <= i32::MAX + 1,
            handle.y + handle.ylen <= i32::MAX + 1,
            tiles@.len() == b * handle.xlen,
            forall|a2: int, b2: int| 0 <= a2 < handle.xlen && 0 <= b2 < b ==> #[trigger] tiles@[a2 + b2 * handle.xlen]
                == shown_tile(map@, *handle, a2, b2),
        decreases handle.ylen - b,
    {
        let mut a: i32 = 0;
        while a < handle.xlen
            invariant
                map@.wf(),
                0 <= b < handle.ylen,
                0 <= a <= handle.xlen,
                handle.x + handle.xlen <= i32::MAX + 1,
                handle.y + handle.ylen <= i32::MAX + 1,
                tiles@.len() == b * handle.xlen + a,
                forall|a2: int, b2: int| 0 <= a2 < handle.xlen && 0 <= b2 < b ==> #[trigger] tiles@[a2 + b2 * handle.xlen]
                    == shown_tile(map@, *handle, a2, b2),
                forall|a2: int| 0 <= a2 < a ==> #[trigger] tiles@[a2 + b * handle.xlen] == shown_tile(map@, *handle, a2, b as int),
            decreases handle.xlen - a,
        {
            let p = (handle.x + a, handle.y + b, handle.z);
            let t = match map.get_tile(p) {
                Some(tile) => tile,
                None => air_tile(),
            };
            let ghost before = tiles@;
            tiles.push(t);
            proof {
                assert forall|a2: int, b2: int| 0 <= a2 < handle.xlen && 0 <= b2 < b implies #[trigger] tiles@[a2 + b2 * handle.xlen]
                    == shown_tile(map@, *handle, a2, b2) by {
                    assert(a2 + b2 * handle.xlen < b * handle.xlen) by (nonlinear_arith)
                        requires 0 <= a2 < handle.xlen, 0 <= b2 < b;
                    assert(before[a2 + b2 * handle.xlen] == shown_tile(map@, *handle, a2, b2));
                };
                assert forall|a2: int| 0 <= a2 < a + 1 implies #[trigger] tiles@[a2 + b * handle.xlen]
                    == shown_tile(map@, *handle, a2, b as int) by {
                    if a2 < a {
                        assert(before[a2 + b * handle.xlen] == shown_tile(map@, *handle, a2, b as int));
                    }
                };
            }
            a += 1;
        }
        proof {
            assert((b + 1) * handle.xlen == b * handle.xlen + handle.xlen) by (nonlinear_arith);
            assert forall|a2: int, b2: int| 0 <= a2 < handle.xlen && 0 <= b2 < b + 1 implies #[trigger] tiles@[a2 + b2 * handle.xlen]
                == shown_tile(map@, *handle, a2, b2) by {
                if b2 == b {
                    assert(tiles@[a2 + b * handle.xlen] == shown_tile(map@, *handle, a2, b as int));
                }
            };
        }
        b += 1;
    }
    assert(handle.ylen * handle.xlen == handle.xlen * handle.ylen) by (nonlinear_arith);
    MapSnapshot { tiles, xlen: handle.xlen, ylen: handle.ylen }
}

} // verus!
