//! The tile grid and its material catalog, with chunked transfer.

use std::collections::HashMap;
use vstd::prelude::*;
use crate::geometry::{min_of, Pos, PosUnit};

verus! {

broadcast use vstd::std_specs::hash::group_hash_axioms;

pub type MaterialID = u16;

/// Material that a freshly sized map is filled with.
pub const AIR_MAT: MaterialID = 10;

/// Nominal chunk extents along x, y and z.
pub const CHUNK_TILES_X: PosUnit = 8;
pub const CHUNK_TILES_Y: PosUnit = 8;
pub const CHUNK_TILES_Z: PosUnit = 1;

/// Largest number of tiles a map may hold, so that every index fits in an `i32`.
pub const MAX_TILES: i32 = 0x7fff_ffff;

#[derive(Clone, Copy, Debug, PartialEq, Eq, Structural)]
pub enum Mode {
    Block,
    Empty,
    UpStairs,
    DownStairs,
    UpDownStairs,
    UpRamp,
    DownRamp,
}

/// The mode that a numeric mode code stands for.
pub open spec fn mode_of(x: u32) -> Option<Mode> {
    if x == 0 {
        Some(Mode::Block)
    } else if x == 1 {
        Some(Mode::Empty)
    } else if x == 2 {
        Some(Mode::UpStairs)
    } else if x == 3 {
        Some(Mode::DownStairs)
    } else if x == 4 {
        Some(Mode::UpDownStairs)
    } else if x == 5 {
        Some(Mode::UpRamp)
    } else if x == 6 {
        Some(Mode::DownRamp)
    } else {
        None
    }
}

pub fn to_mode(x: u32) -> (r: Option<Mode>)
    ensures
        r == mode_of(x),
{
    match x {
        0 => Some(Mode::Block),
        1 => Some(Mode::Empty),
        2 => Some(Mode::UpStairs),
        3 => Some(Mode::DownStairs),
        4 => Some(Mode::UpDownStairs),
        5 => Some(Mode::UpRamp),
        6 => Some(Mode::DownRamp),
        _ => None,
    }
}

/// A single map unit.
#[derive(Clone, Copy, Debug, PartialEq, Eq, Structural)]
pub struct Tile {
    pub material: MaterialID,
    pub mode: Mode,
    /// A dig task is pending on this tile.
    pub marked: bool,
}

pub open spec fn air() -> Tile {
    Tile { material: AIR_MAT, mode: Mode::Empty, marked: false }
}

/// The tile a freshly sized map is filled with.
pub fn air_tile() -> (r: Tile)
    ensures
        r == air(),
{
    Tile { material: AIR_MAT, mode: Mode::Empty, marked: false }
}

impl Tile {
    pub fn new(material: MaterialID, mode: Mode) -> (r: Tile)
        ensures
            r == (Tile { material, mode, marked: false }),
    {
        Tile { material: material, mode: mode, marked: false }
    }
}

/// A resolved material. `color` holds the bit patterns of the RGBA components.
#[derive(Clone, Debug, PartialEq, Eq)]
pub struct Material {
    pub name: String,
    pub id: MaterialID,
    pub texture: Option<String>,
    pub diggable: bool,
    pub passable: bool,
    pub color: [u32; 4],
    /// The material a tile becomes once dug.
    pub alt: MaterialID,
}

pub type Materials = HashMap<MaterialID, Material>;

/// The terrain: a row-major grid of tiles and the material catalog.
pub struct TileMap {
    tiles: Vec<Tile>,
    pub materials: Materials,
    xlen: PosUnit,
    ylen: PosUnit,
    zlen: PosUnit,
}

/// What a map is: its tiles, its extents and its materials.
pub ghost struct MapModel {
    pub tiles: Seq<Tile>,
    pub xlen: int,
    pub ylen: int,
    pub zlen: int,
    pub materials: Map<MaterialID, Material>,
}

impl View for TileMap {
    type V = MapModel;

    closed spec fn view(&self) -> MapModel {
        MapModel {
            tiles: self.tiles@,
            xlen: self.xlen as int,
            ylen: self.ylen as int,
            zlen: self.zlen as int,
            materials: self.materials@,
        }
    }
}

/// Row-major index of `(x, y, z)` for extents `xl`, `yl`.
pub open spec fn flat_index(x: int, y: int, z: int, xl: int, yl: int) -> int {
    x + xl * (y + yl * z)
}

impl MapModel {
    pub open spec fn wf(self) -> bool {
        &&& 0 <= self.xlen && 0 <= self.ylen && 0 <= self.zlen
        &&& self.xlen * self.ylen * self.zlen <= MAX_TILES
        &&& self.tiles.len() == self.xlen * self.ylen * self.zlen
    }

    pub open spec fn in_bounds(self, p: Pos) -> bool {
        &&& 0 <= p.0 < self.xlen
        &&& 0 <= p.1 < self.ylen
        &&& 0 <= p.2 < self.zlen
    }

    pub open spec fn index(self, p: Pos) -> int {
        flat_index(p.0 as int, p.1 as int, p.2 as int, self.xlen, self.ylen)
    }

    pub open spec fn tile(self, p: Pos) -> Option<Tile> {
        if self.in_bounds(p) {
            Some(self.tiles[self.index(p)])
        } else {
            None
        }
    }

    /// A tile can be walked on unless it is a block of a material that is not
    /// passable (a dug-out block of air can).
    pub open spec fn passable(self, p: Pos) -> bool {
        match self.tile(p) {
            Some(t) => t.mode != Mode::Block || (self.materials.contains_key(t.material)
                && self.materials[t.material].passable),
            None => false,
        }
    }

    pub open spec fn diggable(self, p: Pos) -> bool {
        match self.tile(p) {
            Some(t) => self.materials.contains_key(t.material) && self.materials[t.material].diggable
                && !t.marked,
            None => false,
        }
    }

    pub open spec fn alt(self, p: Pos) -> MaterialID {
        match self.tile(p) {
            Some(t) => if self.materials.contains_key(t.material) {
                self.materials[t.material].alt
            } else {
                0
            },
            None => 0,
        }
    }

    /// The map with the tile at `p` (when in bounds) replaced by `t`.
    pub open spec fn set_tile(self, p: Pos, t: Tile) -> MapModel {
        if self.in_bounds(p) {
            MapModel { tiles: self.tiles.update(self.index(p), t), ..self }
        } else {
            self
        }
    }

    /// The map after digging at `p`: the tile takes its material's dug material.
    pub open spec fn dug(self, p: Pos) -> MapModel {
        match self.tile(p) {
            Some(t) => self.set_tile(p, Tile { material: self.alt(p), ..t }),
            None => self,
        }
    }

    pub open spec fn same_shape(self, o: MapModel) -> bool {
        &&& self.xlen == o.xlen && self.ylen == o.ylen && self.zlen == o.zlen
        &&& self.materials == o.materials
    }
}

/// Writing one tile keeps the map's shape.
pub proof fn lemma_set_tile_shape(m: MapModel, p: Pos, t: Tile)
    requires
        m.wf(),
    ensures
        forall|u: Tile| #[trigger] m.set_tile(p, u).wf() && m.set_tile(p, u).same_shape(m),
{
    assert forall|u: Tile| #[trigger] m.set_tile(p, u).wf() && m.set_tile(p, u).same_shape(m) by {
        if m.in_bounds(p) {
            lemma_index_bound(p.0 as int, p.1 as int, p.2 as int, m.xlen, m.ylen, m.zlen);
        }
    };
}

/// Digging keeps the map's shape.
pub proof fn lemma_dug_shape(m: MapModel, p: Pos)
    requires
        m.wf(),
    ensures
        m.dug(p).wf(),
        m.dug(p).same_shape(m),
{
    if m.in_bounds(p) {
        lemma_index_bound(p.0 as int, p.1 as int, p.2 as int, m.xlen, m.ylen, m.zlen);
    }
}

/// Distinct in-bounds positions have distinct indices.
pub proof fn lemma_index_injective(x1: int, y1: int, z1: int, x2: int, y2: int, z2: int, xl: int, yl: int)
    requires
        0 <= x1 < xl,
        0 <= x2 < xl,
        0 <= y1 < yl,
        0 <= y2 < yl,
        0 <= z1,
        0 <= z2,
        flat_index(x1, y1, z1, xl, yl) == flat_index(x2, y2, z2, xl, yl),
    ensures
        x1 == x2 && y1 == y2 && z1 == z2,
{
    let a = y1 + yl * z1;
    let b = y2 + yl * z2;
    assert(a * xl == xl * a) by (nonlinear_arith);
    assert(b * xl == xl * b) by (nonlinear_arith);
    vstd::arithmetic::div_mod::lemma_fundamental_div_mod_converse(x1 + xl * a, xl, a, x1);
    vstd::arithmetic::div_mod::lemma_fundamental_div_mod_converse(x2 + xl * b, xl, b, x2);
    assert(z1 * yl == yl * z1) by (nonlinear_arith);
    assert(z2 * yl == yl * z2) by (nonlinear_arith);
    vstd::arithmetic::div_mod::lemma_fundamental_div_mod_converse(a, yl, z1, y1);
    vstd::arithmetic::div_mod::lemma_fundamental_div_mod_converse(b, yl, z2, y2);
}

/// In-bounds positions have indices below the tile count.
pub proof fn lemma_index_bound(x: int, y: int, z: int, xl: int, yl: int, zl: int)
    requires
        0 <= x < xl,
        0 <= y < yl,
        0 <= z < zl,
    ensures
        0 <= flat_index(x, y, z, xl, yl) < xl * yl * zl,
{
    assert(0 <= y + yl * z < yl * zl) by (nonlinear_arith)
        requires 0 <= y < yl, 0 <= z < zl;
    assert(0 <= x + xl * (y + yl * z) < xl * (yl * zl)) by (nonlinear_arith)
        requires 0 <= x < xl, 0 <= y + yl * z < yl * zl;
    assert(xl * (yl * zl) == xl * yl * zl) by (nonlinear_arith);
}

impl TileMap {
    pub closed spec fn wf(&self) -> bool {
        self@.wf()
    }

    /// An empty map (no tiles) over the given materials.
    pub fn new(materials: Materials) -> (r: TileMap)
        ensures
            r@.wf(),
            r@.tiles.len() == 0,
            r@.xlen == 0 && r@.ylen == 0 && r@.zlen == 0,
            r@.materials == materials@,
    {
        TileMap { tiles: Vec::new(), materials, xlen: 0, ylen: 0, zlen: 0 }
    }

    /// A map of the given extents holding the given tiles, or `None` when the
    /// tile count does not match the extents.
    pub fn from_tiles(tiles: Vec<Tile>, materials: Materials, size: Pos) -> (r: Option<TileMap>)
        ensures
            r is Some <==> (0 <= size.0 && 0 <= size.1 && 0 <= size.2 && size.0 * size.1 * size.2
                <= MAX_TILES && tiles@.len() == size.0 * size.1 * size.2),
            r matches Some(m) ==> m@.wf() && m@.tiles == tiles@ && m@.xlen == size.0
                && m@.ylen == size.1 && m@.zlen == size.2 && m@.materials == materials@,
    {
        let (x, y, z) = size;
        if x < 0 || y < 0 || z < 0 {
            return None;
        }
        assert(x * y < 0x4000_0000_0000_0000) by (nonlinear_arith)
            requires 0 <= x < 0x8000_0000, 0 <= y < 0x8000_0000;
        let xy = x as u64 * y as u64;
        if xy > MAX_TILES as u64 {
            assert(x * y * z > MAX_TILES || z == 0) by (nonlinear_arith)
                requires x * y > MAX_TILES, z >= 0;
            if z == 0 {
                assert(x * y * z == 0) by (nonlinear_arith) requires z == 0;
                if tiles.len() != 0 {
                    return None;
                }
                return Some(TileMap { tiles, materials, xlen: x, ylen: y, zlen: z });
            }
            return None;
        }
        assert(xy * z < 0x4000_0000_0000_0000) by (nonlinear_arith)
            requires 0 <= xy <= 0x7fff_ffff, 0 <= z < 0x8000_0000;
        let n = xy * z as u64;
        if n > MAX_TILES as u64 || tiles.len() as u64 != n {
            return None;
        }
        Some(TileMap { tiles, materials, xlen: x, ylen: y, zlen: z })
    }

    pub fn size(&self) -> (r: Pos)
        ensures
            r.0 == self@.xlen && r.1 == self@.ylen && r.2 == self@.zlen,
    {
        (self.xlen, self.ylen, self.zlen)
    }

    /// Copy of the tile vector, in index order.
    pub fn tiles(&self) -> (r: Vec<Tile>)
        ensures
            r@ == self@.tiles,
    {
        let mut r: Vec<Tile> = Vec::new();
        let mut i: usize = 0;
        while i < self.tiles.len()
            invariant
                i <= self.tiles@.len(),
                r@ == self.tiles@.subrange(0, i as int),
            decreases self.tiles@.len() - i,
        {
            r.push(self.tiles[i]);
            i += 1;
            assert(r@ =~= self.tiles@.subrange(0, i as int));
        }
        assert(r@ =~= self.tiles@);
        r
    }

    /// Resize the map as given, every tile reset to air.
    pub fn resize(&mut self, pos: Pos)
        requires
            0 <= pos.0 && 0 <= pos.1 && 0 <= pos.2,
            pos.0 * pos.1 * pos.2 <= MAX_TILES,
        ensures
            final(self)@.wf(),
            final(self)@.xlen == pos.0 && final(self)@.ylen == pos.1 && final(self)@.zlen == pos.2,
            final(self)@.materials == old(self)@.materials,
            forall|i: int| 0 <= i < final(self)@.tiles.len() ==> final(self)@.tiles[i] == air(),
    {
        let (x, y, z) = pos;
        assert(0 <= x * y * z) by (nonlinear_arith) requires 0 <= x, 0 <= y, 0 <= z;
        assert(x * y <= x * y * z || z == 0) by (nonlinear_arith) requires 0 <= x, 0 <= y, 0 <= z;
        let n: usize = if z == 0 {
            0
        } else {
            (x as usize) * (y as usize) * (z as usize)
        };
        assert(z == 0 ==> x * y * z == 0) by (nonlinear_arith);
        let mut tiles: Vec<Tile> = Vec::new();
        let mut i: usize = 0;
        while i < n
            invariant
                i <= n,
                tiles@.len() == i,
                forall|j: int| 0 <= j < i ==> tiles@[j] == air(),
            decreases n - i,
        {
            tiles.push(air_tile());
            i += 1;
        }
        self.tiles = tiles;
        self.xlen = x;
        self.ylen = y;
        self.zlen = z;
    }

    fn in_bounds(&self, pos: Pos) -> (r: bool)
        ensures
            r == self@.in_bounds(pos),
    {
        let (x, y, z) = pos;
        !(0 > x || 0 > y || 0 > z || x >= self.xlen || y >= self.ylen || z >= self.zlen)
    }

    fn coords_to_index(&self, pos: Pos) -> (r: usize)
        requires
            self@.wf(),
            self@.in_bounds(pos),
        ensures
            r == self@.index(pos),
            r < self@.tiles.len(),
    {
        let (x, y, z) = pos;
        proof {
            lemma_index_bound(x as int, y as int, z as int, self.xlen as int, self.ylen as int, self.zlen as int);
            assert(0 <= y + self.ylen * z <= self.ylen * self.zlen) by (nonlinear_arith)
                requires 0 <= y < self.ylen, 0 <= z < self.zlen;
            assert(0 <= self.ylen * z <= self.ylen * self.zlen) by (nonlinear_arith)
                requires 0 <= z < self.zlen, 0 <= self.ylen;
            assert(self.xlen * (y + self.ylen * z) <= self.xlen * self.ylen * self.zlen) by (nonlinear_arith)
                requires 0 <= y + self.ylen * z <= self.ylen * self.zlen, 0 <= self.xlen;
            assert(self.ylen * self.zlen <= self.xlen * self.ylen * self.zlen) by (nonlinear_arith)
                requires 1 <= self.xlen, 0 <= self.ylen, 0 <= self.zlen;
        }
        let yz = y as usize + (self.ylen as usize) * (z as usize);
        (x as usize) + (self.xlen as usize) * yz
    }

    /// The tile at `pos`, or `None` outside the map.
    pub fn get_tile(&self, pos: Pos) -> (r: Option<Tile>)
        requires
            self@.wf(),
        ensures
            r == self@.tile(pos),
    {
        if self.in_bounds(pos) {
            let index = self.coords_to_index(pos);
            Some(self.tiles[index])
        } else {
            None
        }
    }

    fn set_tile(&mut self, pos: Pos, tile: Tile)
        requires
            old(self)@.wf(),
        ensures
            final(self)@ == old(self)@.set_tile(pos, tile),
    {
        if self.in_bounds(pos) {
            let index = self.coords_to_index(pos);
            self.tiles.set(index, tile);
        }
    }

    /// Take over a tile's material from a tile update; the pending mark is cleared.
    pub fn update_tile(&mut self, new_tile: Tile, pos: Pos)
        requires
            old(self)@.wf(),
        ensures
            final(self)@ == (match old(self)@.tile(pos) {
                Some(t) => old(self)@.set_tile(pos, Tile { material: new_tile.material, marked: false, ..t }),
                None => old(self)@,
            }),
    {
        if let Some(t) = self.get_tile(pos) {
            self.set_tile(pos, Tile { material: new_tile.material, mode: t.mode, marked: false });
        }
    }

    /// Replace the tile's material with its dug material.
    pub fn dig(&mut self, pos: Pos)
        requires
            old(self)@.wf(),
        ensures
            final(self)@ == old(self)@.dug(pos),
    {
        let alt = self.get_alt(pos);
        if let Some(t) = self.get_tile(pos) {
            self.set_tile(pos, Tile { material: alt, mode: t.mode, marked: t.marked });
        }
    }

    /// Flag the tile as having a pending dig task.
    pub fn mark(&mut self, pos: Pos)
        requires
            old(self)@.wf(),
        ensures
            final(self)@ == (match old(self)@.tile(pos) {
                Some(t) => old(self)@.set_tile(pos, Tile { marked: true, ..t }),
                None => old(self)@,
            }),
    {
        if let Some(t) = self.get_tile(pos) {
            self.set_tile(pos, Tile { material: t.material, mode: t.mode, marked: true });
        }
    }

    /// Clear the tile's pending flag.
    pub fn unmark(&mut self, pos: Pos)
        requires
            old(self)@.wf(),
        ensures
            final(self)@ == (match old(self)@.tile(pos) {
                Some(t) => old(self)@.set_tile(pos, Tile { marked: false, ..t }),
                None => old(self)@,
            }),
    {
        if let Some(t) = self.get_tile(pos) {
            self.set_tile(pos, Tile { material: t.material, mode: t.mode, marked: false });
        }
    }

    fn grab_material(&self, pos: Pos) -> (r: Option<&Material>)
        requires
            self@.wf(),
        ensures
            r == (match self@.tile(pos) {
                Some(t) => if self@.materials.contains_key(t.material) {
                    Some(&self@.materials[t.material])
                } else {
                    None
                },
                None => None,
            }),
    {
        match self.get_tile(pos) {
            Some(tile) => self.materials.get(&tile.material),
            None => None,
        }
    }

    /// The material the tile at `pos` becomes once dug (0 when unknown).
    pub fn get_alt(&self, pos: Pos) -> (r: MaterialID)
        requires
            self@.wf(),
        ensures
            r == self@.alt(pos),
    {
        match self.grab_material(pos) {
            Some(material) => material.alt,
            None => 0,
        }
    }

    pub fn diggable(&self, pos: Pos) -> (r: bool)
        requires
            self@.wf(),
        ensures
            r == self@.diggable(pos),
    {
        match self.get_tile(pos) {
            Some(tile) => match self.materials.get(&tile.material) {
                Some(material) => material.diggable && !tile.marked,
                None => false,
            },
            None => false,
        }
    }

    pub fn passable(&self, pos: Pos) -> (r: bool)
        requires
            self@.wf(),
        ensures
            r == self@.passable(pos),
    {
        match self.get_tile(pos) {
            Some(tile) => match tile.mode {
                Mode::Block => match self.materials.get(&tile.material) {
                    Some(material) => material.passable,
                    None => false,
                },
                _ => true,
            },
            None => false,
        }
    }
}


/// A rectangular sub-volume snapshot of the grid, tiles in x, then y, then z order
/// (z varies fastest).
#[derive(Debug, PartialEq, Eq)]
pub struct MapChunk {
    pub tiles: Vec<Tile>,
    pub pos: Pos,
    pub xlen: PosUnit,
    pub ylen: PosUnit,
    pub zlen: PosUnit,
}

/// `p` moved by `(a, b, c)`.
pub open spec fn offset(p: Pos, a: int, b: int, c: int) -> Pos {
    ((p.0 + a) as i32, (p.1 + b) as i32, (p.2 + c) as i32)
}

/// The position of the tile at index `i` of a map with the extents of `m`.
pub open spec fn pos_of_index(m: MapModel, i: int) -> Pos {
    ((i % m.xlen) as i32, ((i / m.xlen) % m.ylen) as i32, (i / (m.xlen * m.ylen)) as i32)
}

impl MapChunk {
    /// The region lies inside `m` and the tile count matches the extents.
    pub open spec fn fits(&self, m: MapModel) -> bool {
        &&& 0 <= self.pos.0 && 0 <= self.pos.1 && 0 <= self.pos.2
        &&& 0 <= self.xlen && 0 <= self.ylen && 0 <= self.zlen
        &&& self.pos.0 + self.xlen <= m.xlen
        &&& self.pos.1 + self.ylen <= m.ylen
        &&& self.pos.2 + self.zlen <= m.zlen
        &&& self.tiles@.len() == self.xlen * self.ylen * self.zlen
    }

    pub open spec fn covers(&self, p: Pos) -> bool {
        &&& self.pos.0 <= p.0 < self.pos.0 + self.xlen
        &&& self.pos.1 <= p.1 < self.pos.1 + self.ylen
        &&& self.pos.2 <= p.2 < self.pos.2 + self.zlen
    }

    /// Index into `tiles` of the chunk-local offset `(a, b, c)`.
    pub open spec fn local(&self, a: int, b: int, c: int) -> int {
        flat_index(c, b, a, self.zlen as int, self.ylen as int)
    }

    pub open spec fn local_of(&self, p: Pos) -> int {
        self.local(p.0 - self.pos.0, p.1 - self.pos.1, p.2 - self.pos.2)
    }

    /// The chunk is a faithful snapshot of its region of `m`.
    pub open spec fn agrees(&self, m: MapModel) -> bool {
        &&& self.fits(m)
        &&& forall|a: int, b: int, c: int|
            0 <= a < self.xlen && 0 <= b < self.ylen && 0 <= c < self.zlen ==> #[trigger] self.tiles@[self.local(a, b, c)]
                == m.tiles[m.index(offset(self.pos, a, b, c))]
    }
}

impl MapModel {
    /// The map after writing the chunk's tiles at its origin (unchanged when it does not fit).
    pub open spec fn apply_chunk(self, c: MapChunk) -> MapModel {
        if c.fits(self) {
            MapModel {
                tiles: Seq::new(self.tiles.len(), |i: int|
                    if c.covers(pos_of_index(self, i)) {
                        c.tiles@[c.local_of(pos_of_index(self, i))]
                    } else {
                        self.tiles[i]
                    }),
                ..self
            }
        } else {
            self
        }
    }
}

/// The map after applying each chunk in turn.
pub open spec fn apply_chunks(m: MapModel, cs: Seq<MapChunk>) -> MapModel
    decreases cs.len(),
{
    if cs.len() == 0 {
        m
    } else {
        apply_chunks(m, cs.drop_last()).apply_chunk(cs.last())
    }
}

/// Number of chunks of extent `ext` needed to cover `len` tiles.
pub open spec fn chunk_count(len: int, ext: int) -> int {
    if len % ext == 0 { len / ext } else { len / ext + 1 }
}

/// The chunk of `to_chunks` at grid coordinates `(dx, dy, dz)`: origin and extents.
pub open spec fn chunk_origin(dx: int, dy: int, dz: int) -> Pos {
    ((dx * CHUNK_TILES_X) as i32, (dy * CHUNK_TILES_Y) as i32, (dz * CHUNK_TILES_Z) as i32)
}

pub open spec fn chunk_extent(m: MapModel, dx: int, dy: int, dz: int) -> Pos {
    (
        min_of(CHUNK_TILES_X as int, m.xlen - dx * CHUNK_TILES_X) as i32,
        min_of(CHUNK_TILES_Y as int, m.ylen - dy * CHUNK_TILES_Y) as i32,
        min_of(CHUNK_TILES_Z as int, m.zlen - dz * CHUNK_TILES_Z) as i32,
    )
}

/// `cs` is the chunk decomposition of `m`: chunk `(dx, dy, dz)` sits at index
/// `(dx * ny + dy) * nz + dz`, has the fixed extents clamped to the map, and holds
/// the map's tiles.
pub open spec fn is_chunking(m: MapModel, cs: Seq<MapChunk>) -> bool {
    let nx = chunk_count(m.xlen, CHUNK_TILES_X as int);
    let ny = chunk_count(m.ylen, CHUNK_TILES_Y as int);
    let nz = chunk_count(m.zlen, CHUNK_TILES_Z as int);
    &&& cs.len() == nx * ny * nz
    &&& forall|dx: int, dy: int, dz: int|
        0 <= dx < nx && 0 <= dy < ny && 0 <= dz < nz ==> {
            let c = #[trigger] cs[flat_index(dz, dy, dx, nz, ny)];
            &&& c.pos == chunk_origin(dx, dy, dz)
            &&& (c.xlen, c.ylen, c.zlen) == chunk_extent(m, dx, dy, dz)
            &&& c.agrees(m)
        }
    &&& forall|j: int| 0 <= j < cs.len() ==> (#[trigger] cs[j]).agrees(m)
}

pub proof fn lemma_pos_of_index(m: MapModel, p: Pos)
    requires
        m.wf(),
        m.in_bounds(p),
    ensures
        pos_of_index(m, m.index(p)) == p,
{
    let (x, y, z) = (p.0 as int, p.1 as int, p.2 as int);
    let a = y + m.ylen * z;
    let i = m.index(p);
    assert(a * m.xlen == m.xlen * a) by (nonlinear_arith);
    vstd::arithmetic::div_mod::lemma_fundamental_div_mod_converse(i, m.xlen, a, x);
    assert(z * m.ylen == m.ylen * z) by (nonlinear_arith);
    vstd::arithmetic::div_mod::lemma_fundamental_div_mod_converse(a, m.ylen, z, y);
    assert(0 <= i) by (nonlinear_arith)
        requires i == x + m.xlen * a, 0 <= x, 0 <= m.xlen, 0 <= a;
    vstd::arithmetic::div_mod::lemma_div_denominator(i, m.xlen, m.ylen);
}

pub proof fn lemma_index_of_pos(m: MapModel, i: int)
    requires
        m.wf(),
        0 <= i < m.tiles.len(),
    ensures
        m.in_bounds(pos_of_index(m, i)),
        m.index(pos_of_index(m, i)) == i,
{
    let xl = m.xlen;
    let yl = m.ylen;
    assert(xl > 0 && yl > 0 && m.zlen > 0) by (nonlinear_arith)
        requires 0 <= i < xl * yl * m.zlen, 0 <= xl, 0 <= yl, 0 <= m.zlen;
    vstd::arithmetic::div_mod::lemma_fundamental_div_mod(i, xl);
    vstd::arithmetic::div_mod::lemma_fundamental_div_mod(i / xl, yl);
    vstd::arithmetic::div_mod::lemma_div_denominator(i, xl, yl);
    let q = i / xl;
    assert(0 <= q) by (nonlinear_arith) requires 0 <= i, 0 < xl, q == i / xl;
    assert(0 <= i % xl < xl) by (nonlinear_arith) requires 0 < xl;
    assert(0 <= q % yl < yl) by (nonlinear_arith) requires 0 < yl;
    let z = q / yl;
    assert(0 <= z) by (nonlinear_arith) requires 0 <= q, 0 < yl, z == q / yl;
    assert(z < m.zlen) by (nonlinear_arith)
        requires z == i / (xl * yl), 0 <= i < xl * yl * m.zlen, 0 < xl, 0 < yl;
    assert(m.tiles.len() <= 0x7fff_ffff);
}

/// Applying every chunk of a decomposition of `m` to any map of the same shape
/// rebuilds `m` tile for tile.
pub proof fn lemma_chunk_round_trip(m: MapModel, n: MapModel, cs: Seq<MapChunk>)
    requires
        m.wf(),
        n.wf(),
        n.same_shape(m),
        is_chunking(m, cs),
    ensures
        apply_chunks(n, cs) == m,
{
    let nx = chunk_count(m.xlen, CHUNK_TILES_X as int);
    let ny = chunk_count(m.ylen, CHUNK_TILES_Y as int);
    let nz = chunk_count(m.zlen, CHUNK_TILES_Z as int);
    lemma_apply_prefix(m, n, cs, cs.len() as int);
    let r = apply_chunks(n, cs);
    assert forall|i: int| 0 <= i < m.tiles.len() implies r.tiles[i] == m.tiles[i] by {
        lemma_index_of_pos(m, i);
        let p = pos_of_index(m, i);
        let dx = p.0 / CHUNK_TILES_X;
        let dy = p.1 / CHUNK_TILES_Y;
        let dz = p.2 / CHUNK_TILES_Z;
        assert(0 <= dx < nx) by (nonlinear_arith)
            requires 0 <= p.0 < m.xlen, dx == p.0 / 8, nx == chunk_count(m.xlen, 8);
        assert(0 <= dy < ny) by (nonlinear_arith)
            requires 0 <= p.1 < m.ylen, dy == p.1 / 8, ny == chunk_count(m.ylen, 8);
        assert(0 <= dz < nz) by (nonlinear_arith)
            requires 0 <= p.2 < m.zlen, dz == p.2 / 1, nz == chunk_count(m.zlen, 1);
        assert(dx * 8 <= p.0 < dx * 8 + 8) by (nonlinear_arith) requires dx == p.0 / 8, 0 <= p.0;
        assert(dy * 8 <= p.1 < dy * 8 + 8) by (nonlinear_arith) requires dy == p.1 / 8, 0 <= p.1;
        let k = flat_index(dz, dy, dx, nz, ny);
        lemma_index_bound(dz, dy, dx, nz, ny, nx);
        assert(nz * ny * nx == nx * ny * nz) by (nonlinear_arith);
        let c = cs[k];
        assert(c.covers(p));
        assert(k < cs.len());
        assert(0 <= k);
        assert(cs.subrange(0, cs.len() as int) =~= cs);
    };
    assert(cs.subrange(0, cs.len() as int) =~= cs);
    assert(r.tiles =~= m.tiles);
}

/// A chunk that agrees with `m` holds `m`'s tile at every position it covers.
proof fn lemma_agrees_covers(c: MapChunk, m: MapModel, p: Pos)
    requires
        c.agrees(m),
        c.covers(p),
    ensures
        c.tiles@[c.local_of(p)] == m.tiles[m.index(p)],
{
    let a = p.0 - c.pos.0;
    let b = p.1 - c.pos.1;
    let d = p.2 - c.pos.2;
    assert(offset(c.pos, a, b, d) == p);
    assert(c.tiles@[c.local(a, b, d)] == m.tiles[m.index(offset(c.pos, a, b, d))]);
}

/// After the first `k` chunks, every position covered by one of them holds `m`'s tile.
proof fn lemma_apply_prefix(m: MapModel, n: MapModel, cs: Seq<MapChunk>, k: int)
    requires
        m.wf(),
        n.wf(),
        n.same_shape(m),
        0 <= k <= cs.len(),
        forall|j: int| 0 <= j < cs.len() ==> (#[trigger] cs[j]).agrees(m),
    ensures
        ({
            let r = apply_chunks(n, cs.subrange(0, k));
            &&& r.same_shape(m)
            &&& r.tiles.len() == m.tiles.len()
            &&& forall|i: int, j: int|
                0 <= i < m.tiles.len() && 0 <= j < k && (#[trigger] cs[j]).covers(#[trigger] pos_of_index(m, i))
                    ==> r.tiles[i] == m.tiles[i]
        }),
    decreases k,
{
    if k > 0 {
        lemma_apply_prefix(m, n, cs, k - 1);
        let prev = apply_chunks(n, cs.subrange(0, k - 1));
        assert(cs.subrange(0, k).drop_last() =~= cs.subrange(0, k - 1));
        let c = cs[k - 1];
        let r = apply_chunks(n, cs.subrange(0, k));
        assert(r == prev.apply_chunk(c));
        assert(c.fits(prev));
        assert forall|i: int, j: int|
            0 <= i < m.tiles.len() && 0 <= j < k && (#[trigger] cs[j]).covers(#[trigger] pos_of_index(m, i))
                implies r.tiles[i] == m.tiles[i] by {
            assert(pos_of_index(prev, i) == pos_of_index(m, i));
            if c.covers(pos_of_index(m, i)) {
                lemma_index_of_pos(m, i);
                lemma_agrees_covers(c, m, pos_of_index(m, i));
            } else {
                assert(j < k - 1);
            }
        };
    } else {
        assert(cs.subrange(0, 0) =~= Seq::<MapChunk>::empty());
    }
}

/// Moving past the last `z` of a row continues at the next `y`.
proof fn lemma_flat_next_y(y: int, x: int, zl: int, yl: int)
    ensures
        flat_index(zl, y, x, zl, yl) == flat_index(0, y + 1, x, zl, yl),
{
    assert(zl + zl * (y + yl * x) == zl * (y + 1 + yl * x)) by (nonlinear_arith);
}

/// Moving past the last `y` of a plane continues at the next `x`.
proof fn lemma_flat_next_x(x: int, zl: int, yl: int)
    ensures
        flat_index(0, yl, x, zl, yl) == flat_index(0, 0, x + 1, zl, yl),
{
    assert(zl * (yl + yl * x) == zl * (0 + yl * (x + 1))) by (nonlinear_arith);
}

/// The last index of the odometer order is the product of the extents.
proof fn lemma_flat_end(xl: int, yl: int, zl: int)
    ensures
        flat_index(0, 0, xl, zl, yl) == xl * yl * zl,
{
    assert(0 + zl * (0 + yl * xl) == xl * yl * zl) by (nonlinear_arith);
}

/// Number of chunks of extent `chunk_len` needed to cover `map_len` tiles.
pub fn get_num_chunks(map_len: PosUnit, chunk_len: PosUnit) -> (r: PosUnit)
    requires
        0 <= map_len,
        0 < chunk_len,
    ensures
        r == chunk_count(map_len as int, chunk_len as int),
        0 <= r <= map_len,
{
    proof {
        vstd::arithmetic::div_mod::lemma_fundamental_div_mod(map_len as int, chunk_len as int);
        assert(0 <= map_len % chunk_len < chunk_len) by (nonlinear_arith) requires 0 < chunk_len;
        assert(0 <= map_len / chunk_len) by (nonlinear_arith) requires 0 <= map_len, 0 < chunk_len;
        assert(map_len % chunk_len != 0 ==> map_len / chunk_len < map_len) by (nonlinear_arith)
            requires map_len == chunk_len * (map_len / chunk_len) + map_len % chunk_len, 0 < chunk_len,
                0 <= map_len / chunk_len, 0 <= map_len % chunk_len;
        assert(map_len / chunk_len <= map_len) by (nonlinear_arith)
            requires map_len == chunk_len * (map_len / chunk_len) + map_len % chunk_len, 0 < chunk_len,
                0 <= map_len / chunk_len, 0 <= map_len % chunk_len;
    }
    if map_len % chunk_len == 0 {
        map_len / chunk_len
    } else {
        map_len / chunk_len + 1
    }
}

impl TileMap {
    /// Snapshot of the region of the given extents at `pos`.
    pub fn get_chunk(&self, pos: Pos, size: Pos) -> (r: MapChunk)
        requires
            self@.wf(),
            0 <= pos.0 && 0 <= pos.1 && 0 <= pos.2,
            0 <= size.0 && 0 <= size.1 && 0 <= size.2,
            pos.0 + size.0 <= self@.xlen,
            pos.1 + size.1 <= self@.ylen,
            pos.2 + size.2 <= self@.zlen,
        ensures
            r.pos == pos,
            r.xlen == size.0 && r.ylen == size.1 && r.zlen == size.2,
            r.agrees(self@),
    {
        let (x0, y0, z0) = pos;
        let (xl, yl, zl) = size;
        let ghost m = self@;
        let mut tiles: Vec<Tile> = Vec::new();
        let mut x: i32 = 0;
        assert(flat_index(0, 0, 0, zl as int, yl as int) == 0) by (nonlinear_arith);
        while x < xl
            invariant
                self@ == m,
                m.wf(),
                pos == (x0, y0, z0),
                0 <= x <= xl,
                0 <= x0 && 0 <= y0 && 0 <= z0 && 0 <= yl && 0 <= zl,
                x0 + xl <= m.xlen && y0 + yl <= m.ylen && z0 + zl <= m.zlen,
                tiles@.len() == flat_index(0, 0, x as int, zl as int, yl as int),
                forall|a: int, b: int, c: int|
                    0 <= a < xl && 0 <= b < yl && 0 <= c < zl && flat_index(c, b, a, zl as int, yl as int)
                        < tiles@.len() ==> #[trigger] tiles@[flat_index(c, b, a, zl as int, yl as int)]
                        == m.tiles[m.index(offset(pos, a, b, c))],
            decreases xl - x,
        {
            let mut y: i32 = 0;
            while y < yl
                invariant
                    self@ == m,
                    m.wf(),
                    pos == (x0, y0, z0),
                    0 <= x < xl,
                    0 <= y <= yl,
                    0 <= x0 && 0 <= y0 && 0 <= z0 && 0 <= zl,
                    x0 + xl <= m.xlen && y0 + yl <= m.ylen && z0 + zl <= m.zlen,
                    tiles@.len() == flat_index(0, y as int, x as int, zl as int, yl as int),
                    forall|a: int, b: int, c: int|
                        0 <= a < xl && 0 <= b < yl && 0 <= c < zl && flat_index(c, b, a, zl as int, yl as int)
                            < tiles@.len() ==> #[trigger] tiles@[flat_index(c, b, a, zl as int, yl as int)]
                            == m.tiles[m.index(offset(pos, a, b, c))],
                decreases yl - y,
            {
                let mut z: i32 = 0;
                while z < zl
                    invariant
                        self@ == m,
                        m.wf(),
                        pos == (x0, y0, z0),
                        0 <= x < xl,
                        0 <= y < yl,
                        0 <= z <= zl,
                        0 <= x0 && 0 <= y0 && 0 <= z0,
                        x0 + xl <= m.xlen && y0 + yl <= m.ylen && z0 + zl <= m.zlen,
                        tiles@.len() == flat_index(z as int, y as int, x as int, zl as int, yl as int),
                        forall|a: int, b: int, c: int|
                            0 <= a < xl && 0 <= b < yl && 0 <= c < zl && flat_index(c, b, a, zl as int, yl as int)
                                < tiles@.len() ==> #[trigger] tiles@[flat_index(c, b, a, zl as int, yl as int)]
                                == m.tiles[m.index(offset(pos, a, b, c))],
                    decreases zl - z,
                {
                    let p = (x0 + x, y0 + y, z0 + z);
                    let index = self.coords_to_index(p);
                    let ghost len0 = tiles@.len();
                    tiles.push(self.tiles[index]);
                    proof {
                        assert(p == offset(pos, x as int, y as int, z as int));
                        assert forall|a: int, b: int, c: int|
                            0 <= a < xl && 0 <= b < yl && 0 <= c < zl && flat_index(c, b, a, zl as int, yl as int)
                                < tiles@.len() implies #[trigger] tiles@[flat_index(c, b, a, zl as int, yl as int)]
                                == m.tiles[m.index(offset(pos, a, b, c))] by {
                            if flat_index(c, b, a, zl as int, yl as int) == len0 {
                                lemma_index_injective(c, b, a, z as int, y as int, x as int, zl as int, yl as int);
                            }
                        };
                    }
                    z += 1;
                }
                proof { lemma_flat_next_y(y as int, x as int, zl as int, yl as int); }
                y += 1;
            }
            proof { lemma_flat_next_x(x as int, zl as int, yl as int); }
            x += 1;
        }
        proof {
            lemma_flat_end(xl as int, yl as int, zl as int);
            assert forall|a: int, b: int, c: int|
                0 <= a < xl && 0 <= b < yl && 0 <= c < zl implies flat_index(c, b, a, zl as int, yl as int)
                    < tiles@.len() by {
                lemma_index_bound(c, b, a, zl as int, yl as int, xl as int);
                assert(zl * yl * xl == xl * yl * zl) by (nonlinear_arith);
            };
        }
        MapChunk { tiles, pos, xlen: xl, ylen: yl, zlen: zl }
    }

    /// Whether the chunk fits in the map and its tile count matches its extents.
    pub fn chunk_fits(&self, chunk: &MapChunk) -> (r: bool)
        requires
            self@.wf(),
        ensures
            r == chunk.fits(self@),
            r ==> chunk.tiles@.len() <= MAX_TILES,
    {
        let (x0, y0, z0) = chunk.pos;
        if x0 < 0 || y0 < 0 || z0 < 0 || chunk.xlen < 0 || chunk.ylen < 0 || chunk.zlen < 0 {
            return false;
        }
        if x0 as i64 + chunk.xlen as i64 > self.xlen as i64 || y0 as i64 + chunk.ylen as i64
            > self.ylen as i64 || z0 as i64 + chunk.zlen as i64 > self.zlen as i64 {
            return false;
        }
        let xl = chunk.xlen as u64;
        let yl = chunk.ylen as u64;
        let zl = chunk.zlen as u64;
        proof {
            let m = self@;
            assert(xl * yl <= m.xlen * m.ylen) by (nonlinear_arith)
                requires xl <= m.xlen, yl <= m.ylen, 0 <= xl, 0 <= yl;
            assert(xl * yl * zl <= m.xlen * m.ylen * m.zlen) by (nonlinear_arith)
                requires xl * yl <= m.xlen * m.ylen, zl <= m.zlen, 0 <= xl * yl, 0 <= zl, 0 <= m.xlen * m.ylen;
            assert(0 <= xl * yl) by (nonlinear_arith) requires 0 <= xl, 0 <= yl;
            assert(xl * yl < 0x4000_0000_0000_0000) by (nonlinear_arith)
                requires 0 <= xl < 0x8000_0000, 0 <= yl < 0x8000_0000;
            assert(xl * yl * zl <= 0x7fff_ffff) by (nonlinear_arith)
                requires xl * yl * zl <= m.xlen * m.ylen * m.zlen, m.xlen * m.ylen * m.zlen <= 0x7fff_ffff;
        }
        chunk.tiles.len() as u64 == xl * yl * zl
    }

    /// Write a chunk's tiles back into the grid at its origin. A chunk that does
    /// not fit leaves the map unchanged.
    pub fn apply_chunk(&mut self, chunk: &MapChunk)
        requires
            old(self)@.wf(),
        ensures
            final(self)@ == old(self)@.apply_chunk(*chunk),
            final(self)@.wf(),
    {
        if !self.chunk_fits(chunk) {
            return;
        }
        let ghost m = self@;
        let (x0, y0, z0) = chunk.pos;
        let xl = chunk.xlen;
        let yl = chunk.ylen;
        let zl = chunk.zlen;
        let ghost pos = chunk.pos;
        let mut chunk_i: usize = 0;
        let mut x: i32 = 0;
        assert(flat_index(0, 0, 0, zl as int, yl as int) == 0) by (nonlinear_arith);
        while x < xl
            invariant
                self@.same_shape(m),
                self@.tiles.len() == m.tiles.len(),
                m.wf(),
                chunk.fits(m),
                chunk.tiles@.len() <= MAX_TILES,
                pos == chunk.pos && xl == chunk.xlen && yl == chunk.ylen && zl == chunk.zlen,
                pos == (x0, y0, z0),
                0 <= x <= xl,
                chunk_i == flat_index(0, 0, x as int, zl as int, yl as int),
                forall|i: int| 0 <= i < m.tiles.len() ==> #[trigger] self@.tiles[i] == if chunk.covers(
                    pos_of_index(m, i)) && chunk.local_of(pos_of_index(m, i)) < chunk_i {
                    chunk.tiles@[chunk.local_of(pos_of_index(m, i))]
                } else {
                    m.tiles[i]
                },
            decreases xl - x,
        {
            let mut y: i32 = 0;
            while y < yl
                invariant
                    self@.same_shape(m),
                    self@.tiles.len() == m.tiles.len(),
                    m.wf(),
                    chunk.fits(m),
                    chunk.tiles@.len() <= MAX_TILES,
                chunk.tiles@.len() <= MAX_TILES,
                    pos == chunk.pos && xl == chunk.xlen && yl == chunk.ylen && zl == chunk.zlen,
                    pos == (x0, y0, z0),
                    0 <= x < xl,
                    0 <= y <= yl,
                    chunk_i == flat_index(0, y as int, x as int, zl as int, yl as int),
                    forall|i: int| 0 <= i < m.tiles.len() ==> #[trigger] self@.tiles[i] == if chunk.covers(
                        pos_of_index(m, i)) && chunk.local_of(pos_of_index(m, i)) < chunk_i {
                        chunk.tiles@[chunk.local_of(pos_of_index(m, i))]
                    } else {
                        m.tiles[i]
                    },
                decreases yl - y,
            {
                let mut z: i32 = 0;
                while z < zl
                    invariant
                        self@.same_shape(m),
                        self@.tiles.len() == m.tiles.len(),
                        m.wf(),
                        chunk.fits(m),
                        chunk.tiles@.len() <= MAX_TILES,
                    chunk.tiles@.len() <= MAX_TILES,
                chunk.tiles@.len() <= MAX_TILES,
                        pos == chunk.pos && xl == chunk.xlen && yl == chunk.ylen && zl == chunk.zlen,
                        pos == (x0, y0, z0),
                        0 <= x < xl,
                        0 <= y < yl,
                        0 <= z <= zl,
                        chunk_i == flat_index(z as int, y as int, x as int, zl as int, yl as int),
                        forall|i: int| 0 <= i < m.tiles.len() ==> #[trigger] self@.tiles[i] == if chunk.covers(
                            pos_of_index(m, i)) && chunk.local_of(pos_of_index(m, i)) < chunk_i {
                            chunk.tiles@[chunk.local_of(pos_of_index(m, i))]
                        } else {
                            m.tiles[i]
                        },
                    decreases zl - z,
                {
                    let p = (x0 + x, y0 + y, z0 + z);
                    proof {
                        lemma_index_bound(z as int, y as int, x as int, zl as int, yl as int, xl as int);
                        assert(zl * yl * xl == xl * yl * zl) by (nonlinear_arith);
                    }
                    let map_i = self.coords_to_index(p);
                    let t = chunk.tiles[chunk_i];
                    let ghost before = self@.tiles;
                    self.tiles.set(map_i, t);
                    proof {
                        lemma_pos_of_index(m, p);
                        assert(chunk.local_of(p) == chunk_i);
                        assert forall|i: int| 0 <= i < m.tiles.len() implies #[trigger] self@.tiles[i] == if chunk.covers(
                            pos_of_index(m, i)) && chunk.local_of(pos_of_index(m, i)) < chunk_i + 1 {
                            chunk.tiles@[chunk.local_of(pos_of_index(m, i))]
                        } else {
                            m.tiles[i]
                        } by {
                            if i != map_i {
                                let q = pos_of_index(m, i);
                                if chunk.covers(q) && chunk.local_of(q) == chunk_i {
                                    lemma_index_injective(q.2 - z0, q.1 - y0, q.0 - x0, z as int, y as int,
                                        x as int, zl as int, yl as int);
                                    lemma_index_of_pos(m, i);
                                    assert(q == p);
                                }
                                assert(self@.tiles[i] == before[i]);
                            }
                        };
                    }
                    chunk_i += 1;
                    z += 1;
                }
                proof { lemma_flat_next_y(y as int, x as int, zl as int, yl as int); }
                y += 1;
            }
            proof { lemma_flat_next_x(x as int, zl as int, yl as int); }
            x += 1;
        }
        proof {
            lemma_flat_end(xl as int, yl as int, zl as int);
            assert forall|i: int| 0 <= i < m.tiles.len() implies #[trigger] self@.tiles[i]
                == m.apply_chunk(*chunk).tiles[i] by {
                let q = pos_of_index(m, i);
                if chunk.covers(q) {
                    lemma_index_bound(q.2 - z0, q.1 - y0, q.0 - x0, zl as int, yl as int, xl as int);
                    assert(zl * yl * xl == xl * yl * zl) by (nonlinear_arith);
                }
            };
            assert(self@.tiles =~= m.apply_chunk(*chunk).tiles);
        }
    }
}

/// A chunk index below the chunk count starts inside the map.
proof fn lemma_chunk_start(len: int, ext: int, d: int)
    requires
        0 <= len,
        0 < ext,
        0 <= d < chunk_count(len, ext),
    ensures
        0 <= d * ext < len,
{
    vstd::arithmetic::div_mod::lemma_fundamental_div_mod(len, ext);
    assert(0 <= len % ext < ext) by (nonlinear_arith) requires 0 < ext;
    assert(0 <= d * ext < len) by (nonlinear_arith)
        requires len == ext * (len / ext) + len % ext, 0 <= len % ext < ext, 0 <= d,
            d < (if len % ext == 0 { len / ext } else { len / ext + 1 }), 0 < ext;
}

impl TileMap {
    /// Partition the grid into chunks of the fixed extents, the last chunk on each
    /// axis clamped to what remains; ordered by x, then y, then z chunk coordinate.
    pub fn to_chunks(&self) -> (r: Vec<MapChunk>)
        requires
            self@.wf(),
        ensures
            is_chunking(self@, r@),
    {
        let ghost m = self@;
        let mut r: Vec<MapChunk> = Vec::new();
        let nx = get_num_chunks(self.xlen, CHUNK_TILES_X);
        let ny = get_num_chunks(self.ylen, CHUNK_TILES_Y);
        let nz = get_num_chunks(self.zlen, CHUNK_TILES_Z);
        assert(flat_index(0, 0, 0, nz as int, ny as int) == 0) by (nonlinear_arith);
        let mut dx: i32 = 0;
        while dx < nx
            invariant
                0 <= dx <= nx,
                r@.len() == flat_index(0, 0, dx as int, nz as int, ny as int),
                m.wf(),
                self@ == m,
                nx == chunk_count(m.xlen, CHUNK_TILES_X as int),
                ny == chunk_count(m.ylen, CHUNK_TILES_Y as int),
                nz == chunk_count(m.zlen, CHUNK_TILES_Z as int),
                0 <= nx && 0 <= ny && 0 <= nz,
                forall|j: int| 0 <= j < r@.len() ==> (#[trigger] r@[j]).agrees(m),
                forall|a: int, b: int, c: int|
                    0 <= a < nx && 0 <= b < ny && 0 <= c < nz && flat_index(c, b, a, nz as int, ny as int) < r@.len() ==> {
                        let ch = #[trigger] r@[flat_index(c, b, a, nz as int, ny as int)];
                        &&& ch.pos == chunk_origin(a, b, c)
                        &&& (ch.xlen, ch.ylen, ch.zlen) == chunk_extent(m, a, b, c)
                    },
            decreases nx - dx,
        {
            let mut dy: i32 = 0;
            while dy < ny
                invariant
                    0 <= dx < nx,
                    0 <= dy <= ny,
                    r@.len() == flat_index(0, dy as int, dx as int, nz as int, ny as int),
                    m.wf(),
                    self@ == m,
                    nx == chunk_count(m.xlen, CHUNK_TILES_X as int),
                    ny == chunk_count(m.ylen, CHUNK_TILES_Y as int),
                    nz == chunk_count(m.zlen, CHUNK_TILES_Z as int),
                    0 <= nx && 0 <= ny && 0 <= nz,
                    forall|j: int| 0 <= j < r@.len() ==> (#[trigger] r@[j]).agrees(m),
                    forall|a: int, b: int, c: int|
                        0 <= a < nx && 0 <= b < ny && 0 <= c < nz && flat_index(c, b, a, nz as int, ny as int) < r@.len() ==> {
                            let ch = #[trigger] r@[flat_index(c, b, a, nz as int, ny as int)];
                            &&& ch.pos == chunk_origin(a, b, c)
                            &&& (ch.xlen, ch.ylen, ch.zlen) == chunk_extent(m, a, b, c)
                        },
                decreases ny - dy,
            {
                let mut dz: i32 = 0;
                while dz < nz
                    invariant
                        0 <= dx < nx,
                        0 <= dy < ny,
                        0 <= dz <= nz,
                        r@.len() == flat_index(dz as int, dy as int, dx as int, nz as int, ny as int),
                        m.wf(),
                        self@ == m,
                        nx == chunk_count(m.xlen, CHUNK_TILES_X as int),
                        ny == chunk_count(m.ylen, CHUNK_TILES_Y as int),
                        nz == chunk_count(m.zlen, CHUNK_TILES_Z as int),
                        0 <= nx && 0 <= ny && 0 <= nz,
                        forall|j: int| 0 <= j < r@.len() ==> (#[trigger] r@[j]).agrees(m),
                        forall|a: int, b: int, c: int|
                            0 <= a < nx && 0 <= b < ny && 0 <= c < nz && flat_index(c, b, a, nz as int, ny as int) < r@.len() ==> {
                                let ch = #[trigger] r@[flat_index(c, b, a, nz as int, ny as int)];
                                &&& ch.pos == chunk_origin(a, b, c)
                                &&& (ch.xlen, ch.ylen, ch.zlen) == chunk_extent(m, a, b, c)
                            },
                    decreases nz - dz,
                {
                    proof {
                        lemma_chunk_start(m.xlen, CHUNK_TILES_X as int, dx as int);
                        lemma_chunk_start(m.ylen, CHUNK_TILES_Y as int, dy as int);
                        lemma_chunk_start(m.zlen, CHUNK_TILES_Z as int, dz as int);
                    }
                    let x = dx * CHUNK_TILES_X;
                    let y = dy * CHUNK_TILES_Y;
                    let z = dz * CHUNK_TILES_Z;
                    let xlen = if CHUNK_TILES_X <= self.xlen - x { CHUNK_TILES_X } else { self.xlen - x };
                    let ylen = if CHUNK_TILES_Y <= self.ylen - y { CHUNK_TILES_Y } else { self.ylen - y };
                    let zlen = if CHUNK_TILES_Z <= self.zlen - z { CHUNK_TILES_Z } else { self.zlen - z };
                    let chunk = self.get_chunk((x, y, z), (xlen, ylen, zlen));
                    let ghost len0 = r@.len();
                    r.push(chunk);
                    proof {
                        assert forall|a: int, b: int, c: int|
                            0 <= a < nx && 0 <= b < ny && 0 <= c < nz && flat_index(c, b, a, nz as int, ny as int)
                                < r@.len() implies {
                                let ch = #[trigger] r@[flat_index(c, b, a, nz as int, ny as int)];
                                &&& ch.pos == chunk_origin(a, b, c)
                                &&& (ch.xlen, ch.ylen, ch.zlen) == chunk_extent(m, a, b, c)
                            } by {
                            if flat_index(c, b, a, nz as int, ny as int) == len0 {
                                lemma_index_injective(c, b, a, dz as int, dy as int, dx as int, nz as int, ny as int);
                            }
                        };
                    }
                    dz += 1;
                }
                proof { lemma_flat_next_y(dy as int, dx as int, nz as int, ny as int); }
                dy += 1;
            }
            proof { lemma_flat_next_x(dx as int, nz as int, ny as int); }
            dx += 1;
        }
        proof {
            lemma_flat_end(nx as int, ny as int, nz as int);
            assert forall|a: int, b: int, c: int|
                0 <= a < nx && 0 <= b < ny && 0 <= c < nz implies flat_index(c, b, a, nz as int, ny as int)
                    < r@.len() by {
                lemma_index_bound(c, b, a, nz as int, ny as int, nx as int);
                assert(nz * ny * nx == nx * ny * nz) by (nonlinear_arith);
            };
        }
        r
    }
}

} // verus!
