//! The bootstrap map file: a header line `version,xlen,ylen,zlen`, then rows of
//! comma-separated cells `material[;mode]` (the mode defaults to a block).

use vstd::prelude::*;
use crate::geometry::Pos;
use crate::map::{mode_of, to_mode, Materials, Mode, Tile, TileMap, MAX_TILES};

verus! {

/// Why a map file could not be loaded.
#[derive(Clone, Copy, Debug, PartialEq, Eq, Structural)]
pub enum MapLoadError {
    /// The first line does not hold a version and three extents.
    BadHeader,
    /// The version is below 1.
    BadVersion,
    /// A cell's material or mode is not a number in range.
    BadCell,
    /// A cell's mode code names no mode.
    BadMode,
    /// The number of cells does not match the extents.
    WrongTileCount,
}

/// `s` cut at every `sep` (always at least one field).
pub open spec fn split(s: Seq<u8>, sep: u8) -> Seq<Seq<u8>>
    decreases s.len(),
{
    if s.len() == 0 {
        seq![Seq::empty()]
    } else {
        let r = split(s.drop_last(), sep);
        if s.last() == sep {
            r.push(Seq::empty())
        } else {
            r.update(r.len() - 1, r.last().push(s.last()))
        }
    }
}

/// `s` without one trailing carriage return.
pub open spec fn strip_cr(s: Seq<u8>) -> Seq<u8> {
    if s.len() > 0 && s.last() == 13u8 { s.drop_last() } else { s }
}

pub open spec fn is_digits(s: Seq<u8>) -> bool {
    s.len() >= 1 && forall|i: int| 0 <= i < s.len() ==> 48u8 <= #[trigger] s[i] <= 57u8
}

pub open spec fn digits_value(s: Seq<u8>) -> nat
    decreases s.len(),
{
    if s.len() == 0 { 0 } else { digits_value(s.drop_last()) * 10 + (s.last() - 48) as nat }
}

/// The decimal number `s` spells, if it is one no larger than `max`.
pub open spec fn parse_num(s: Seq<u8>, max: nat) -> Option<nat> {
    if is_digits(s) && digits_value(s) <= max { Some(digits_value(s)) } else { None }
}

/// A cell's tile; `Ok(None)` for a cell with no material, which is skipped.
pub open spec fn parse_cell(c: Seq<u8>) -> Result<Option<Tile>, MapLoadError> {
    let parts = split(c, 59u8);
    if parts[0].len() == 0 {
        Ok(None)
    } else {
        match parse_num(parts[0], 0xffff) {
            None => Err(MapLoadError::BadCell),
            Some(material) => if parts.len() >= 2 {
                match parse_num(parts[1], 0xffff_ffff) {
                    None => Err(MapLoadError::BadCell),
                    Some(code) => match mode_of(code as u32) {
                        None => Err(MapLoadError::BadMode),
                        Some(mode) => Ok(Some(Tile { material: material as u16, mode, marked: false })),
                    },
                }
            } else {
                Ok(Some(Tile { material: material as u16, mode: Mode::Block, marked: false }))
            },
        }
    }
}

/// The tiles of the first `k` cells, in order, or the first failure.
pub open spec fn cells_tiles(cells: Seq<Seq<u8>>, k: int) -> Result<Seq<Tile>, MapLoadError>
    decreases k,
{
    if k <= 0 {
        Ok(Seq::empty())
    } else {
        match cells_tiles(cells, k - 1) {
            Err(e) => Err(e),
            Ok(ts) => match parse_cell(cells[k - 1]) {
                Err(e) => Err(e),
                Ok(None) => Ok(ts),
                Ok(Some(t)) => Ok(ts.push(t)),
            },
        }
    }
}

/// The tiles of the rows `1..k` of `lines`, in order, or the first failure.
pub open spec fn rows_tiles(lines: Seq<Seq<u8>>, k: int) -> Result<Seq<Tile>, MapLoadError>
    decreases k,
{
    if k <= 1 {
        Ok(Seq::empty())
    } else {
        match rows_tiles(lines, k - 1) {
            Err(e) => Err(e),
            Ok(ts) => {
                let cells = split(strip_cr(lines[k - 1]), 44u8);
                match cells_tiles(cells, cells.len() as int) {
                    Err(e) => Err(e),
                    Ok(more) => Ok(ts + more),
                }
            },
        }
    }
}

/// The extents the header line gives.
pub open spec fn parse_header(line: Seq<u8>) -> Result<Pos, MapLoadError> {
    let f = split(strip_cr(line), 44u8);
    if f.len() < 4 {
        Err(MapLoadError::BadHeader)
    } else {
        match (parse_num(f[0], 0x7fff_ffff), parse_num(f[1], 0x7fff_ffff), parse_num(f[2], 0x7fff_ffff), parse_num(f[3], 0x7fff_ffff)) {
            (Some(v), Some(x), Some(y), Some(z)) => if v < 1 {
                Err(MapLoadError::BadVersion)
            } else {
                Ok((x as i32, y as i32, z as i32))
            },
            _ => Err(MapLoadError::BadHeader),
        }
    }
}

/// The extents and tiles a map file holds.
pub open spec fn parse_map(text: Seq<u8>) -> Result<(Pos, Seq<Tile>), MapLoadError> {
    let lines = split(text, 10u8);
    match parse_header(lines[0]) {
        Err(e) => Err(e),
        Ok(size) => match rows_tiles(lines, lines.len() as int) {
            Err(e) => Err(e),
            Ok(ts) => Ok((size, ts)),
        },
    }
}

pub open spec fn deep(v: Seq<Vec<u8>>) -> Seq<Seq<u8>> {
    v.map_values(|f: Vec<u8>| f@)
}

proof fn lemma_split_nonempty(s: Seq<u8>, sep: u8)
    ensures
        split(s, sep).len() >= 1,
    decreases s.len(),
{
    if s.len() > 0 {
        lemma_split_nonempty(s.drop_last(), sep);
    }
}

/// Cut `s[from..to]` at every `sep`.
fn split_bytes(s: &[u8], from: usize, to: usize, sep: u8) -> (r: Vec<Vec<u8>>)
    requires
        from <= to <= s@.len(),
    ensures
        deep(r@) == split(s@.subrange(from as int, to as int), sep),
{
    let mut fields: Vec<Vec<u8>> = Vec::new();
    let mut cur: Vec<u8> = Vec::new();
    let mut i: usize = from;
    assert(s@.subrange(from as int, from as int) =~= Seq::<u8>::empty());
    assert(deep(fields@).push(cur@) =~= seq![Seq::<u8>::empty()]);
    while i < to
        invariant
            from <= i <= to <= s@.len(),
            deep(fields@).push(cur@) == split(s@.subrange(from as int, i as int), sep),
        decreases to - i,
    {
        let b = s[i];
        let ghost prev = s@.subrange(from as int, i as int);
        assert(s@.subrange(from as int, i + 1).drop_last() =~= prev);
        proof { lemma_split_nonempty(prev, sep); }
        if b == sep {
            let mut done: Vec<u8> = Vec::new();
            std::mem::swap(&mut cur, &mut done);
            fields.push(done);
            assert(deep(fields@).push(cur@) =~= split(prev, sep).push(Seq::empty()));
        } else {
            cur.push(b);
            assert(deep(fields@).push(cur@) =~= split(prev, sep).update(split(prev, sep).len() - 1, split(prev, sep).last().push(b)));
        }
        i += 1;
    }
    fields.push(cur);
    assert(deep(fields@) =~= split(s@.subrange(from as int, to as int), sep));
    fields
}

/// The decimal number `s` spells, if it is one no larger than `max`.
fn parse_num_exec(s: &Vec<u8>, max: u64) -> (r: Option<u64>)
    requires
        max <= 0xffff_ffff,
    ensures
        match parse_num(s@, max as nat) {
            Some(v) => r == Some(v as u64),
            None => r is None,
        },
{
    if s.len() == 0 {
        return None;
    }
    let mut v: u64 = 0;
    let mut i: usize = 0;
    while i < s.len()
        invariant
            i <= s@.len(),
            s@.len() >= 1,
            v == digits_value(s@.subrange(0, i as int)),
            v <= max,
            max <= 0xffff_ffff,
            forall|k: int| 0 <= k < i ==> 48u8 <= #[trigger] s@[k] <= 57u8,
        decreases s@.len() - i,
    {
        let b = s[i];
        assert(s@.subrange(0, i + 1).drop_last() =~= s@.subrange(0, i as int));
        if b < 48 || b > 57 {
            assert(!is_digits(s@));
            return None;
        }
        let nv = v * 10 + (b - 48) as u64;
        if nv > max {
            proof { lemma_digits_grow(s@, i as int + 1); }
            return None;
        }
        v = nv;
        i += 1;
    }
    assert(s@.subrange(0, s@.len() as int) =~= s@);
    Some(v)
}

/// A digit string is worth at least any of its prefixes.
proof fn lemma_digits_grow(s: Seq<u8>, k: int)
    requires
        0 <= k <= s.len(),
    ensures
        digits_value(s.subrange(0, k)) <= digits_value(s),
    decreases s.len() - k,
{
    if k < s.len() {
        lemma_digits_grow(s, k + 1);
        assert(s.subrange(0, k + 1).drop_last() =~= s.subrange(0, k));
    } else {
        assert(s.subrange(0, k) =~= s);
    }
}

fn parse_cell_exec(c: &Vec<u8>) -> (r: Result<Option<Tile>, MapLoadError>)
    ensures
        r == parse_cell(c@),
{
    let parts = split_bytes(c.as_slice(), 0, c.len(), 59u8);
    assert(c@.subrange(0, c@.len() as int) =~= c@);
    proof { lemma_split_nonempty(c@, 59u8); }
    assert(parts@[0]@ == deep(parts@)[0]);
    if parts[0].len() == 0 {
        return Ok(None);
    }
    match parse_num_exec(&parts[0], 0xffff) {
        None => Err(MapLoadError::BadCell),
        Some(material) => {
            if parts.len() >= 2 {
                assert(parts@[1]@ == deep(parts@)[1]);
                match parse_num_exec(&parts[1], 0xffff_ffff) {
                    None => Err(MapLoadError::BadCell),
                    Some(code) => match to_mode(code as u32) {
                        None => Err(MapLoadError::BadMode),
                        Some(mode) => Ok(Some(Tile { material: material as u16, mode, marked: false })),
                    },
                }
            } else {
                Ok(Some(Tile { material: material as u16, mode: Mode::Block, marked: false }))
            }
        },
    }
}

/// Index one past the end of line content starting at `from`, carriage return excluded,
/// and the index of the next line.
fn line_end(text: &[u8], from: usize, to: usize) -> (r: usize)
    requires
        from <= to <= text@.len(),
    ensures
        from <= r <= to,
        text@.subrange(from as int, r as int) == strip_cr(text@.subrange(from as int, to as int)),
{
    if to > from && text[to - 1] == 13u8 {
        assert(text@.subrange(from as int, to - 1) =~= text@.subrange(from as int, to as int).drop_last());
        to - 1
    } else {
        to
    }
}

/// Load a map from the text of a map file, over the given materials.
pub fn load_map(text: &[u8], materials: Materials) -> (r: Result<TileMap, MapLoadError>)
    ensures
        match parse_map(text@) {
            Err(e) => r == Err::<TileMap, MapLoadError>(e),
            Ok((size, tiles)) => if 0 <= size.0 * size.1 * size.2 <= MAX_TILES && tiles.len() == size.0 * size.1 * size.2 {
                r matches Ok(m) && m@.wf() && m@.tiles == tiles && m@.xlen == size.0 && m@.ylen == size.1
                    && m@.zlen == size.2 && m@.materials == materials@
            } else {
                r == Err::<TileMap, MapLoadError>(MapLoadError::WrongTileCount)
            },
        },
{
    let lines = split_bytes(text, 0, text.len(), 10u8);
    assert(text@.subrange(0, text@.len() as int) =~= text@);
    proof { lemma_split_nonempty(text@, 10u8); }
    assert(lines@[0]@ == deep(lines@)[0]);
    // header
    let hl = &lines[0];
    let he = line_end(hl.as_slice(), 0, hl.len());
    assert(hl@.subrange(0, hl@.len() as int) =~= hl@);
    let f = split_bytes(hl.as_slice(), 0, he, 44u8);
    if f.len() < 4 {
        return Err(MapLoadError::BadHeader);
    }
    assert(f@[0]@ == deep(f@)[0] && f@[1]@ == deep(f@)[1] && f@[2]@ == deep(f@)[2] && f@[3]@ == deep(f@)[3]);
    let v = parse_num_exec(&f[0], 0x7fff_ffff);
    let x = parse_num_exec(&f[1], 0x7fff_ffff);
    let y = parse_num_exec(&f[2], 0x7fff_ffff);
    let z = parse_num_exec(&f[3], 0x7fff_ffff);
    let size: Pos = match (v, x, y, z) {
        (Some(v), Some(x), Some(y), Some(z)) => {
            if v < 1 {
                return Err(MapLoadError::BadVersion);
            }
            (x as i32, y as i32, z as i32)
        },
        _ => {
            return Err(MapLoadError::BadHeader);
        },
    };
    assert(parse_header(split(text@, 10u8)[0]) == Ok::<Pos, MapLoadError>(size));
    // rows
    let mut tiles: Vec<Tile> = Vec::new();
    let mut k: usize = 1;
    while k < lines.len()
        invariant
            1 <= k <= lines@.len(),
            deep(lines@) == split(text@, 10u8),
            parse_header(split(text@, 10u8)[0]) == Ok::<Pos, MapLoadError>(size),
            rows_tiles(deep(lines@), k as int) == Ok::<Seq<Tile>, MapLoadError>(tiles@),
        decreases lines@.len() - k,
    {
        let line = &lines[k];
        assert(line@ == deep(lines@)[k as int]);
        let le = line_end(line.as_slice(), 0, line.len());
        assert(line@.subrange(0, line@.len() as int) =~= line@);
        let cells = split_bytes(line.as_slice(), 0, le, 44u8);
        assert(deep(cells@) == split(strip_cr(deep(lines@)[k as int]), 44u8));
        let ghost before = tiles@;
        assert(tiles@.subrange(before.len() as int, tiles@.len() as int) =~= Seq::<Tile>::empty());
        assert(tiles@.subrange(0, before.len() as int) =~= before);
        let mut c: usize = 0;
        while c < cells.len()
            invariant
                c <= cells@.len(),
                cells_tiles(deep(cells@), c as int) == Ok::<Seq<Tile>, MapLoadError>(tiles@.subrange(before.len() as int, tiles@.len() as int)),
                deep(cells@) == split(strip_cr(deep(lines@)[k as int]), 44u8),
                1 <= k < lines@.len(),
                deep(lines@) == split(text@, 10u8),
                parse_header(split(text@, 10u8)[0]) == Ok::<Pos, MapLoadError>(size),
                rows_tiles(deep(lines@), k as int) == Ok::<Seq<Tile>, MapLoadError>(before),
                before.len() <= tiles@.len(),
                tiles@.subrange(0, before.len() as int) == before,
            decreases cells@.len() - c,
        {
            assert(cells@[c as int]@ == deep(cells@)[c as int]);
            let ghost mid = tiles@;
            match parse_cell_exec(&cells[c]) {
                Err(e) => {
                    proof {
                        assert(cells_tiles(deep(cells@), c as int + 1) == Err::<Seq<Tile>, MapLoadError>(e));
                        lemma_cells_err_sticks(deep(cells@), c as int + 1, cells@.len() as int);
                        assert(rows_tiles(deep(lines@), k as int + 1) == Err::<Seq<Tile>, MapLoadError>(e));
                        lemma_rows_err_sticks(deep(lines@), k as int + 1, lines@.len() as int);
                    }
                    return Err(e);
                },
                Ok(None) => {},
                Ok(Some(t)) => {
                    tiles.push(t);
                    assert(tiles@.subrange(before.len() as int, tiles@.len() as int) =~= mid.subrange(before.len() as int, mid.len() as int).push(t));
                    assert(tiles@.subrange(0, before.len() as int) =~= mid.subrange(0, before.len() as int));
                },
            }
            c += 1;
        }
        assert(tiles@ =~= before + tiles@.subrange(before.len() as int, tiles@.len() as int));
        k += 1;
    }
    match TileMap::from_tiles(tiles, materials, size) {
        Some(m) => Ok(m),
        None => Err(MapLoadError::WrongTileCount),
    }
}

proof fn lemma_cells_err_sticks(cells: Seq<Seq<u8>>, k: int, n: int)
    requires
        0 <= k <= n,
        cells_tiles(cells, k) is Err,
    ensures
        cells_tiles(cells, n) == cells_tiles(cells, k),
    decreases n - k,
{
    if k < n {
        lemma_cells_err_sticks(cells, k + 1, n);
    }
}

proof fn lemma_rows_err_sticks(lines: Seq<Seq<u8>>, k: int, n: int)
    requires
        1 <= k <= n,
        rows_tiles(lines, k) is Err,
    ensures
        rows_tiles(lines, n) == rows_tiles(lines, k),
    decreases n - k,
{
    if k < n {
        lemma_rows_err_sticks(lines, k + 1, n);
    }
}

} // verus!
