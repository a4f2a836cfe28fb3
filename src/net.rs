//! The wire protocol: messages and their length-prefixed framing.

use vstd::prelude::*;
use crate::entity::{EntID, EntSnaps};
use crate::geometry::{Pos, PlayerID, TeamID, TilesSelector};
use crate::map::{MapChunk, Tile};

verus! {

/// Port the server listens on.
pub const SERVER_PORT: u16 = 9999;

/// Port a client binds (any).
pub const CLIENT_PORT: u16 = 0;

/// Largest payload a frame can announce.
pub const MAX_FRAME_LEN: u64 = 0xffff_ffff;

/// Messages from a client to the server; every one is an intent only.
#[derive(Clone, Copy, Debug, PartialEq, Eq)]
pub enum ClientMsg {
    Heartbeat,
    Ack,
    Join(PlayerID),
    RequestMap(TilesSelector),
    RequestEnts,
    MarkDig(TilesSelector),
    EntAttack(EntID, EntID),
    EntMove(EntID, Pos),
    Leave,
}

/// Messages from the server to a client.
#[derive(Debug, PartialEq, Eq)]
pub enum ServerMsg {
    Heartbeat,
    Ack,
    ReplyJoin(PlayerJoin),
    SendMapChunk(MapChunk),
    UpdateTile(Tile, Pos),
    SendEnts(EntSnaps),
    Boot,
}

/// The server's answer to a join: who the player is and how large the map is.
#[derive(Clone, Copy, Debug, PartialEq, Eq)]
pub struct PlayerJoin {
    pub player_id: PlayerID,
    pub team_id: TeamID,
    pub map_dim: Pos,
}

impl PlayerJoin {
    pub fn new(player_id: PlayerID, team_id: TeamID, map_dim: Pos) -> (r: PlayerJoin)
        ensures
            r == (PlayerJoin { player_id, team_id, map_dim }),
    {
        PlayerJoin { player_id: player_id, team_id: team_id, map_dim: map_dim }
    }
}

/// The four big-endian bytes of `n` (taken modulo 2^32).
pub open spec fn be_bytes(n: nat) -> Seq<u8> {
    seq![
        ((n / 0x100_0000) % 0x100) as u8,
        ((n / 0x1_0000) % 0x100) as u8,
        ((n / 0x100) % 0x100) as u8,
        (n % 0x100) as u8,
    ]
}

/// The number that four big-endian bytes of `b` starting at `i` stand for.
pub open spec fn be_value(b: Seq<u8>, i: int) -> nat {
    (b[i] as nat) * 0x100_0000 + (b[i + 1] as nat) * 0x1_0000 + (b[i + 2] as nat) * 0x100 + (b[i + 3] as nat)
}

/// The frame carrying `payload`: its length as four big-endian bytes, then the payload.
pub open spec fn frame_of(payload: Seq<u8>) -> Seq<u8> {
    be_bytes(payload.len()) + payload
}

/// The first whole frame at the front of `b`: its payload and what follows it,
/// or `None` while the header or the payload is still incomplete.
pub open spec fn take_frame(b: Seq<u8>) -> Option<(Seq<u8>, Seq<u8>)> {
    if b.len() >= 4 && b.len() >= 4 + be_value(b, 0) {
        let n = be_value(b, 0) as int;
        Some((b.subrange(4, 4 + n), b.subrange(4 + n, b.len() as int)))
    } else {
        None
    }
}

/// The length prefix of a frame: the low 32 bits of `x`, big-endian.
pub fn usize_to_u8_array(x: usize) -> (r: [u8; 4])
    ensures
        r@ == be_bytes(x as nat),
{
    let b1: u8 = ((x / 0x100_0000) % 0x100) as u8;
    let b2: u8 = ((x / 0x1_0000) % 0x100) as u8;
    let b3: u8 = ((x / 0x100) % 0x100) as u8;
    let b4: u8 = (x % 0x100) as u8;
    let r = [b1, b2, b3, b4];
    assert(r@ =~= be_bytes(x as nat));
    r
}

/// The number that the four big-endian bytes at `buf[i..i + 4]` stand for.
pub fn u8_array_to_usize(buf: &[u8], i: usize) -> (r: usize)
    requires
        i + 4 <= buf@.len(),
    ensures
        r == be_value(buf@, i as int),
{
    let b1: u64 = buf[i] as u64 * 0x100_0000;
    let b2: u64 = buf[i + 1] as u64 * 0x1_0000;
    let b3: u64 = buf[i + 2] as u64 * 0x100;
    let b4: u64 = buf[i + 3] as u64;
    let v = b1 + b2 + b3 + b4;
    assert(v <= 0xffff_ffff);
    v as usize
}

/// Big-endian bytes read back give the number they were written from.
pub proof fn lemma_be_round_trip(n: nat)
    requires
        n <= MAX_FRAME_LEN,
    ensures
        be_value(be_bytes(n), 0) == n,
{
    let b = be_bytes(n);
    let q1 = n / 0x100;
    let q2 = n / 0x1_0000;
    let q3 = n / 0x100_0000;
    vstd::arithmetic::div_mod::lemma_fundamental_div_mod(n as int, 0x100);
    vstd::arithmetic::div_mod::lemma_fundamental_div_mod(q1 as int, 0x100);
    vstd::arithmetic::div_mod::lemma_fundamental_div_mod(q2 as int, 0x100);
    vstd::arithmetic::div_mod::lemma_div_denominator(n as int, 0x100, 0x100);
    vstd::arithmetic::div_mod::lemma_div_denominator(n as int, 0x1_0000, 0x100);
    assert(q3 < 0x100);
    assert(q3 % 0x100 == q3);
    assert(b[0] as nat == q3);
    assert(b[1] as nat == q2 % 0x100);
    assert(b[2] as nat == q1 % 0x100);
    assert(b[3] as nat == n % 0x100);
    assert(q2 / 0x100 == q3);
    assert(q1 / 0x100 == q2);
}

/// Build the frame carrying `payload`.
pub fn encode_frame(payload: &[u8]) -> (r: Vec<u8>)
    requires
        payload@.len() <= MAX_FRAME_LEN,
    ensures
        r@ == frame_of(payload@),
{
    let head = usize_to_u8_array(payload.len());
    let mut r: Vec<u8> = Vec::new();
    r.push(head[0]);
    r.push(head[1]);
    r.push(head[2]);
    r.push(head[3]);
    let mut i: usize = 0;
    while i < payload.len()
        invariant
            i <= payload@.len(),
            head@ == be_bytes(payload@.len()),
            r@ == be_bytes(payload@.len()) + payload@.subrange(0, i as int),
        decreases payload@.len() - i,
    {
        r.push(payload[i]);
        i += 1;
        assert(r@ =~= be_bytes(payload@.len()) + payload@.subrange(0, i as int));
    }
    assert(payload@.subrange(0, payload@.len() as int) =~= payload@);
    r
}

/// Decoding the frame of a payload, followed by anything, yields the payload
/// and leaves exactly what followed.
pub proof fn lemma_frame_round_trip(payload: Seq<u8>, rest: Seq<u8>)
    requires
        payload.len() <= MAX_FRAME_LEN,
    ensures
        take_frame(frame_of(payload) + rest) == Some((payload, rest)),
{
    let b = frame_of(payload) + rest;
    lemma_be_round_trip(payload.len());
    assert(be_value(b, 0) == be_value(be_bytes(payload.len()), 0));
    assert(b.subrange(4, 4 + payload.len() as int) =~= payload);
    assert(b.subrange(4 + payload.len() as int, b.len() as int) =~= rest);
}

/// Receive-side buffer: bytes are appended as they arrive, in any pieces, and
/// whole frames are taken from the front.
pub struct FrameReader {
    buf: Vec<u8>,
}

impl View for FrameReader {
    type V = Seq<u8>;

    closed spec fn view(&self) -> Seq<u8> {
        self.buf@
    }
}

impl FrameReader {
    pub fn new() -> (r: FrameReader)
        ensures
            r@ == Seq::<u8>::empty(),
    {
        FrameReader { buf: Vec::new() }
    }

    /// Append newly read bytes.
    pub fn push(&mut self, bytes: &[u8])
        ensures
            final(self)@ == old(self)@ + bytes@,
    {
        let mut i: usize = 0;
        while i < bytes.len()
            invariant
                i <= bytes@.len(),
                self@ == old(self)@ + bytes@.subrange(0, i as int),
            decreases bytes@.len() - i,
        {
            self.buf.push(bytes[i]);
            i += 1;
            assert(self@ =~= old(self)@ + bytes@.subrange(0, i as int));
        }
        assert(bytes@.subrange(0, bytes@.len() as int) =~= bytes@);
    }

    /// Number of bytes buffered.
    pub fn buffered(&self) -> (r: usize)
        ensures
            r == self@.len(),
    {
        self.buf.len()
    }

    /// Take the first whole frame's payload, if one has fully arrived.
    pub fn next_frame(&mut self) -> (r: Option<Vec<u8>>)
        ensures
            match take_frame(old(self)@) {
                Some((payload, rest)) => r matches Some(v) && v@ == payload && final(self)@ == rest,
                None => r is None && final(self)@ == old(self)@,
            },
    {
        let len = self.buf.len();
        if len < 4 {
            return None;
        }
        let n = u8_array_to_usize(self.buf.as_slice(), 0);
        if len - 4 < n {
            return None;
        }
        let mut payload: Vec<u8> = Vec::new();
        let mut i: usize = 4;
        while i < 4 + n
            invariant
                4 <= i <= 4 + n <= len,
                len == self.buf@.len(),
                self@ == old(self)@,
                payload@ == self.buf@.subrange(4, i as int),
            decreases 4 + n - i,
        {
            payload.push(self.buf[i]);
            i += 1;
            assert(payload@ =~= self.buf@.subrange(4, i as int));
        }
        let mut rest: Vec<u8> = Vec::new();
        while i < len
            invariant
                4 + n <= i <= len,
                len == self.buf@.len(),
                self@ == old(self)@,
                rest@ == self.buf@.subrange(4 + n, i as int),
            decreases len - i,
        {
            rest.push(self.buf[i]);
            i += 1;
            assert(rest@ =~= self.buf@.subrange(4 + n as int, i as int));
        }
        self.buf = rest;
        Some(payload)
    }
}

} // verus!
