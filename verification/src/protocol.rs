use vstd::prelude::*;
use vstd::bytes::{
    spec_u16_from_le_bytes, spec_u16_to_le_bytes, spec_u32_from_le_bytes, spec_u32_to_le_bytes,
    spec_u64_from_le_bytes, spec_u64_to_le_bytes, u16_from_le_bytes, u16_to_le_bytes,
    u32_from_le_bytes, u32_to_le_bytes, u64_from_le_bytes, u64_to_le_bytes,
    lemma_auto_spec_u16_to_from_le_bytes, lemma_auto_spec_u32_to_from_le_bytes,
    lemma_auto_spec_u64_to_from_le_bytes,
};
use vstd::slice::slice_subrange;
use vstd::string::StringSliceAdditionalSpecFns;
use vstd::utf8::{decode_utf8, encode_utf8, valid_utf8, encode_utf8_decode_utf8, encode_utf8_valid_utf8};

verus! {

/// Identifier the server hands to each connected player.
pub type PlayerId = u32;

/// A message of the multiplayer protocol.
///
/// Player coordinates travel as IEEE-754 single-precision values; the library
/// carries them as their bit patterns (`f32::to_bits`), which is exactly what
/// goes on the wire.
#[derive(Debug, Clone)]
pub enum Packet {
    Connect { player_id: PlayerId, username: String },
    ConnectAck { success: bool, player_id: PlayerId },
    Position { player_id: PlayerId, x: u32, y: u32, z: u32 },
    /// `yaw`: 0-255 spans 0-360 degrees; `pitch`: 0-255 spans -90 to +90 degrees.
    Rotation { player_id: PlayerId, yaw: u8, pitch: u8 },
    BlockChange { x: i32, y: i32, z: i32, block_type: u8 },
    Chat { player_id: PlayerId, message: String },
    Disconnect { player_id: PlayerId },
    Ping { timestamp: u64 },
    Pong { timestamp: u64 },
}

/// The mathematical content of a packet: strings as character sequences.
pub enum PacketView {
    Connect { player_id: u32, username: Seq<char> },
    ConnectAck { success: bool, player_id: u32 },
    Position { player_id: u32, x: u32, y: u32, z: u32 },
    Rotation { player_id: u32, yaw: u8, pitch: u8 },
    BlockChange { x: i32, y: i32, z: i32, block_type: u8 },
    Chat { player_id: u32, message: Seq<char> },
    Disconnect { player_id: u32 },
    Ping { timestamp: u64 },
    Pong { timestamp: u64 },
}

impl View for Packet {
    type V = PacketView;

    open spec fn view(&self) -> PacketView {
        match self {
            Packet::Connect { player_id, username } => PacketView::Connect { player_id: *player_id, username: username@ },
            Packet::ConnectAck { success, player_id } => PacketView::ConnectAck { success: *success, player_id: *player_id },
            Packet::Position { player_id, x, y, z } => PacketView::Position { player_id: *player_id, x: *x, y: *y, z: *z },
            Packet::Rotation { player_id, yaw, pitch } => PacketView::Rotation { player_id: *player_id, yaw: *yaw, pitch: *pitch },
            Packet::BlockChange { x, y, z, block_type } => PacketView::BlockChange { x: *x, y: *y, z: *z, block_type: *block_type },
            Packet::Chat { player_id, message } => PacketView::Chat { player_id: *player_id, message: message@ },
            Packet::Disconnect { player_id } => PacketView::Disconnect { player_id: *player_id },
            Packet::Ping { timestamp } => PacketView::Ping { timestamp: *timestamp },
            Packet::Pong { timestamp } => PacketView::Pong { timestamp: *timestamp },
        }
    }
}

/// Why a byte frame could not be decoded into a packet.
#[derive(Debug, Clone, Copy, PartialEq, Eq)]
pub enum ProtocolError {
    /// Fewer than the three bytes of length prefix and packet id.
    PacketTooShort,
    /// The frame ended inside a field.
    UnexpectedEof,
    /// A string field is not valid UTF-8.
    InvalidUtf8,
    /// The packet id byte names no packet.
    UnknownPacketId,
    /// A frame announces a body longer than the receive limit.
    PacketTooLarge,
}

/// Longest frame body a connection accepts, in bytes.
pub const READ_BUFFER_SIZE: usize = 4096;

/// The body length a frame's two-byte little-endian prefix announces, as
/// long as it stays within the receive limit.
pub fn frame_body_len(len_bytes: &[u8]) -> (r: Result<usize, ProtocolError>)
    requires
        len_bytes@.len() == 2,
    ensures
        spec_u16_from_le_bytes(len_bytes@) <= READ_BUFFER_SIZE ==> r == Ok::<usize, ProtocolError>(spec_u16_from_le_bytes(len_bytes@) as usize),
        spec_u16_from_le_bytes(len_bytes@) > READ_BUFFER_SIZE ==> r == Err::<usize, ProtocolError>(ProtocolError::PacketTooLarge),
{
    let len = u16_from_le_bytes(len_bytes) as usize;
    if len > READ_BUFFER_SIZE {
        Err(ProtocolError::PacketTooLarge)
    } else {
        Ok(len)
    }
}

/// The id byte that starts the body of each packet kind.
pub open spec fn spec_packet_id(p: PacketView) -> u8 {
    match p {
        PacketView::Connect { .. } => 0x01,
        PacketView::ConnectAck { .. } => 0x02,
        PacketView::Position { .. } => 0x10,
        PacketView::Rotation { .. } => 0x11,
        PacketView::BlockChange { .. } => 0x20,
        PacketView::Chat { .. } => 0x30,
        PacketView::Disconnect { .. } => 0x40,
        PacketView::Ping { .. } => 0xFE,
        PacketView::Pong { .. } => 0xFF,
    }
}

/// A string on the wire: its UTF-8 byte count as a little-endian `u16`
/// (kept modulo 2^16), then the UTF-8 bytes.
pub open spec fn encode_string(s: Seq<char>) -> Seq<u8> {
    spec_u16_to_le_bytes(encode_utf8(s).len() as u16) + encode_utf8(s)
}

/// The fields of a packet, in wire order, all integers little-endian.
pub open spec fn encode_fields(p: PacketView) -> Seq<u8> {
    match p {
        PacketView::Connect { player_id, username } => spec_u32_to_le_bytes(player_id) + encode_string(username),
        PacketView::ConnectAck { success, player_id } => seq![if success { 1u8 } else { 0u8 }] + spec_u32_to_le_bytes(player_id),
        PacketView::Position { player_id, x, y, z } => spec_u32_to_le_bytes(player_id) + spec_u32_to_le_bytes(x)
            + spec_u32_to_le_bytes(y) + spec_u32_to_le_bytes(z),
        PacketView::Rotation { player_id, yaw, pitch } => spec_u32_to_le_bytes(player_id) + seq![yaw, pitch],
        PacketView::BlockChange { x, y, z, block_type } => spec_u32_to_le_bytes(x as u32) + spec_u32_to_le_bytes(y as u32)
            + spec_u32_to_le_bytes(z as u32) + seq![block_type],
        PacketView::Chat { player_id, message } => spec_u32_to_le_bytes(player_id) + encode_string(message),
        PacketView::Disconnect { player_id } => spec_u32_to_le_bytes(player_id),
        PacketView::Ping { timestamp } => spec_u64_to_le_bytes(timestamp),
        PacketView::Pong { timestamp } => spec_u64_to_le_bytes(timestamp),
    }
}

/// A whole frame: the byte count of the body as a little-endian `u16` (kept
/// modulo 2^16), then the body, which is the id byte followed by the fields.
pub open spec fn encode_packet(p: PacketView) -> Seq<u8> {
    let body = seq![spec_packet_id(p)] + encode_fields(p);
    spec_u16_to_le_bytes(body.len() as u16) + body
}

/// Reading one byte from the front of `b`.
pub open spec fn take_u8(b: Seq<u8>) -> Result<(u8, Seq<u8>), ProtocolError> {
    if b.len() >= 1 { Ok((b[0], b.skip(1))) } else { Err(ProtocolError::UnexpectedEof) }
}

/// Reading a little-endian `u16` from the front of `b`.
pub open spec fn take_u16(b: Seq<u8>) -> Result<(u16, Seq<u8>), ProtocolError> {
    if b.len() >= 2 { Ok((spec_u16_from_le_bytes(b.take(2)), b.skip(2))) } else { Err(ProtocolError::UnexpectedEof) }
}

/// Reading a little-endian `u32` from the front of `b`.
pub open spec fn take_u32(b: Seq<u8>) -> Result<(u32, Seq<u8>), ProtocolError> {
    if b.len() >= 4 { Ok((spec_u32_from_le_bytes(b.take(4)), b.skip(4))) } else { Err(ProtocolError::UnexpectedEof) }
}

/// Reading a little-endian two's-complement `i32` from the front of `b`.
pub open spec fn take_i32(b: Seq<u8>) -> Result<(i32, Seq<u8>), ProtocolError> {
    if b.len() >= 4 { Ok((spec_u32_from_le_bytes(b.take(4)) as i32, b.skip(4))) } else { Err(ProtocolError::UnexpectedEof) }
}

/// Reading a little-endian `u64` from the front of `b`.
pub open spec fn take_u64(b: Seq<u8>) -> Result<(u64, Seq<u8>), ProtocolError> {
    if b.len() >= 8 { Ok((spec_u64_from_le_bytes(b.take(8)), b.skip(8))) } else { Err(ProtocolError::UnexpectedEof) }
}

/// Reading a length-prefixed UTF-8 string from the front of `b`.
pub open spec fn take_string(b: Seq<u8>) -> Result<(Seq<char>, Seq<u8>), ProtocolError> {
    match take_u16(b) {
        Err(e) => Err(e),
        Ok((len, r)) => if r.len() < len {
            Err(ProtocolError::UnexpectedEof)
        } else if !valid_utf8(r.take(len as int)) {
            Err(ProtocolError::InvalidUtf8)
        } else {
            Ok((decode_utf8(r.take(len as int)), r.skip(len as int)))
        },
    }
}

/// Decoding of a frame. The length prefix is skipped unread and bytes after
/// the last field are ignored.
pub open spec fn decode_packet(d: Seq<u8>) -> Result<PacketView, ProtocolError> {
    if d.len() < 3 {
        Err(ProtocolError::PacketTooShort)
    } else {
        let b = d.skip(3);
        let id = d[2];
        if id == 0x01 {
            match take_u32(b) {
                Err(e) => Err(e),
                Ok((player_id, r)) => match take_string(r) {
                    Err(e) => Err(e),
                    Ok((username, _)) => Ok(PacketView::Connect { player_id, username }),
                },
            }
        } else if id == 0x02 {
            match take_u8(b) {
                Err(e) => Err(e),
                Ok((s, r)) => match take_u32(r) {
                    Err(e) => Err(e),
                    Ok((player_id, _)) => Ok(PacketView::ConnectAck { success: s != 0, player_id }),
                },
            }
        } else if id == 0x10 {
            if b.len() < 16 {
                Err(ProtocolError::UnexpectedEof)
            } else {
                Ok(PacketView::Position {
                    player_id: spec_u32_from_le_bytes(b.subrange(0, 4)),
                    x: spec_u32_from_le_bytes(b.subrange(4, 8)),
                    y: spec_u32_from_le_bytes(b.subrange(8, 12)),
                    z: spec_u32_from_le_bytes(b.subrange(12, 16)),
                })
            }
        } else if id == 0x11 {
            if b.len() < 6 {
                Err(ProtocolError::UnexpectedEof)
            } else {
                Ok(PacketView::Rotation { player_id: spec_u32_from_le_bytes(b.subrange(0, 4)), yaw: b[4], pitch: b[5] })
            }
        } else if id == 0x20 {
            if b.len() < 13 {
                Err(ProtocolError::UnexpectedEof)
            } else {
                Ok(PacketView::BlockChange {
                    x: spec_u32_from_le_bytes(b.subrange(0, 4)) as i32,
                    y: spec_u32_from_le_bytes(b.subrange(4, 8)) as i32,
                    z: spec_u32_from_le_bytes(b.subrange(8, 12)) as i32,
                    block_type: b[12],
                })
            }
        } else if id == 0x30 {
            match take_u32(b) {
                Err(e) => Err(e),
                Ok((player_id, r)) => match take_string(r) {
                    Err(e) => Err(e),
                    Ok((message, _)) => Ok(PacketView::Chat { player_id, message }),
                },
            }
        } else if id == 0x40 {
            match take_u32(b) {
                Err(e) => Err(e),
                Ok((player_id, _)) => Ok(PacketView::Disconnect { player_id }),
            }
        } else if id == 0xFE {
            match take_u64(b) {
                Err(e) => Err(e),
                Ok((timestamp, _)) => Ok(PacketView::Ping { timestamp }),
            }
        } else if id == 0xFF {
            match take_u64(b) {
                Err(e) => Err(e),
                Ok((timestamp, _)) => Ok(PacketView::Pong { timestamp }),
            }
        } else {
            Err(ProtocolError::UnknownPacketId)
        }
    }
}

/// Every string of the packet has at most 65535 UTF-8 bytes, so that its
/// length prefix is exact.
pub open spec fn strings_fit(p: PacketView) -> bool {
    match p {
        PacketView::Connect { username, .. } => encode_utf8(username).len() <= u16::MAX,
        PacketView::Chat { message, .. } => encode_utf8(message).len() <= u16::MAX,
        _ => true,
    }
}

proof fn lemma_take_u32_of(v: u32, rest: Seq<u8>)
    ensures
        take_u32(spec_u32_to_le_bytes(v) + rest) == Ok::<(u32, Seq<u8>), ProtocolError>((v, rest)),
        (spec_u32_to_le_bytes(v) + rest).len() == 4 + rest.len(),
{
    lemma_auto_spec_u32_to_from_le_bytes();
    let b = spec_u32_to_le_bytes(v) + rest;
    assert(b.take(4) =~= spec_u32_to_le_bytes(v));
    assert(b.skip(4) =~= rest);
}

proof fn lemma_take_u64_of(v: u64, rest: Seq<u8>)
    ensures
        take_u64(spec_u64_to_le_bytes(v) + rest) == Ok::<(u64, Seq<u8>), ProtocolError>((v, rest)),
{
    lemma_auto_spec_u64_to_from_le_bytes();
    let b = spec_u64_to_le_bytes(v) + rest;
    assert(b.take(8) =~= spec_u64_to_le_bytes(v));
    assert(b.skip(8) =~= rest);
}

proof fn lemma_take_string_of(s: Seq<char>, rest: Seq<u8>)
    requires
        encode_utf8(s).len() <= u16::MAX,
    ensures
        take_string(encode_string(s) + rest) == Ok::<(Seq<char>, Seq<u8>), ProtocolError>((s, rest)),
{
    lemma_auto_spec_u16_to_from_le_bytes();
    encode_utf8_valid_utf8(s);
    encode_utf8_decode_utf8(s);
    let e = encode_utf8(s);
    let b = encode_string(s) + rest;
    assert(b.take(2) =~= spec_u16_to_le_bytes(e.len() as u16));
    let r = b.skip(2);
    assert(r =~= e + rest);
    assert(r.take(e.len() as int) =~= e);
    assert(r.skip(e.len() as int) =~= rest);
}

proof fn lemma_i32_bits(x: i32)
    ensures
        (x as u32) as i32 == x,
{
    assert((x as u32) as i32 == x) by (bit_vector);
}

/// Round-trip law of the wire format: decoding the frame of a packet gives
/// the packet back, whenever each of its strings has at most 65535 UTF-8 bytes.
pub proof fn lemma_packet_roundtrip(p: PacketView)
    requires
        strings_fit(p),
    ensures
        decode_packet(encode_packet(p)) == Ok::<PacketView, ProtocolError>(p),
{
    lemma_auto_spec_u16_to_from_le_bytes();
    lemma_auto_spec_u32_to_from_le_bytes();
    lemma_auto_spec_u64_to_from_le_bytes();
    let f = encode_fields(p);
    let body = seq![spec_packet_id(p)] + f;
    let d = encode_packet(p);
    assert(d.skip(3) =~= f);
    assert(d[2] == spec_packet_id(p));
    let e = Seq::<u8>::empty();
    match p {
        PacketView::Connect { player_id, username } => {
            lemma_take_u32_of(player_id, encode_string(username));
            lemma_take_string_of(username, e);
            assert(encode_string(username) + e =~= encode_string(username));
        },
        PacketView::ConnectAck { success, player_id } => {
            let sb = if success { 1u8 } else { 0u8 };
            assert(f.skip(1) =~= spec_u32_to_le_bytes(player_id) + e);
            lemma_take_u32_of(player_id, e);
        },
        PacketView::Position { player_id, x, y, z } => {
            assert(f.subrange(0, 4) =~= spec_u32_to_le_bytes(player_id));
            assert(f.subrange(4, 8) =~= spec_u32_to_le_bytes(x));
            assert(f.subrange(8, 12) =~= spec_u32_to_le_bytes(y));
            assert(f.subrange(12, 16) =~= spec_u32_to_le_bytes(z));
        },
        PacketView::Rotation { player_id, yaw, pitch } => {
            assert(f.subrange(0, 4) =~= spec_u32_to_le_bytes(player_id));
        },
        PacketView::BlockChange { x, y, z, block_type } => {
            assert(f.subrange(0, 4) =~= spec_u32_to_le_bytes(x as u32));
            assert(f.subrange(4, 8) =~= spec_u32_to_le_bytes(y as u32));
            assert(f.subrange(8, 12) =~= spec_u32_to_le_bytes(z as u32));
            lemma_i32_bits(x);
            lemma_i32_bits(y);
            lemma_i32_bits(z);
        },
        PacketView::Chat { player_id, message } => {
            lemma_take_u32_of(player_id, encode_string(message));
            lemma_take_string_of(message, e);
            assert(encode_string(message) + e =~= encode_string(message));
        },
        PacketView::Disconnect { player_id } => {
            lemma_take_u32_of(player_id, e);
            assert(f + e =~= f);
        },
        PacketView::Ping { timestamp } => {
            lemma_take_u64_of(timestamp, e);
            assert(f + e =~= f);
        },
        PacketView::Pong { timestamp } => {
            lemma_take_u64_of(timestamp, e);
            assert(f + e =~= f);
        },
    }
}

/// A read position inside a received frame.
pub struct ByteCursor<'a> {
    pub data: &'a [u8],
    pub pos: usize,
}

impl<'a> ByteCursor<'a> {
    /// The bytes not read yet.
    pub open spec fn remaining(&self) -> Seq<u8> {
        self.data@.skip(self.pos as int)
    }

    pub open spec fn valid(&self) -> bool {
        self.pos <= self.data@.len()
    }

    /// A cursor at the start of `data`.
    pub fn new(data: &'a [u8]) -> (c: Self)
        ensures
            c.valid(),
            c.data@ == data@,
            c.pos == 0,
            c.remaining() == data@,
    {
        let c = ByteCursor { data, pos: 0 };
        assert(c.remaining() =~= data@);
        c
    }

    /// Hands out the next `n` bytes; fails without moving when fewer are left.
    pub fn read_exact(&mut self, n: usize) -> (r: Result<&'a [u8], ProtocolError>)
        requires
            old(self).valid(),
        ensures
            final(self).valid(),
            final(self).data@ == old(self).data@,
            match r {
                Ok(bytes) => old(self).remaining().len() >= n && bytes@ == old(self).remaining().take(n as int)
                    && final(self).remaining() == old(self).remaining().skip(n as int),
                Err(e) => old(self).remaining().len() < n && e == ProtocolError::UnexpectedEof
                    && final(self).pos == old(self).pos,
            },
    {
        if n > self.data.len() - self.pos {
            return Err(ProtocolError::UnexpectedEof);
        }
        let start = self.pos;
        let bytes = slice_subrange(self.data, start, start + n);
        self.pos = start + n;
        assert(bytes@ =~= old(self).remaining().take(n as int));
        assert(self.remaining() =~= old(self).remaining().skip(n as int));
        Ok(bytes)
    }
}

/// Reads one byte.
pub fn read_u8(cursor: &mut ByteCursor) -> (r: Result<u8, ProtocolError>)
    requires
        old(cursor).valid(),
    ensures
        final(cursor).valid(),
        final(cursor).data@ == old(cursor).data@,
        match take_u8(old(cursor).remaining()) {
            Ok((v, rest)) => r == Ok::<u8, ProtocolError>(v) && final(cursor).remaining() == rest,
            Err(e) => r == Err::<u8, ProtocolError>(e),
        },
{
    let b = cursor.read_exact(1)?;
    Ok(b[0])
}

/// Reads a little-endian `u16`.
pub fn read_u16(cursor: &mut ByteCursor) -> (r: Result<u16, ProtocolError>)
    requires
        old(cursor).valid(),
    ensures
        final(cursor).valid(),
        final(cursor).data@ == old(cursor).data@,
        match take_u16(old(cursor).remaining()) {
            Ok((v, rest)) => r == Ok::<u16, ProtocolError>(v) && final(cursor).remaining() == rest,
            Err(e) => r == Err::<u16, ProtocolError>(e),
        },
{
    let b = cursor.read_exact(2)?;
    Ok(u16_from_le_bytes(b))
}

/// Reads a little-endian `u32`.
pub fn read_u32(cursor: &mut ByteCursor) -> (r: Result<u32, ProtocolError>)
    requires
        old(cursor).valid(),
    ensures
        final(cursor).valid(),
        final(cursor).data@ == old(cursor).data@,
        match take_u32(old(cursor).remaining()) {
            Ok((v, rest)) => r == Ok::<u32, ProtocolError>(v) && final(cursor).remaining() == rest,
            Err(e) => r == Err::<u32, ProtocolError>(e),
        },
{
    let b = cursor.read_exact(4)?;
    Ok(u32_from_le_bytes(b))
}

/// Reads a little-endian two's-complement `i32`.
pub fn read_i32(cursor: &mut ByteCursor) -> (r: Result<i32, ProtocolError>)
    requires
        old(cursor).valid(),
    ensures
        final(cursor).valid(),
        final(cursor).data@ == old(cursor).data@,
        match take_i32(old(cursor).remaining()) {
            Ok((v, rest)) => r == Ok::<i32, ProtocolError>(v) && final(cursor).remaining() == rest,
            Err(e) => r == Err::<i32, ProtocolError>(e),
        },
{
    let b = cursor.read_exact(4)?;
    Ok(u32_from_le_bytes(b) as i32)
}

/// Reads a little-endian `u64`.
pub fn read_u64(cursor: &mut ByteCursor) -> (r: Result<u64, ProtocolError>)
    requires
        old(cursor).valid(),
    ensures
        final(cursor).valid(),
        final(cursor).data@ == old(cursor).data@,
        match take_u64(old(cursor).remaining()) {
            Ok((v, rest)) => r == Ok::<u64, ProtocolError>(v) && final(cursor).remaining() == rest,
            Err(e) => r == Err::<u64, ProtocolError>(e),
        },
{
    let b = cursor.read_exact(8)?;
    Ok(u64_from_le_bytes(b))
}

/// `std`'s `String::from_utf8`: accepts exactly the valid UTF-8 byte strings
/// and decodes them; the error value is dropped.
#[verifier::external_body]
fn string_from_utf8(bytes: Vec<u8>) -> (r: Option<String>)
    ensures
        match r {
            Some(s) => valid_utf8(bytes@) && s@ == decode_utf8(bytes@),
            None => !valid_utf8(bytes@),
        },
{
    String::from_utf8(bytes).ok()
}

/// Reads a length-prefixed UTF-8 string.
pub fn read_string(cursor: &mut ByteCursor) -> (r: Result<String, ProtocolError>)
    requires
        old(cursor).valid(),
    ensures
        final(cursor).valid(),
        final(cursor).data@ == old(cursor).data@,
        match take_string(old(cursor).remaining()) {
            Ok((s, rest)) => r is Ok && r.unwrap()@ == s && final(cursor).remaining() == rest,
            Err(e) => r == Err::<String, ProtocolError>(e),
        },
{
    let len = read_u16(cursor)?;
    let bytes = cursor.read_exact(len as usize)?;
    let v = vstd::slice::slice_to_vec(bytes);
    match string_from_utf8(v) {
        Some(s) => Ok(s),
        None => Err(ProtocolError::InvalidUtf8),
    }
}

/// Appends `s` as a length-prefixed UTF-8 string.
pub fn write_string(buf: &mut Vec<u8>, s: &str)
    ensures
        final(buf)@ == old(buf)@ + encode_string(s@),
{
    let bytes = s.as_bytes();
    let mut len = u16_to_le_bytes(bytes.len() as u16);
    buf.append(&mut len);
    let mut body = vstd::slice::slice_to_vec(bytes);
    buf.append(&mut body);
}

impl Packet {
    /// The id byte of this packet's kind.
    pub fn packet_id(&self) -> (id: u8)
        ensures
            id == spec_packet_id(self@),
    {
        match self {
            Packet::Connect { .. } => 0x01,
            Packet::ConnectAck { .. } => 0x02,
            Packet::Position { .. } => 0x10,
            Packet::Rotation { .. } => 0x11,
            Packet::BlockChange { .. } => 0x20,
            Packet::Chat { .. } => 0x30,
            Packet::Disconnect { .. } => 0x40,
            Packet::Ping { .. } => 0xFE,
            Packet::Pong { .. } => 0xFF,
        }
    }

    /// The frame that carries this packet.
    pub fn to_bytes(&self) -> (r: Vec<u8>)
        ensures
            r@ == encode_packet(self@),
    {
        let mut buf: Vec<u8> = Vec::new();
        buf.push(self.packet_id());
        match self {
            Packet::Connect { player_id, username } => {
                let mut b = u32_to_le_bytes(*player_id);
                buf.append(&mut b);
                write_string(&mut buf, username.as_str());
            },
            Packet::ConnectAck { success, player_id } => {
                buf.push(if *success { 1 } else { 0 });
                let mut b = u32_to_le_bytes(*player_id);
                buf.append(&mut b);
            },
            Packet::Position { player_id, x, y, z } => {
                let mut b = u32_to_le_bytes(*player_id);
                buf.append(&mut b);
                let mut b = u32_to_le_bytes(*x);
                buf.append(&mut b);
                let mut b = u32_to_le_bytes(*y);
                buf.append(&mut b);
                let mut b = u32_to_le_bytes(*z);
                buf.append(&mut b);
            },
            Packet::Rotation { player_id, yaw, pitch } => {
                let mut b = u32_to_le_bytes(*player_id);
                buf.append(&mut b);
                buf.push(*yaw);
                buf.push(*pitch);
            },
            Packet::BlockChange { x, y, z, block_type } => {
                let mut b = u32_to_le_bytes(*x as u32);
                buf.append(&mut b);
                let mut b = u32_to_le_bytes(*y as u32);
                buf.append(&mut b);
                let mut b = u32_to_le_bytes(*z as u32);
                buf.append(&mut b);
                buf.push(*block_type);
            },
            Packet::Chat { player_id, message } => {
                let mut b = u32_to_le_bytes(*player_id);
                buf.append(&mut b);
                write_string(&mut buf, message.as_str());
            },
            Packet::Disconnect { player_id } => {
                let mut b = u32_to_le_bytes(*player_id);
                buf.append(&mut b);
            },
            Packet::Ping { timestamp } => {
                let mut b = u64_to_le_bytes(*timestamp);
                buf.append(&mut b);
            },
            Packet::Pong { timestamp } => {
                let mut b = u64_to_le_bytes(*timestamp);
                buf.append(&mut b);
            },
        }
        assert(buf@ =~= seq![spec_packet_id(self@)] + encode_fields(self@));
        let mut result = u16_to_le_bytes(buf.len() as u16);
        result.append(&mut buf);
        result
    }

    /// Decodes one frame.
    pub fn from_bytes(data: &[u8]) -> (r: Result<Packet, ProtocolError>)
        ensures
            match decode_packet(data@) {
                Ok(v) => r is Ok && r.unwrap()@ == v,
                Err(e) => r == Err::<Packet, ProtocolError>(e),
            },
    {
        if data.len() < 3 {
            return Err(ProtocolError::PacketTooShort);
        }
        let mut cursor = ByteCursor::new(data);
        let _len = read_u16(&mut cursor)?;
        let id = read_u8(&mut cursor)?;
        assert(cursor.remaining() =~= data@.skip(3));
        assert(id == data@[2]);
        if id == 0x01 {
            let player_id = read_u32(&mut cursor)?;
            let username = read_string(&mut cursor)?;
            Ok(Packet::Connect { player_id, username })
        } else if id == 0x02 {
            let b = read_u8(&mut cursor)?;
            let player_id = read_u32(&mut cursor)?;
            Ok(Packet::ConnectAck { success: b != 0, player_id })
        } else if id == 0x10 {
            let ghost b = cursor.remaining();
            let player_id = read_u32(&mut cursor)?;
            let x = read_u32(&mut cursor)?;
            let y = read_u32(&mut cursor)?;
            let z = read_u32(&mut cursor)?;
            assert(b.subrange(0, 4) =~= b.take(4));
            assert(b.subrange(4, 8) =~= b.skip(4).take(4));
            assert(b.subrange(8, 12) =~= b.skip(4).skip(4).take(4));
            assert(b.subrange(12, 16) =~= b.skip(4).skip(4).skip(4).take(4));
            Ok(Packet::Position { player_id, x, y, z })
        } else if id == 0x11 {
            let ghost b = cursor.remaining();
            let player_id = read_u32(&mut cursor)?;
            let yaw = read_u8(&mut cursor)?;
            let pitch = read_u8(&mut cursor)?;
            assert(b.subrange(0, 4) =~= b.take(4));
            Ok(Packet::Rotation { player_id, yaw, pitch })
        } else if id == 0x20 {
            let ghost b = cursor.remaining();
            let x = read_i32(&mut cursor)?;
            let y = read_i32(&mut cursor)?;
            let z = read_i32(&mut cursor)?;
            let block_type = read_u8(&mut cursor)?;
            assert(b.subrange(0, 4) =~= b.take(4));
            assert(b.subrange(4, 8) =~= b.skip(4).take(4));
            assert(b.subrange(8, 12) =~= b.skip(4).skip(4).take(4));
            Ok(Packet::BlockChange { x, y, z, block_type })
        } else if id == 0x30 {
            let player_id = read_u32(&mut cursor)?;
            let message = read_string(&mut cursor)?;
            Ok(Packet::Chat { player_id, message })
        } else if id == 0x40 {
            let player_id = read_u32(&mut cursor)?;
            Ok(Packet::Disconnect { player_id })
        } else if id == 0xFE {
            let timestamp = read_u64(&mut cursor)?;
            Ok(Packet::Ping { timestamp })
        } else if id == 0xFF {
            let timestamp = read_u64(&mut cursor)?;
            Ok(Packet::Pong { timestamp })
        } else {
            Err(ProtocolError::UnknownPacketId)
        }
    }
}

/// Wire-layout law for the packets of fixed size: the frame is the body
/// length as a little-endian `u16`, the id byte, then each field at a fixed
/// byte offset, integers little-endian, in the order the fields are declared.
pub proof fn lemma_fixed_frame_layout(p: PacketView)
    ensures
        ({
            let f = encode_packet(p);
            &&& p matches PacketView::ConnectAck { success, player_id } ==> {
                &&& f.len() == 8
                &&& spec_u16_from_le_bytes(f.take(2)) == 6
                &&& f[2] == 0x02
                &&& f[3] == (if success { 1u8 } else { 0u8 })
                &&& f.subrange(4, 8) == spec_u32_to_le_bytes(player_id)
            }
            &&& p matches PacketView::Position { player_id, x, y, z } ==> {
                &&& f.len() == 19
                &&& spec_u16_from_le_bytes(f.take(2)) == 17
                &&& f[2] == 0x10
                &&& f.subrange(3, 7) == spec_u32_to_le_bytes(player_id)
                &&& f.subrange(7, 11) == spec_u32_to_le_bytes(x)
                &&& f.subrange(11, 15) == spec_u32_to_le_bytes(y)
                &&& f.subrange(15, 19) == spec_u32_to_le_bytes(z)
            }
            &&& p matches PacketView::Rotation { player_id, yaw, pitch } ==> {
                &&& f.len() == 9
                &&& spec_u16_from_le_bytes(f.take(2)) == 7
                &&& f[2] == 0x11
                &&& f.subrange(3, 7) == spec_u32_to_le_bytes(player_id)
                &&& f[7] == yaw
                &&& f[8] == pitch
            }
            &&& p matches PacketView::BlockChange { x, y, z, block_type } ==> {
                &&& f.len() == 16
                &&& spec_u16_from_le_bytes(f.take(2)) == 14
                &&& f[2] == 0x20
                &&& f.subrange(3, 7) == spec_u32_to_le_bytes(x as u32)
                &&& f.subrange(7, 11) == spec_u32_to_le_bytes(y as u32)
                &&& f.subrange(11, 15) == spec_u32_to_le_bytes(z as u32)
                &&& f[15] == block_type
            }
            &&& p matches PacketView::Disconnect { player_id } ==> {
                &&& f.len() == 7
                &&& spec_u16_from_le_bytes(f.take(2)) == 5
                &&& f[2] == 0x40
                &&& f.subrange(3, 7) == spec_u32_to_le_bytes(player_id)
            }
            &&& p matches PacketView::Ping { timestamp } ==> {
                &&& f.len() == 11
                &&& spec_u16_from_le_bytes(f.take(2)) == 9
                &&& f[2] == 0xFE
                &&& f.subrange(3, 11) == spec_u64_to_le_bytes(timestamp)
            }
            &&& p matches PacketView::Pong { timestamp } ==> {
                &&& f.len() == 11
                &&& spec_u16_from_le_bytes(f.take(2)) == 9
                &&& f[2] == 0xFF
                &&& f.subrange(3, 11) == spec_u64_to_le_bytes(timestamp)
            }
        }),
{
    lemma_auto_spec_u16_to_from_le_bytes();
    lemma_auto_spec_u32_to_from_le_bytes();
    lemma_auto_spec_u64_to_from_le_bytes();
    let body = seq![spec_packet_id(p)] + encode_fields(p);
    let f = encode_packet(p);
    assert(f == spec_u16_to_le_bytes(body.len() as u16) + body);
    assert(f.take(2) =~= spec_u16_to_le_bytes(body.len() as u16));
    assert(f[2] == body[0]);
    match p {
        PacketView::ConnectAck { success, player_id } => {
            assert(f.subrange(4, 8) =~= spec_u32_to_le_bytes(player_id));
        },
        PacketView::Position { player_id, x, y, z } => {
            assert(f.subrange(3, 7) =~= spec_u32_to_le_bytes(player_id));
            assert(f.subrange(7, 11) =~= spec_u32_to_le_bytes(x));
            assert(f.subrange(11, 15) =~= spec_u32_to_le_bytes(y));
            assert(f.subrange(15, 19) =~= spec_u32_to_le_bytes(z));
        },
        PacketView::Rotation { player_id, yaw, pitch } => {
            assert(f.subrange(3, 7) =~= spec_u32_to_le_bytes(player_id));
        },
        PacketView::BlockChange { x, y, z, block_type } => {
            assert(f.subrange(3, 7) =~= spec_u32_to_le_bytes(x as u32));
            assert(f.subrange(7, 11) =~= spec_u32_to_le_bytes(y as u32));
            assert(f.subrange(11, 15) =~= spec_u32_to_le_bytes(z as u32));
        },
        PacketView::Disconnect { player_id } => {
            assert(f.subrange(3, 7) =~= spec_u32_to_le_bytes(player_id));
        },
        PacketView::Ping { timestamp } => {
            assert(f.subrange(3, 11) =~= spec_u64_to_le_bytes(timestamp));
        },
        PacketView::Pong { timestamp } => {
            assert(f.subrange(3, 11) =~= spec_u64_to_le_bytes(timestamp));
        },
        _ => {},
    }
}

/// Wire-layout law for the packets that carry a string: the player id at
/// bytes 3 to 6, the string's UTF-8 byte count at bytes 7 and 8, then its
/// UTF-8 bytes.
pub proof fn lemma_string_frame_layout(p: PacketView)
    requires
        strings_fit(p),
    ensures
        ({
            let f = encode_packet(p);
            &&& p matches PacketView::Connect { player_id, username } ==> {
                &&& f[2] == 0x01
                &&& f.subrange(3, 7) == spec_u32_to_le_bytes(player_id)
                &&& spec_u16_from_le_bytes(f.subrange(7, 9)) == encode_utf8(username).len()
                &&& f.skip(9) == encode_utf8(username)
            }
            &&& p matches PacketView::Chat { player_id, message } ==> {
                &&& f[2] == 0x30
                &&& f.subrange(3, 7) == spec_u32_to_le_bytes(player_id)
                &&& spec_u16_from_le_bytes(f.subrange(7, 9)) == encode_utf8(message).len()
                &&& f.skip(9) == encode_utf8(message)
            }
        }),
{
    lemma_auto_spec_u16_to_from_le_bytes();
    lemma_auto_spec_u32_to_from_le_bytes();
    let body = seq![spec_packet_id(p)] + encode_fields(p);
    let f = encode_packet(p);
    assert(f == spec_u16_to_le_bytes(body.len() as u16) + body);
    assert(f[2] == body[0]);
    match p {
        PacketView::Connect { player_id, username } => {
            let e = encode_utf8(username);
            assert(f.subrange(3, 7) =~= spec_u32_to_le_bytes(player_id));
            assert(f.subrange(7, 9) =~= spec_u16_to_le_bytes(e.len() as u16));
            assert(f.skip(9) =~= e);
        },
        PacketView::Chat { player_id, message } => {
            let e = encode_utf8(message);
            assert(f.subrange(3, 7) =~= spec_u32_to_le_bytes(player_id));
            assert(f.subrange(7, 9) =~= spec_u16_to_le_bytes(e.len() as u16));
            assert(f.skip(9) =~= e);
        },
        _ => {},
    }
}

/// Reading law: a frame is read field by field at the offsets the writer
/// puts them, whatever its length prefix says and whatever follows.
pub proof fn lemma_frame_reading(d: Seq<u8>)
    ensures
        d.len() >= 8 && d[2] == 0x02 ==> decode_packet(d) == Ok::<PacketView, ProtocolError>(
            PacketView::ConnectAck { success: d[3] != 0, player_id: spec_u32_from_le_bytes(d.subrange(4, 8)) },
        ),
        d.len() >= 19 && d[2] == 0x10 ==> decode_packet(d) == Ok::<PacketView, ProtocolError>(
            PacketView::Position {
                player_id: spec_u32_from_le_bytes(d.subrange(3, 7)),
                x: spec_u32_from_le_bytes(d.subrange(7, 11)),
                y: spec_u32_from_le_bytes(d.subrange(11, 15)),
                z: spec_u32_from_le_bytes(d.subrange(15, 19)),
            },
        ),
        d.len() >= 9 && d[2] == 0x11 ==> decode_packet(d) == Ok::<PacketView, ProtocolError>(
            PacketView::Rotation { player_id: spec_u32_from_le_bytes(d.subrange(3, 7)), yaw: d[7], pitch: d[8] },
        ),
        d.len() >= 16 && d[2] == 0x20 ==> decode_packet(d) == Ok::<PacketView, ProtocolError>(
            PacketView::BlockChange {
                x: spec_u32_from_le_bytes(d.subrange(3, 7)) as i32,
                y: spec_u32_from_le_bytes(d.subrange(7, 11)) as i32,
                z: spec_u32_from_le_bytes(d.subrange(11, 15)) as i32,
                block_type: d[15],
            },
        ),
        d.len() >= 7 && d[2] == 0x40 ==> decode_packet(d) == Ok::<PacketView, ProtocolError>(
            PacketView::Disconnect { player_id: spec_u32_from_le_bytes(d.subrange(3, 7)) },
        ),
        d.len() >= 11 && d[2] == 0xFE ==> decode_packet(d) == Ok::<PacketView, ProtocolError>(
            PacketView::Ping { timestamp: spec_u64_from_le_bytes(d.subrange(3, 11)) },
        ),
        d.len() >= 11 && d[2] == 0xFF ==> decode_packet(d) == Ok::<PacketView, ProtocolError>(
            PacketView::Pong { timestamp: spec_u64_from_le_bytes(d.subrange(3, 11)) },
        ),
        d.len() >= 7 && (d[2] == 0x01 || d[2] == 0x30) ==> match decode_packet(d) {
            Ok(PacketView::Connect { player_id, .. }) => d[2] == 0x01 && player_id == spec_u32_from_le_bytes(d.subrange(3, 7)),
            Ok(PacketView::Chat { player_id, .. }) => d[2] == 0x30 && player_id == spec_u32_from_le_bytes(d.subrange(3, 7)),
            Ok(_) => false,
            Err(_) => true,
        },
{
    if d.len() >= 7 {
        let b = d.skip(3);
        assert(b.take(4) =~= d.subrange(3, 7));
        assert(b.subrange(0, 4) =~= d.subrange(3, 7));
        if d.len() >= 8 {
            assert(b.skip(1).take(4) =~= d.subrange(4, 8));
        }
        if d.len() >= 11 {
            assert(b.subrange(4, 8) =~= d.subrange(7, 11));
            assert(b.take(8) =~= d.subrange(3, 11));
        }
        if d.len() >= 15 {
            assert(b.subrange(8, 12) =~= d.subrange(11, 15));
        }
        if d.len() >= 19 {
            assert(b.subrange(12, 16) =~= d.subrange(15, 19));
        }
    }
}

} // verus!
