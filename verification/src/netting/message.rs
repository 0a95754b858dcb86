//! Netting messages and the packets that carry them.

use vstd::prelude::*;
use vstd::string::*;
use vstd::utf8::*;

use super::client_id::{ClientId, PeerAddr};
use crate::clock::{self, Timestamp};
use crate::wire;

verus! {

/// Largest datagram that UDP carries.
pub const MAX_UDP_DG_SIZE: usize = 65_535;

/// Largest packet of a known peer, before it is sealed.
pub const MAX_KNOWN_PACKET_LEN: usize = 32_767;

/// Bytes before a packet's share of the message: the message's length, its id
/// and the packet's index.
pub const PACKET_HEADER_LEN: usize = 17;

/// The share of a message that one packet carries.
pub const CHUNK_LEN: usize = 32_750;

/// What a netting message says.
///
/// `W` is the world that a transfer carries and `A` the action of a user. On
/// the wire a world is its encoded bytes, so `W` is `Vec<u8>` there.
#[derive(Debug)]
pub enum NettingMessageKind<W, A> {
    Noop,
    NakedLogString(String),
    Handshake,
    NewConnection,
    DroppedConnection { client_id: ClientId },
    /// Boxed, so that a large world does not blow up every message.
    WorldTransfer(Box<W>),
    WorldSyncStart,
    WorldSyncEnd,
    User(A),
    FrameSync(u64),
}

/// A message kind with its world encoded, seen as plain values.
pub enum KindModel<A> {
    Noop,
    NakedLogString(Seq<char>),
    Handshake,
    NewConnection,
    DroppedConnection(Seq<u8>),
    WorldTransfer(Seq<u8>),
    WorldSyncStart,
    WorldSyncEnd,
    User(A),
    FrameSync(u64),
}

impl<A> View for NettingMessageKind<Vec<u8>, A> {
    type V = KindModel<A>;

    open spec fn view(&self) -> KindModel<A> {
        match *self {
            NettingMessageKind::Noop => KindModel::Noop,
            NettingMessageKind::NakedLogString(s) => KindModel::NakedLogString(s@),
            NettingMessageKind::Handshake => KindModel::Handshake,
            NettingMessageKind::NewConnection => KindModel::NewConnection,
            NettingMessageKind::DroppedConnection { client_id } => KindModel::DroppedConnection(
                client_id.bytes(),
            ),
            NettingMessageKind::WorldTransfer(w) => KindModel::WorldTransfer(w@),
            NettingMessageKind::WorldSyncStart => KindModel::WorldSyncStart,
            NettingMessageKind::WorldSyncEnd => KindModel::WorldSyncEnd,
            NettingMessageKind::User(a) => KindModel::User(a),
            NettingMessageKind::FrameSync(f) => KindModel::FrameSync(f),
        }
    }
}

/// The bytes of a kind. The discriminant is the last byte.
///
/// A dropped connection is sent without its client, and a user's action
/// without its contents.
pub open spec fn kind_bytes<A>(kind: KindModel<A>) -> Seq<u8> {
    match kind {
        KindModel::Noop => seq![0u8],
        KindModel::Handshake => seq![1u8],
        KindModel::NewConnection => seq![2u8],
        KindModel::DroppedConnection(_) => seq![3u8],
        KindModel::WorldTransfer(w) => w.push(4u8),
        KindModel::User(_) => seq![5u8],
        KindModel::NakedLogString(s) => encode_utf8(s).push(6u8),
        KindModel::WorldSyncStart => seq![7u8],
        KindModel::WorldSyncEnd => seq![8u8],
        KindModel::FrameSync(frame) => wire::be_bytes(frame).push(9u8),
    }
}

/// Whether the bytes can be read as a kind: the last byte is a discriminant
/// that has a reader, a dropped client has an id's length, and a log string is
/// UTF-8.
pub open spec fn kind_readable(bytes: Seq<u8>) -> bool {
    &&& bytes.len() >= 1
    &&& bytes.last() <= 9
    &&& bytes.last() != 5
    &&& bytes.last() == 3 ==> bytes.len() == 10
    &&& bytes.last() == 6 ==> valid_utf8(bytes.drop_last())
}

/// The kind that readable bytes stand for; `None` where a frame sync does not
/// have its length.
pub open spec fn kind_of<A>(bytes: Seq<u8>) -> Option<KindModel<A>> {
    let rest = bytes.drop_last();
    let d = bytes.last();
    if d == 0 {
        Some(KindModel::Noop)
    } else if d == 1 {
        Some(KindModel::Handshake)
    } else if d == 2 {
        Some(KindModel::NewConnection)
    } else if d == 3 {
        Some(KindModel::DroppedConnection(rest))
    } else if d == 4 {
        Some(KindModel::WorldTransfer(rest))
    } else if d == 6 {
        Some(KindModel::NakedLogString(decode_utf8(rest)))
    } else if d == 7 {
        Some(KindModel::WorldSyncStart)
    } else if d == 8 {
        Some(KindModel::WorldSyncEnd)
    } else if rest.len() == 8 {
        Some(KindModel::FrameSync(wire::be_value(rest) as u64))
    } else {
        None
    }
}

/// What is sent is what is read: of every kind but a dropped connection and a
/// user's action, the bytes read back as that kind.
pub proof fn kind_is_read_back<A>(kind: KindModel<A>)
    requires
        !(kind is DroppedConnection),
        !(kind is User),
    ensures
        kind_readable(kind_bytes(kind)),
        kind_of::<A>(kind_bytes(kind)) == Some(kind),
{
    let b = kind_bytes(kind);
    match kind {
        KindModel::WorldTransfer(w) => {
            assert(b.drop_last() =~= w);
        },
        KindModel::NakedLogString(s) => {
            assert(b.drop_last() =~= encode_utf8(s));
            encode_utf8_valid_utf8(s);
            encode_utf8_decode_utf8(s);
        },
        KindModel::FrameSync(frame) => {
            assert(b.drop_last() =~= wire::be_bytes(frame));
            wire::be_read_of_write(frame);
        },
        _ => {},
    }
}

/// Why bytes are no kind.
#[derive(Debug)]
pub enum NettingMessageKindParseError {
    PartialMessage { expected_len: u64, bytes: Vec<u8> },
    BadWorld(Vec<u8>),
}

impl<A> NettingMessageKind<Vec<u8>, A> {
    /// The kind as bytes, the discriminant last.
    pub fn into_bytes(self) -> (bytes: Vec<u8>)
        ensures
            bytes@ == kind_bytes(self@),
    {
        let ghost model = self@;
        let mut bytes: Vec<u8> = Vec::new();
        match self {
            NettingMessageKind::Noop => {
                bytes.push(0);
            },
            NettingMessageKind::Handshake => {
                bytes.push(1);
            },
            NettingMessageKind::NewConnection => {
                bytes.push(2);
            },
            NettingMessageKind::DroppedConnection { client_id: _ } => {
                bytes.push(3);
            },
            NettingMessageKind::WorldTransfer(world) => {
                bytes = *world;
                bytes.push(4);
            },
            NettingMessageKind::User(_) => {
                bytes.push(5);
            },
            NettingMessageKind::NakedLogString(log) => {
                wire::push_all(&mut bytes, log.as_str().as_bytes());
                bytes.push(6);
            },
            NettingMessageKind::WorldSyncStart => {
                bytes.push(7);
            },
            NettingMessageKind::WorldSyncEnd => {
                bytes.push(8);
            },
            NettingMessageKind::FrameSync(frame) => {
                wire::push_be_u64(&mut bytes, frame);
                bytes.push(9);
            },
        }
        assert(bytes@ =~= kind_bytes(model));
        bytes
    }

    /// Whether `parse` takes the bytes.
    pub fn is_readable(bytes: &Vec<u8>) -> (ok: bool)
        ensures
            ok == kind_readable(bytes@),
    {
        if bytes.len() == 0 {
            return false;
        }
        let last: u8 = bytes[bytes.len() - 1];
        if last > 9 || last == 5 || (last == 3 && bytes.len() != 10) {
            return false;
        }
        if last == 6 {
            let text = wire::copy_range(bytes.as_slice(), 0, bytes.len() - 1);
            assert(text@ =~= bytes@.drop_last());
            wire::string_from_utf8(text).is_some()
        } else {
            true
        }
    }

    /// Whether the bytes are readable and stand for a kind: no frame sync of
    /// another length.
    pub fn is_whole(bytes: &Vec<u8>) -> (ok: bool)
        ensures
            ok == (kind_readable(bytes@) && kind_of::<A>(bytes@) is Some),
    {
        Self::is_readable(bytes) && (bytes[bytes.len() - 1] != 9 || bytes.len() == 9)
    }

    /// The kind that the bytes stand for. The world of a transfer stays encoded.
    pub fn parse(bytes: Vec<u8>) -> (kind: Result<Self, NettingMessageKindParseError>)
        requires
            kind_readable(bytes@),
        ensures
            match kind {
                Ok(k) => kind_of::<A>(bytes@) == Some(k@),
                Err(NettingMessageKindParseError::PartialMessage { expected_len, bytes: all }) => {
                    &&& kind_of::<A>(bytes@) is None
                    &&& expected_len == 9
                    &&& all@ == bytes@
                },
                Err(NettingMessageKindParseError::BadWorld(_)) => false,
            },
    {
        let mut rest = bytes;
        let last: u8 = rest[rest.len() - 1];
        rest.pop();
        assert(rest@ =~= bytes@.drop_last());
        match last {
            0 => Ok(NettingMessageKind::Noop),
            1 => Ok(NettingMessageKind::Handshake),
            2 => Ok(NettingMessageKind::NewConnection),
            3 => {
                let client_id = ClientId::from_bytes(rest.as_slice()).unwrap();
                Ok(NettingMessageKind::DroppedConnection { client_id })
            },
            4 => Ok(NettingMessageKind::WorldTransfer(Box::new(rest))),
            6 => {
                let text = wire::string_from_utf8(rest).unwrap();
                Ok(NettingMessageKind::NakedLogString(text))
            },
            7 => Ok(NettingMessageKind::WorldSyncStart),
            8 => Ok(NettingMessageKind::WorldSyncEnd),
            _ => {
                if rest.len() != 8 {
                    rest.push(9);
                    assert(rest@ =~= bytes@);
                    return Err(
                        NettingMessageKindParseError::PartialMessage {
                            expected_len: 9,
                            bytes: rest,
                        },
                    );
                }
                assert(rest@.subrange(0, 8) =~= rest@);
                let frame = wire::read_be_u64(rest.as_slice(), 0);
                Ok(NettingMessageKind::FrameSync(frame))
            },
        }
    }

    /// Puts the decoded world in place of its bytes. A transfer whose world
    /// did not decode is a bad world; every other kind stays as it is.
    pub fn resolve_world<W>(self, world: Option<W>) -> (kind: Result<
        NettingMessageKind<W, A>,
        NettingMessageKindParseError,
    >)
        ensures
            match (self, kind) {
                (NettingMessageKind::WorldTransfer(_), Ok(k)) => world is Some && k
                    == NettingMessageKind::<W, A>::WorldTransfer(Box::new(world->0)),
                (NettingMessageKind::WorldTransfer(b), Err(e)) => world is None && e
                    == NettingMessageKindParseError::BadWorld(*b),
                (_, Ok(k)) => k.same_but_world(self),
                (_, Err(_)) => false,
            },
    {
        match self {
            NettingMessageKind::Noop => Ok(NettingMessageKind::Noop),
            NettingMessageKind::NakedLogString(s) => Ok(NettingMessageKind::NakedLogString(s)),
            NettingMessageKind::Handshake => Ok(NettingMessageKind::Handshake),
            NettingMessageKind::NewConnection => Ok(NettingMessageKind::NewConnection),
            NettingMessageKind::DroppedConnection { client_id } => Ok(
                NettingMessageKind::DroppedConnection { client_id },
            ),
            NettingMessageKind::WorldTransfer(bytes) => match world {
                Some(w) => Ok(NettingMessageKind::WorldTransfer(Box::new(w))),
                None => Err(NettingMessageKindParseError::BadWorld(*bytes)),
            },
            NettingMessageKind::WorldSyncStart => Ok(NettingMessageKind::WorldSyncStart),
            NettingMessageKind::WorldSyncEnd => Ok(NettingMessageKind::WorldSyncEnd),
            NettingMessageKind::User(a) => Ok(NettingMessageKind::User(a)),
            NettingMessageKind::FrameSync(f) => Ok(NettingMessageKind::FrameSync(f)),
        }
    }
}

impl<W, A> NettingMessageKind<W, A> {
    /// Whether the two kinds say the same and neither carries a world.
    pub open spec fn same_but_world<V>(self, other: NettingMessageKind<V, A>) -> bool {
        match (self, other) {
            (NettingMessageKind::Noop, NettingMessageKind::Noop) => true,
            (NettingMessageKind::NakedLogString(a), NettingMessageKind::NakedLogString(b)) => a
                == b,
            (NettingMessageKind::Handshake, NettingMessageKind::Handshake) => true,
            (NettingMessageKind::NewConnection, NettingMessageKind::NewConnection) => true,
            (
                NettingMessageKind::DroppedConnection { client_id: a },
                NettingMessageKind::DroppedConnection { client_id: b },
            ) => a == b,
            (NettingMessageKind::WorldSyncStart, NettingMessageKind::WorldSyncStart) => true,
            (NettingMessageKind::WorldSyncEnd, NettingMessageKind::WorldSyncEnd) => true,
            (NettingMessageKind::User(a), NettingMessageKind::User(b)) => a == b,
            (NettingMessageKind::FrameSync(a), NettingMessageKind::FrameSync(b)) => a == b,
            _ => false,
        }
    }

    /// Puts the encoding of a world in the world's place.
    pub fn encode_world(self, encoded: Vec<u8>) -> (kind: NettingMessageKind<Vec<u8>, A>)
        ensures
            match self {
                NettingMessageKind::WorldTransfer(_) => kind
                    == NettingMessageKind::<Vec<u8>, A>::WorldTransfer(Box::new(encoded)),
                _ => self.same_but_world(kind),
            },
    {
        match self {
            NettingMessageKind::Noop => NettingMessageKind::Noop,
            NettingMessageKind::NakedLogString(s) => NettingMessageKind::NakedLogString(s),
            NettingMessageKind::Handshake => NettingMessageKind::Handshake,
            NettingMessageKind::NewConnection => NettingMessageKind::NewConnection,
            NettingMessageKind::DroppedConnection { client_id } =>
                NettingMessageKind::DroppedConnection { client_id },
            NettingMessageKind::WorldTransfer(_) => NettingMessageKind::WorldTransfer(
                Box::new(encoded),
            ),
            NettingMessageKind::WorldSyncStart => NettingMessageKind::WorldSyncStart,
            NettingMessageKind::WorldSyncEnd => NettingMessageKind::WorldSyncEnd,
            NettingMessageKind::User(a) => NettingMessageKind::User(a),
            NettingMessageKind::FrameSync(f) => NettingMessageKind::FrameSync(f),
        }
    }

    /// The kind as a message with the given id.
    pub fn with_id(self, message_id: u64) -> (msg: NettingMessage<W, A>)
        ensures
            msg.message_id == message_id,
            msg.kind == self,
    {
        NettingMessage { message_id, kind: self }
    }

    /// The kind as a message whose id is the current millisecond.
    pub fn to_msg(self) -> (msg: NettingMessage<W, A>)
        ensures
            msg.kind == self,
            exists|t: Timestamp| t.wf() && t.seconds >= 0 && msg.message_id == #[trigger]
                t.as_millis(),
    {
        let now = clock::now();
        self.with_id(now.millis() as u64)
    }
}

/// A netting message.
#[derive(Debug)]
pub struct NettingMessage<W, A> {
    pub message_id: u64,
    pub kind: NettingMessageKind<W, A>,
}

/// The bytes of one packet of a message, under the packet's index.
#[derive(Debug)]
pub struct NettingMessageBytesWithOrdering {
    pub packet_index: u8,
    pub bytes: Vec<u8>,
}

/// Why a packet is no whole message.
#[derive(Debug)]
pub enum NettingMessageParseError {
    PartialMessage { message_id: u64, expected_len: u64, msg: NettingMessageBytesWithOrdering },
    BadWorld(Vec<u8>),
}

/// A message from a peer.
#[derive(Debug)]
pub struct InboundNettingMessage<W, A> {
    pub sender_id: ClientId,
    pub msg: NettingMessage<W, A>,
}

/// What a socket is told.
pub enum SocketMessage<W, A> {
    Netting(NettingMessage<W, A>),
    RecipientRemove(PeerAddr),
    RecipientCreate(PeerAddr),
}

/// Whether a message of `len` bytes is small enough: it takes no more than 255
/// packets.
pub open spec fn fits_packets(len: nat) -> bool {
    len <= 255 * CHUNK_LEN
}

/// How many packets a message of `len` bytes takes.
pub open spec fn packet_count(len: nat) -> nat {
    ((len + CHUNK_LEN - 1) / CHUNK_LEN as int) as nat
}

/// Where the share of packet `i` begins.
pub open spec fn chunk_start(i: int) -> int {
    i * CHUNK_LEN
}

/// Where the share of packet `i` of a message of `len` bytes ends.
pub open spec fn chunk_end(len: nat, i: int) -> int {
    if (i + 1) * CHUNK_LEN <= len {
        (i + 1) * CHUNK_LEN
    } else {
        len as int
    }
}

/// The share of a message that packet `i` carries.
pub open spec fn chunk(payload: Seq<u8>, i: int) -> Seq<u8> {
    payload.subrange(chunk_start(i), chunk_end(payload.len(), i))
}

/// Packet `i` of a message.
pub open spec fn packet(message_id: u64, payload: Seq<u8>, i: int) -> Seq<u8> {
    wire::be_bytes(payload.len() as u64) + wire::be_bytes(message_id) + seq![i as u8] + chunk(
        payload,
        i,
    )
}

/// The message length that a packet announces.
pub open spec fn packet_len(packet: Seq<u8>) -> int {
    wire::be_value(packet.subrange(0, 8))
}

/// The message id that a packet bears.
pub open spec fn packet_id(packet: Seq<u8>) -> int {
    wire::be_value(packet.subrange(8, 16))
}

/// A packet's share of the message.
pub open spec fn packet_body(packet: Seq<u8>) -> Seq<u8> {
    packet.subrange(17, packet.len() as int)
}

/// Whether a packet has its header and, where it carries the whole message,
/// that message can be read.
pub open spec fn packet_readable(packet: Seq<u8>) -> bool {
    &&& packet.len() >= PACKET_HEADER_LEN
    &&& packet_body(packet).len() == packet_len(packet) ==> kind_readable(packet_body(packet))
}

/// Whether a packet is a whole message.
pub open spec fn packet_is_whole<A>(packet: Seq<u8>) -> bool {
    packet_body(packet).len() == packet_len(packet) && kind_of::<A>(packet_body(packet)) is Some
}

/// The length under which a packet that is no whole message is kept: the one
/// it announces, or that of a frame sync where a frame sync is malformed.
pub open spec fn partial_len(packet: Seq<u8>) -> int {
    if packet_body(packet).len() != packet_len(packet) {
        packet_len(packet)
    } else {
        9
    }
}

/// What a packet says of itself is what it was made from.
pub proof fn packet_is_read_back(message_id: u64, payload: Seq<u8>, i: int)
    requires
        fits_packets(payload.len()),
        0 <= i < packet_count(payload.len()),
    ensures
        i < 255,
        packet(message_id, payload, i).len() <= MAX_KNOWN_PACKET_LEN,
        packet(message_id, payload, i).len() > PACKET_HEADER_LEN,
        packet_len(packet(message_id, payload, i)) == payload.len(),
        packet_id(packet(message_id, payload, i)) == message_id,
        packet(message_id, payload, i)[16] == i,
        packet_body(packet(message_id, payload, i)) == chunk(payload, i),
{
    let p = packet(message_id, payload, i);
    let len = payload.len() as u64;
    wire::be_read_of_write(len);
    wire::be_read_of_write(message_id);
    assert(p.subrange(0, 8) =~= wire::be_bytes(len));
    assert(p.subrange(8, 16) =~= wire::be_bytes(message_id));
    assert(packet_body(p) =~= chunk(payload, i));
}

impl<A> NettingMessage<Vec<u8>, A> {
    /// Whether the message is small enough to be sent.
    pub fn fits(&self) -> (ok: bool)
        ensures
            ok == fits_packets(kind_bytes(self.kind@).len()),
    {
        match &self.kind {
            NettingMessageKind::WorldTransfer(w) => w.len() < 255 * CHUNK_LEN,
            NettingMessageKind::NakedLogString(text) => text.as_str().as_bytes().len() < 255
                * CHUNK_LEN,
            _ => true,
        }
    }

    /// The packets that carry the message, in order.
    pub fn into_known_packet_bytes(self) -> (packets: Vec<Vec<u8>>)
        requires
            fits_packets(kind_bytes(self.kind@).len()),
        ensures
            packets@.len() == packet_count(kind_bytes(self.kind@).len()),
            packets@.len() <= 255,
            forall|i: int|
                0 <= i < packets@.len() ==> (#[trigger] packets@[i])@ == packet(
                    self.message_id,
                    kind_bytes(self.kind@),
                    i,
                ),
    {
        let message_id = self.message_id;
        let payload = self.kind.into_bytes();
        let mut packets: Vec<Vec<u8>> = Vec::new();
        let mut start: usize = 0;
        let mut index: usize = 0;
        while start < payload.len()
            invariant
                fits_packets(payload@.len()),
                start == index * CHUNK_LEN || (start == payload@.len() && index == packet_count(
                    payload@.len(),
                )),
                start <= payload@.len(),
                index == packets@.len(),
                start == payload@.len() ==> index == packet_count(payload@.len()),
                forall|i: int|
                    0 <= i < packets@.len() ==> (#[trigger] packets@[i])@ == packet(
                        message_id,
                        payload@,
                        i,
                    ),
            decreases payload@.len() - start,
        {
            let end: usize = if payload.len() - start > CHUNK_LEN {
                start + CHUNK_LEN
            } else {
                payload.len()
            };
            assert(index < 255);
            let mut assembled: Vec<u8> = Vec::new();
            wire::push_be_u64(&mut assembled, payload.len() as u64);
            wire::push_be_u64(&mut assembled, message_id);
            assembled.push(index as u8);
            wire::push_range(&mut assembled, payload.as_slice(), start, end);
            assert(assembled@ =~= packet(message_id, payload@, index as int));
            packets.push(assembled);
            start = end;
            index += 1;
        }
        packets
    }

    /// Whether `parse` takes the packet.
    pub fn is_readable(bytes: &Vec<u8>) -> (ok: bool)
        ensures
            ok == packet_readable(bytes@),
    {
        if bytes.len() < PACKET_HEADER_LEN {
            return false;
        }
        let len = wire::read_be_u64(bytes.as_slice(), 0);
        if (bytes.len() - PACKET_HEADER_LEN) as u64 == len {
            let body = wire::copy_range(bytes.as_slice(), PACKET_HEADER_LEN, bytes.len());
            NettingMessageKind::<Vec<u8>, A>::is_readable(&body)
        } else {
            true
        }
    }

    /// Reads a packet: the message, where the packet carries all of it, or
    /// the part that it carries.
    pub fn parse(bytes: Vec<u8>) -> (msg: Result<Self, NettingMessageParseError>)
        requires
            packet_readable(bytes@),
        ensures
            match msg {
                Ok(m) => {
                    &&& packet_body(bytes@).len() == packet_len(bytes@)
                    &&& m.message_id == packet_id(bytes@)
                    &&& kind_of::<A>(packet_body(bytes@)) == Some(m.kind@)
                },
                Err(
                    NettingMessageParseError::PartialMessage {
                        message_id,
                        expected_len,
                        msg: part,
                    },
                ) => {
                    &&& !packet_is_whole::<A>(bytes@)
                    &&& message_id == packet_id(bytes@)
                    &&& expected_len == partial_len(bytes@)
                    &&& part.packet_index == bytes@[16]
                    &&& part.bytes@ == packet_body(bytes@)
                },
                Err(NettingMessageParseError::BadWorld(_)) => false,
            },
    {
        let expected_len = wire::read_be_u64(bytes.as_slice(), 0);
        let message_id = wire::read_be_u64(bytes.as_slice(), 8);
        let packet_index: u8 = bytes[16];
        let body = wire::copy_range(bytes.as_slice(), PACKET_HEADER_LEN, bytes.len());
        if body.len() as u64 == expected_len {
            match NettingMessageKind::parse(body) {
                Ok(kind) => Ok(NettingMessage { message_id, kind }),
                Err(NettingMessageKindParseError::BadWorld(world)) => Err(
                    NettingMessageParseError::BadWorld(world),
                ),
                Err(NettingMessageKindParseError::PartialMessage { expected_len, bytes }) => Err(
                    NettingMessageParseError::PartialMessage {
                        message_id,
                        expected_len,
                        msg: NettingMessageBytesWithOrdering { packet_index, bytes },
                    },
                ),
            }
        } else {
            Err(
                NettingMessageParseError::PartialMessage {
                    message_id,
                    expected_len,
                    msg: NettingMessageBytesWithOrdering { packet_index, bytes: body },
                },
            )
        }
    }

    /// The message with its world decoded, or the bad world.
    pub fn resolve_world<W>(self, world: Option<W>) -> (msg: Result<
        NettingMessage<W, A>,
        NettingMessageParseError,
    >)
        ensures
            match (self.kind, msg) {
                (NettingMessageKind::WorldTransfer(_), Ok(m)) => world is Some && m.message_id
                    == self.message_id && m.kind == NettingMessageKind::<W, A>::WorldTransfer(
                    Box::new(world->0),
                ),
                (NettingMessageKind::WorldTransfer(b), Err(e)) => world is None && e
                    == NettingMessageParseError::BadWorld(*b),
                (_, Ok(m)) => m.message_id == self.message_id && m.kind.same_but_world(self.kind),
                (_, Err(_)) => false,
            },
    {
        let message_id = self.message_id;
        match self.kind.resolve_world(world) {
            Ok(kind) => Ok(NettingMessage { message_id, kind }),
            Err(NettingMessageKindParseError::BadWorld(bytes)) => Err(
                NettingMessageParseError::BadWorld(bytes),
            ),
            Err(NettingMessageKindParseError::PartialMessage { expected_len, bytes }) => Err(
                NettingMessageParseError::PartialMessage {
                    message_id,
                    expected_len,
                    msg: NettingMessageBytesWithOrdering { packet_index: 0, bytes },
                },
            ),
        }
    }
}

impl<W, A> NettingMessage<W, A> {
    /// The message, attributed to its sender.
    pub fn to_inbound(self, sender_id: ClientId) -> (inbound: InboundNettingMessage<W, A>)
        ensures
            inbound.sender_id == sender_id,
            inbound.msg == self,
    {
        InboundNettingMessage { sender_id, msg: self }
    }
}

/// On the wire every kind ends in its own number, behind what it carries: a
/// world its bytes, a log string its UTF-8, a frame its eight bytes, and all
/// others nothing.
pub proof fn every_kind_ends_in_its_number<A>(kind: KindModel<A>)
    ensures
        kind is Noop ==> kind_bytes(kind) == seq![0u8],
        kind is Handshake ==> kind_bytes(kind) == seq![1u8],
        kind is NewConnection ==> kind_bytes(kind) == seq![2u8],
        kind is DroppedConnection ==> kind_bytes(kind) == seq![3u8],
        kind matches KindModel::WorldTransfer(w) ==> kind_bytes(kind) == w + seq![4u8],
        kind is User ==> kind_bytes(kind) == seq![5u8],
        kind matches KindModel::NakedLogString(s) ==> kind_bytes(kind) == encode_utf8(s) + seq![
            6u8,
        ],
        kind is WorldSyncStart ==> kind_bytes(kind) == seq![7u8],
        kind is WorldSyncEnd ==> kind_bytes(kind) == seq![8u8],
        kind matches KindModel::FrameSync(f) ==> kind_bytes(kind).len() == 9 && kind_bytes(kind)[8]
            == 9 && wire::be_value(kind_bytes(kind)) == f,
{
    match kind {
        KindModel::WorldTransfer(w) => {
            assert(w.push(4u8) =~= w + seq![4u8]);
        },
        KindModel::NakedLogString(s) => {
            assert(encode_utf8(s).push(6u8) =~= encode_utf8(s) + seq![6u8]);
        },
        KindModel::FrameSync(f) => {
            wire::be_read_of_write(f);
        },
        _ => {},
    }
}

/// Bytes are read by the number at their end. What stands before it is ignored
/// where the kind carries nothing; a dropped client takes nine bytes, a world
/// any, a log string UTF-8 and a frame eight. A user's action and numbers above
/// nine cannot be read.
pub proof fn kinds_are_read_by_their_number<A>(rest: Seq<u8>, number: u8)
    ensures
        ({
            let bytes = rest.push(number);
            &&& kind_readable(bytes) <==> number <= 9 && number != 5 && (number == 3 ==> rest.len()
                == 9) && (number == 6 ==> valid_utf8(rest))
            &&& number == 0 ==> kind_of::<A>(bytes) == Some(KindModel::<A>::Noop)
            &&& number == 1 ==> kind_of::<A>(bytes) == Some(KindModel::<A>::Handshake)
            &&& number == 2 ==> kind_of::<A>(bytes) == Some(KindModel::<A>::NewConnection)
            &&& number == 3 ==> kind_of::<A>(bytes) == Some(KindModel::<A>::DroppedConnection(rest))
            &&& number == 4 ==> kind_of::<A>(bytes) == Some(KindModel::<A>::WorldTransfer(rest))
            &&& number == 6 ==> kind_of::<A>(bytes) == Some(
                KindModel::<A>::NakedLogString(decode_utf8(rest)),
            )
            &&& number == 7 ==> kind_of::<A>(bytes) == Some(KindModel::<A>::WorldSyncStart)
            &&& number == 8 ==> kind_of::<A>(bytes) == Some(KindModel::<A>::WorldSyncEnd)
            &&& number == 9 && rest.len() == 8 ==> kind_of::<A>(bytes) == Some(
                KindModel::<A>::FrameSync(wire::be_value(rest) as u64),
            )
            &&& number == 9 && rest.len() != 8 ==> kind_of::<A>(bytes) is None
        }),
        !kind_readable(Seq::<u8>::empty()),
{
    assert(rest.push(number).drop_last() =~= rest);
}

/// A message is cut into as few packets as hold it, all full but the last:
/// packet by packet, the length of the message, its id, the packet's place and
/// the bytes that stand there in the message.
pub proof fn packets_are_cut_at_full_length(message_id: u64, payload: Seq<u8>, i: int)
    requires
        0 <= i < packet_count(payload.len()),
        payload.len() <= 8_351_250,
    ensures
        packet_count(payload.len()) * 32_750 >= payload.len(),
        packet_count(payload.len()) * 32_750 < payload.len() + 32_750,
        i * 32_750 < payload.len(),
        packet(message_id, payload, i).subrange(0, 8) == wire::be_bytes(payload.len() as u64),
        packet(message_id, payload, i).subrange(8, 16) == wire::be_bytes(message_id),
        packet(message_id, payload, i)[16] == i,
        packet(message_id, payload, i).skip(17) == payload.subrange(
            i * 32_750,
            if (i + 1) * 32_750 <= payload.len() {
                (i + 1) * 32_750
            } else {
                payload.len() as int
            },
        ),
        i < packet_count(payload.len()) - 1 ==> packet(message_id, payload, i).len() == 32_767,
        fits_packets(payload.len()),
{
    packet_is_read_back(message_id, payload, i);
    let p = packet(message_id, payload, i);
    wire::be_read_of_write(payload.len() as u64);
    wire::be_read_of_write(message_id);
    assert(p.subrange(0, 8) =~= wire::be_bytes(payload.len() as u64));
    assert(p.subrange(8, 16) =~= wire::be_bytes(message_id));
    assert(p.skip(17) =~= packet_body(p));
}

/// Messages of up to 255 full packets can be sent, and no longer ones.
pub proof fn longer_messages_do_not_fit(len: nat)
    ensures
        fits_packets(len) <==> len <= 8_351_250,
        fits_packets(len) <==> packet_count(len) <= 255,
        packet_count(0) == 0,
{
}

/// A packet's header is read wherever it came from: the announced length, the
/// id, the place, and the rest. It is a whole message where the rest has the
/// announced length and can be read; else it is kept under that length, or
/// under nine where a frame of another length was announced as a whole. What is
/// shorter than a header cannot be read.
pub proof fn a_header_is_read<A>(len: u64, message_id: u64, place: u8, body: Seq<u8>)
    ensures
        ({
            let p = wire::be_bytes(len) + wire::be_bytes(message_id) + seq![place] + body;
            &&& packet_len(p) == len
            &&& packet_id(p) == message_id
            &&& p[16] == place
            &&& packet_body(p) == body
            &&& packet_readable(p) <==> body.len() != len || kind_readable(body)
            &&& packet_is_whole::<A>(p) <==> body.len() == len && kind_of::<A>(body) is Some
            &&& partial_len(p) == (if body.len() != len {
                len as int
            } else {
                9
            })
            &&& forall|cut: int| 0 <= cut < 17 ==> !packet_readable(#[trigger] p.take(cut))
        }),
{
    let p = wire::be_bytes(len) + wire::be_bytes(message_id) + seq![place] + body;
    wire::be_read_of_write(len);
    wire::be_read_of_write(message_id);
    assert(p.subrange(0, 8) =~= wire::be_bytes(len));
    assert(p.subrange(8, 16) =~= wire::be_bytes(message_id));
    assert(packet_body(p) =~= body);
}

/// Kinds that say the same say it with the same contents, and neither carries
/// a world.
pub proof fn the_same_but_for_the_world<W, V, A>(
    a: NettingMessageKind<W, A>,
    b: NettingMessageKind<V, A>,
)
    requires
        a.same_but_world(b),
    ensures
        !(a is WorldTransfer) && !(b is WorldTransfer),
        a is Noop <==> b is Noop,
        a is Handshake <==> b is Handshake,
        a is NewConnection <==> b is NewConnection,
        a is WorldSyncStart <==> b is WorldSyncStart,
        a is WorldSyncEnd <==> b is WorldSyncEnd,
        a matches NettingMessageKind::NakedLogString(s) ==> b == NettingMessageKind::<
            V,
            A,
        >::NakedLogString(s),
        a is DroppedConnection ==> b is DroppedConnection && a->client_id == b->client_id,
        a matches NettingMessageKind::User(u) ==> b == NettingMessageKind::<V, A>::User(u),
        a matches NettingMessageKind::FrameSync(f) ==> b == NettingMessageKind::<V, A>::FrameSync(
            f,
        ),
{
}

} // verus!
