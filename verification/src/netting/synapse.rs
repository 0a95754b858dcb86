//! Synapse transmissions: the datagram layer under the netting messages.

use vstd::prelude::*;

use super::client_id::{ClientId, PeerAddr};
use crate::wire;

verus! {

/// What a datagram is for.
#[derive(Debug, Copy, Clone, PartialEq, Eq, Structural, Hash)]
pub enum SynapseTransmissionKind {
    HandshakeInitiate,
    HandshakeResponse,
    Ack,
    KnownPacket,
    PeerDiscovery,
}

impl SynapseTransmissionKind {
    /// The kind's number, in the top three bits of a datagram's first byte.
    pub open spec fn number(self) -> int {
        match self {
            SynapseTransmissionKind::HandshakeInitiate => 0,
            SynapseTransmissionKind::HandshakeResponse => 1,
            SynapseTransmissionKind::Ack => 2,
            SynapseTransmissionKind::KnownPacket => 3,
            SynapseTransmissionKind::PeerDiscovery => 4,
        }
    }

    /// The kind that the top three bits of `byte` stand for.
    ///
    /// The numbers five to seven stand for no kind.
    pub fn from_discriminant(byte: u8) -> (kind: Self)
        requires
            byte / 32 <= 4,
        ensures
            kind.number() == byte / 32,
    {
        assert(byte >> 5 == byte / 32) by (bit_vector);
        match byte >> 5 {
            0 => SynapseTransmissionKind::HandshakeInitiate,
            1 => SynapseTransmissionKind::HandshakeResponse,
            2 => SynapseTransmissionKind::Ack,
            3 => SynapseTransmissionKind::KnownPacket,
            _ => SynapseTransmissionKind::PeerDiscovery,
        }
    }

    /// The byte that announces the kind, its reserved bits zero.
    pub fn to_discriminant(&self) -> (byte: u8)
        ensures
            byte == self.number() * 32,
    {
        let base: u8 = match self {
            SynapseTransmissionKind::HandshakeInitiate => 0,
            SynapseTransmissionKind::HandshakeResponse => 1,
            SynapseTransmissionKind::Ack => 2,
            SynapseTransmissionKind::KnownPacket => 3,
            SynapseTransmissionKind::PeerDiscovery => 4,
        };
        assert(base <= 4 ==> base << 5 == base * 32) by (bit_vector);
        base << 5
    }

    /// Reading the byte of a kind gives the kind, whatever the reserved bits
    /// hold, and a kind is known by its number.
    pub proof fn discriminant_names_kind(kind: Self, other: Self, reserved: int)
        requires
            0 <= reserved < 32,
        ensures
            (kind.number() * 32 + reserved) / 32 == kind.number(),
            kind.number() == other.number() ==> kind == other,
    {
    }
}

/// Whether transmissions of a kind are sealed.
pub open spec fn sealed_kind(kind: SynapseTransmissionKind) -> bool {
    kind is KnownPacket || kind is PeerDiscovery
}

/// A datagram, taken apart.
#[derive(Debug)]
pub struct SynapseTransmission {
    pub kind: SynapseTransmissionKind,
    pub transmission_number: usize,
    pub bytes: Vec<u8>,
}

impl SynapseTransmission {
    /// Whether a datagram can be taken apart: its first byte names a kind, and
    /// every kind but an acknowledgement carries a transmission number.
    pub open spec fn well_formed(datagram: Seq<u8>) -> bool {
        &&& datagram.len() >= 1
        &&& datagram[0] / 32 <= 4
        &&& datagram[0] / 32 == 2 || datagram.len() >= 2
    }

    /// The transmission number of a datagram, zero where it is cut off.
    pub open spec fn number_of(datagram: Seq<u8>) -> int {
        if datagram.len() > 1 {
            datagram[1] as int
        } else {
            0
        }
    }

    /// What a datagram carries after its two leading bytes; an
    /// acknowledgement carries nothing.
    pub open spec fn payload_of(datagram: Seq<u8>) -> Seq<u8> {
        if datagram[0] / 32 == 2 {
            Seq::empty()
        } else {
            datagram.subrange(2, datagram.len() as int)
        }
    }

    /// Whether `parse_datagram` takes the datagram.
    pub fn is_well_formed(datagram: &[u8]) -> (ok: bool)
        ensures
            ok == Self::well_formed(datagram@),
    {
        if datagram.len() == 0 || datagram[0] / 32 > 4 {
            return false;
        }
        datagram[0] / 32 == 2 || datagram.len() >= 2
    }

    /// Takes a datagram apart.
    ///
    /// ```text
    /// [   3 bits   ][  5 bits  ][     1 byte     ][ remainder ]
    /// [discriminant][ reserved ][ transmission # ][  message  ]
    /// ```
    pub fn parse_datagram(datagram: &[u8]) -> (st: Self)
        requires
            Self::well_formed(datagram@),
        ensures
            st.kind.number() == datagram@[0] / 32,
            st.transmission_number == Self::number_of(datagram@),
            st.transmission_number < 256,
            st.bytes@ == Self::payload_of(datagram@),
    {
        let kind = SynapseTransmissionKind::from_discriminant(datagram[0]);
        let transmission_number: usize = if datagram.len() > 1 {
            datagram[1] as usize
        } else {
            0
        };
        let bytes = match kind {
            SynapseTransmissionKind::Ack => Vec::new(),
            _ => wire::copy_range(datagram, 2, datagram.len()),
        };
        SynapseTransmission { kind, transmission_number, bytes }
    }
}

/// What is to be sent.
#[derive(Debug)]
pub enum OutboundSynapseTransmissionKind {
    HandshakeInitiate(PeerAddr),
    HandshakeResponse,
    Ack { transmission_number: usize },
    KnownPacket,
    PeerDiscovery,
}

impl OutboundSynapseTransmissionKind {
    /// The kind that the receiver sees.
    pub open spec fn seen_as(self) -> SynapseTransmissionKind {
        match self {
            OutboundSynapseTransmissionKind::HandshakeInitiate(_) =>
                SynapseTransmissionKind::HandshakeInitiate,
            OutboundSynapseTransmissionKind::HandshakeResponse =>
                SynapseTransmissionKind::HandshakeResponse,
            OutboundSynapseTransmissionKind::Ack { .. } => SynapseTransmissionKind::Ack,
            OutboundSynapseTransmissionKind::KnownPacket => SynapseTransmissionKind::KnownPacket,
            OutboundSynapseTransmissionKind::PeerDiscovery =>
                SynapseTransmissionKind::PeerDiscovery,
        }
    }

    /// Whether the transmission is sealed on its way.
    pub fn is_sealed(&self) -> (sealed: bool)
        ensures
            sealed == sealed_kind(self.seen_as()),
    {
        match self {
            OutboundSynapseTransmissionKind::KnownPacket => true,
            OutboundSynapseTransmissionKind::PeerDiscovery => true,
            _ => false,
        }
    }

    /// The byte that announces the transmission.
    pub fn to_discriminant(&self) -> (byte: u8)
        ensures
            byte == self.seen_as().number() * 32,
    {
        match self {
            OutboundSynapseTransmissionKind::HandshakeInitiate(_) => 0,
            OutboundSynapseTransmissionKind::HandshakeResponse => 32,
            OutboundSynapseTransmissionKind::Ack { .. } => 64,
            OutboundSynapseTransmissionKind::KnownPacket => 96,
            OutboundSynapseTransmissionKind::PeerDiscovery => 128,
        }
    }
}

/// A transmission to be sent, and the client it is meant for.
#[derive(Debug)]
pub struct OutboundSynapseTransmission {
    pub kind: OutboundSynapseTransmissionKind,
    pub bytes: Vec<u8>,
    pub maybe_target: Option<ClientId>,
}

impl OutboundSynapseTransmission {
    /// The transmission that opens a connection to `addr`.
    pub fn handshake_to(addr: PeerAddr) -> (osynt: Self)
        ensures
            osynt.kind == OutboundSynapseTransmissionKind::HandshakeInitiate(addr),
            osynt.bytes@ == Seq::<u8>::empty(),
            osynt.maybe_target is None,
    {
        OutboundSynapseTransmission {
            kind: OutboundSynapseTransmissionKind::HandshakeInitiate(addr),
            bytes: Vec::new(),
            maybe_target: None,
        }
    }
}

/// Decrypted bytes, with the peer that they came from.
pub struct AttributedInboundBytes {
    pub decrypted_bytes: Vec<u8>,
    pub addr: PeerAddr,
    pub client_id: ClientId,
}

/// The two bytes that acknowledge a transmission.
pub open spec fn ack_bytes(transmission_number: usize) -> Seq<u8> {
    seq![64u8, (transmission_number % 256) as u8]
}

/// The datagram that acknowledges a transmission.
pub fn ack_datagram(transmission_number: usize) -> (datagram: Vec<u8>)
    ensures
        datagram@ == ack_bytes(transmission_number),
{
    let mut datagram: Vec<u8> = Vec::new();
    datagram.push(OutboundSynapseTransmissionKind::Ack { transmission_number }.to_discriminant());
    datagram.push((transmission_number % 256) as u8);
    assert(datagram@ =~= ack_bytes(transmission_number));
    datagram
}

/// An acknowledgement is read as one, for the number it was made for.
pub proof fn ack_is_read_back(transmission_number: usize)
    requires
        transmission_number < 256,
    ensures
        SynapseTransmission::well_formed(ack_bytes(transmission_number)),
        ack_bytes(transmission_number)[0] / 32 == SynapseTransmissionKind::Ack.number(),
        SynapseTransmission::number_of(ack_bytes(transmission_number)) == transmission_number,
        SynapseTransmission::payload_of(ack_bytes(transmission_number)) == Seq::<u8>::empty(),
{
}

/// A datagram of a kind, whatever its reserved bits, its number and what it
/// carries, is taken apart into them. Only an acknowledgement carries nothing,
/// and only it can be without its number, which is then zero.
pub proof fn a_datagram_is_taken_apart(
    kind: SynapseTransmissionKind,
    reserved: u8,
    number: u8,
    rest: Seq<u8>,
)
    requires
        reserved < 32,
    ensures
        ({
            let first = (kind.number() * 32 + reserved) as u8;
            let datagram = seq![first, number] + rest;
            &&& first == kind.number() * 32 + reserved
            &&& SynapseTransmission::well_formed(datagram)
            &&& datagram[0] / 32 == kind.number()
            &&& SynapseTransmission::number_of(datagram) == number
            &&& SynapseTransmission::payload_of(datagram) == (if kind is Ack {
                Seq::<u8>::empty()
            } else {
                rest
            })
            &&& SynapseTransmission::well_formed(seq![first]) <==> kind is Ack
            &&& SynapseTransmission::number_of(seq![first]) == 0
        }),
        SynapseTransmission::well_formed(rest) <==> (rest.len() >= 2 && rest[0] < 160) || (
        rest.len() == 1 && 64 <= rest[0] < 96),
{
    let first = (kind.number() * 32 + reserved) as u8;
    let datagram = seq![first, number] + rest;
    assert(datagram.len() == 2 + rest.len());
    assert(datagram.subrange(2, datagram.len() as int) =~= rest);
}

/// The kinds are numbered as they are listed: openings, answers,
/// acknowledgements, packets of known peers and peer discovery. The last two
/// alone are sealed.
pub proof fn kinds_have_their_numbers(kind: SynapseTransmissionKind)
    ensures
        kind.number() == 0 <==> kind is HandshakeInitiate,
        kind.number() == 1 <==> kind is HandshakeResponse,
        kind.number() == 2 <==> kind is Ack,
        kind.number() == 3 <==> kind is KnownPacket,
        kind.number() == 4 <==> kind is PeerDiscovery,
        sealed_kind(kind) <==> kind.number() >= 3,
{
}

/// What is to be sent is seen by the receiver as what it is.
pub proof fn transmissions_are_seen_as_what_they_are(kind: OutboundSynapseTransmissionKind)
    ensures
        kind is HandshakeInitiate <==> kind.seen_as() is HandshakeInitiate,
        kind is HandshakeResponse <==> kind.seen_as() is HandshakeResponse,
        kind is Ack <==> kind.seen_as() is Ack,
        kind is KnownPacket <==> kind.seen_as() is KnownPacket,
        kind is PeerDiscovery <==> kind.seen_as() is PeerDiscovery,
{
}

/// An acknowledgement is two bytes: the mark of its kind, and the number.
pub proof fn an_acknowledgement_is_two_bytes(number: usize)
    requires
        number < 256,
    ensures
        ack_bytes(number) == seq![64u8, number as u8],
{
}

} // verus!
