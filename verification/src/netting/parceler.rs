//! Breaks messages apart into transmissions.

use vstd::prelude::*;

use super::client_id::ClientId;
use super::message::{
    fits_packets, kind_bytes, packet, packet_count, packets_are_cut_at_full_length, NettingMessage,
};
use super::outbox::Outbox;
use super::synapse::{OutboundSynapseTransmission, OutboundSynapseTransmissionKind};
use crate::wire::be_bytes;

verus! {

/// Whether `osynt` is packet `i` of the message with the given payload.
pub open spec fn carries_packet(
    osynt: OutboundSynapseTransmission,
    message_id: u64,
    payload: Seq<u8>,
    i: int,
    target: Option<ClientId>,
) -> bool {
    &&& osynt.kind == OutboundSynapseTransmissionKind::KnownPacket
    &&& osynt.bytes@ == packet(message_id, payload, i)
    &&& osynt.maybe_target == target
}

/// The parceler's state: the transmissions that are still to be sent.
pub struct Parceler {
    pub unsent: Outbox<OutboundSynapseTransmission>,
}

impl Parceler {
    /// A parceler with nothing to send.
    pub fn init() -> (p: Self)
        ensures
            p.unsent@ == Seq::<OutboundSynapseTransmission>::empty(),
    {
        Parceler { unsent: Outbox::new() }
    }

    /// Queues the packets of a message, in order, behind what is unsent.
    pub fn parcel<A>(&mut self, msg: NettingMessage<Vec<u8>, A>, target: Option<ClientId>)
        requires
            fits_packets(kind_bytes(msg.kind@).len()),
        ensures
            final(self).unsent@.len() == old(self).unsent@.len() + packet_count(
                kind_bytes(msg.kind@).len(),
            ),
            final(self).unsent@.subrange(0, old(self).unsent@.len() as int) == old(self).unsent@,
            forall|i: int|
                0 <= i < packet_count(kind_bytes(msg.kind@).len()) ==> carries_packet(
                    #[trigger] final(self).unsent@[old(self).unsent@.len() + i],
                    msg.message_id,
                    kind_bytes(msg.kind@),
                    i,
                    target,
                ),
    {
        let ghost before = self.unsent@;
        let ghost payload = kind_bytes(msg.kind@);
        let ghost message_id = msg.message_id;
        let packets = msg.into_known_packet_bytes();
        let ghost all = packets@;
        let mut rest = packets;
        let mut queued: Vec<Vec<u8>> = Vec::new();
        // Reversed, so that the packets can be taken off the end in order.
        while rest.len() > 0
            invariant
                rest@.len() + queued@.len() == all.len(),
                rest@ == all.subrange(0, rest@.len() as int),
                forall|i: int| 0 <= i < queued@.len() ==> queued@[i] == all[all.len() - 1 - i],
            decreases rest@.len(),
        {
            let last = rest.pop().unwrap();
            queued.push(last);
            assert(rest@ =~= all.subrange(0, rest@.len() as int));
        }
        while queued.len() > 0
            invariant
                queued@.len() <= all.len(),
                all.len() == packet_count(payload.len()),
                forall|i: int|
                    0 <= i < all.len() ==> (#[trigger] all[i])@ == packet(message_id, payload, i),
                forall|i: int| 0 <= i < queued@.len() ==> queued@[i] == all[all.len() - 1 - i],
                self.unsent@.len() == before.len() + (all.len() - queued@.len()),
                self.unsent@.subrange(0, before.len() as int) == before,
                forall|i: int|
                    0 <= i < all.len() - queued@.len() ==> carries_packet(
                        #[trigger] self.unsent@[before.len() + i],
                        message_id,
                        payload,
                        i,
                        target,
                    ),
            decreases queued@.len(),
        {
            let ghost prior = self.unsent@;
            let ghost k = all.len() - queued@.len();
            let bytes = queued.pop().unwrap();
            assert(bytes == all[k]);
            self.unsent.push(
                OutboundSynapseTransmission {
                    kind: OutboundSynapseTransmissionKind::KnownPacket,
                    bytes,
                    maybe_target: target,
                },
            );
            assert(self.unsent@.subrange(0, before.len() as int) =~= before) by {
                assert(prior.subrange(0, before.len() as int) == before);
            }
            assert forall|i: int| 0 <= i < k + 1 implies carries_packet(
                #[trigger] self.unsent@[before.len() + i],
                message_id,
                payload,
                i,
                target,
            ) by {
                if i < k {
                    assert(self.unsent@[before.len() + i] == prior[before.len() + i]);
                }
            }
        }
    }
}

/// A transmission that carries a packet is one to a known peer, for the target
/// of the message, and its bytes open with the message's length and id and the
/// packet's place.
pub proof fn a_carried_packet_is_for_its_target(
    osynt: OutboundSynapseTransmission,
    message_id: u64,
    payload: Seq<u8>,
    i: int,
    target: Option<ClientId>,
)
    requires
        carries_packet(osynt, message_id, payload, i, target),
        payload.len() <= 8_351_250,
        0 <= i < packet_count(payload.len()),
    ensures
        osynt.kind is KnownPacket,
        osynt.maybe_target == target,
        osynt.bytes@.subrange(0, 8) == be_bytes(payload.len() as u64),
        osynt.bytes@.subrange(8, 16) == be_bytes(message_id),
        osynt.bytes@[16] == i,
        osynt.bytes@.skip(17) == payload.subrange(
            i * 32_750,
            if (i + 1) * 32_750 <= payload.len() {
                (i + 1) * 32_750
            } else {
                payload.len() as int
            },
        ),
{
    packets_are_cut_at_full_length(message_id, payload, i);
}

} // verus!
