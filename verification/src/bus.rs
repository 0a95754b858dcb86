//! The bus: what an inbound message asks of the rest of the client.

use vstd::prelude::*;

use crate::netting::client_id::ClientId;
use crate::netting::client_map::ClientMap;
use crate::netting::message::{InboundNettingMessage, NettingMessageKind};
use crate::simulation::{SnapshotWorldState, SynchronizedSimulatable};

verus! {

/// What is to be done about a message. The things to do about one message are
/// done in order.
pub enum BusAction<W, A> {
    /// Print a line of a peer's log.
    Print(String),
    /// Take a snapshot of the simulation and send its newer world to a peer.
    SendWorldTo(ClientId),
    /// Go on from another world.
    ResetWorld(Box<W>),
    /// Be at a frame now.
    Jump(u64),
    /// Start the simulation where it is paused.
    Run,
    /// Take an action in.
    Act(A),
    /// Note how far a peer has come, and whether it is the first time.
    Sync { peer: ClientId, frame: u64, first: bool },
}

/// The frames that peers reported last.
pub open spec fn frames_after<W, A>(
    frames: Map<ClientId, u64>,
    inbound: InboundNettingMessage<W, A>,
) -> Map<ClientId, u64> {
    match inbound.msg.kind {
        NettingMessageKind::FrameSync(frame) => if is_news(frames, inbound.sender_id, frame) {
            frames.insert(inbound.sender_id, frame)
        } else {
            frames
        },
        _ => frames,
    }
}

/// Whether a reported frame goes beyond what the peer reported before.
pub open spec fn is_news(frames: Map<ClientId, u64>, peer: ClientId, frame: u64) -> bool {
    !frames.dom().contains(peer) || frames[peer] < frame
}

/// What a message asks for. A world is sent only by a client whose simulation
/// runs, so that a client that just joined has one world to take.
pub open spec fn asked_by<W: SynchronizedSimulatable<A>, A>(
    frames: Map<ClientId, u64>,
    inbound: InboundNettingMessage<W, A>,
    sim_running: bool,
) -> Seq<BusAction<W, A>> {
    match inbound.msg.kind {
        NettingMessageKind::NakedLogString(log) => seq![BusAction::Print(log)],
        NettingMessageKind::NewConnection => if sim_running {
            seq![BusAction::SendWorldTo(inbound.sender_id)]
        } else {
            Seq::empty()
        },
        NettingMessageKind::WorldTransfer(w) => seq![
            BusAction::ResetWorld(w),
            BusAction::Jump(w.frame()),
            BusAction::Run,
        ],
        NettingMessageKind::User(ua) => seq![BusAction::Act(ua)],
        NettingMessageKind::FrameSync(frame) => if is_news(frames, inbound.sender_id, frame) {
            seq![
                BusAction::Sync {
                    peer: inbound.sender_id,
                    frame,
                    first: !frames.dom().contains(inbound.sender_id),
                },
            ]
        } else {
            Seq::empty()
        },
        _ => Seq::empty(),
    }
}

/// A frame that a peer reported is not news again, nor is any before it.
pub proof fn frames_are_news_once<W, A>(
    frames: Map<ClientId, u64>,
    inbound: InboundNettingMessage<W, A>,
    frame: u64,
    earlier: u64,
)
    requires
        inbound.msg.kind == NettingMessageKind::<W, A>::FrameSync(frame),
        earlier <= frame,
    ensures
        !is_news(frames_after(frames, inbound), inbound.sender_id, earlier),
{
}

/// The frame that a message reports; `None` where it is no report.
pub open spec fn reported_frame<W, A>(inbound: InboundNettingMessage<W, A>) -> Option<u64> {
    match inbound.msg.kind {
        NettingMessageKind::FrameSync(frame) => Some(frame),
        _ => None,
    }
}

/// The frames that peers reported last, after a run of messages.
pub open spec fn frames_after_all<W, A>(messages: Seq<InboundNettingMessage<W, A>>) -> Map<
    ClientId,
    u64,
>
    decreases messages.len(),
{
    if messages.len() == 0 {
        Map::empty()
    } else {
        frames_after(frames_after_all(messages.drop_last()), messages.last())
    }
}

/// Whether the message at an index reports a frame beyond every one that its
/// sender reported before it.
pub open spec fn exceeds_all_before<W, A>(
    messages: Seq<InboundNettingMessage<W, A>>,
    k: int,
) -> bool {
    &&& reported_frame(messages[k]) is Some
    &&& forall|j: int|
        0 <= j < k && (#[trigger] messages[j]).sender_id == messages[k].sender_id
            && reported_frame(messages[j]) is Some ==> reported_frame(messages[j])->0
            < reported_frame(messages[k])->0
}

/// Whether the sender of the message at an index reported a frame before it.
pub open spec fn has_reported_before<W, A>(
    messages: Seq<InboundNettingMessage<W, A>>,
    k: int,
) -> bool {
    exists|j: int|
        0 <= j < k && (#[trigger] messages[j]).sender_id == messages[k].sender_id
            && reported_frame(messages[j]) is Some
}

proof fn the_highest_frame_is_kept<W, A>(
    messages: Seq<InboundNettingMessage<W, A>>,
    peer: ClientId,
)
    ensures
        frames_after_all(messages).dom().contains(peer) <==> exists|j: int|
            0 <= j < messages.len() && (#[trigger] messages[j]).sender_id == peer
                && reported_frame(messages[j]) is Some,
        frames_after_all(messages).dom().contains(peer) ==> exists|j: int|
            0 <= j < messages.len() && (#[trigger] messages[j]).sender_id == peer
                && reported_frame(messages[j]) == Some(frames_after_all(messages)[peer]),
        forall|j: int|
            0 <= j < messages.len() && (#[trigger] messages[j]).sender_id == peer
                && reported_frame(messages[j]) is Some ==> reported_frame(messages[j])->0
                <= frames_after_all(messages)[peer],
    decreases messages.len(),
{
    if messages.len() > 0 {
        let init = messages.drop_last();
        let last = messages.last();
        the_highest_frame_is_kept(init, peer);
        assert(messages[messages.len() - 1] == last);
        assert(forall|j: int| 0 <= j < init.len() ==> init[j] == messages[j]);
        let kept = frames_after_all(init);
        if kept.dom().contains(peer) {
            let j = choose|j: int|
                0 <= j < init.len() && (#[trigger] init[j]).sender_id == peer && reported_frame(
                    init[j],
                ) == Some(kept[peer]);
            assert(messages[j].sender_id == peer);
        }
    }
}

/// Over a run of messages, a report is passed on exactly where it exceeds every
/// earlier one of its sender, whatever other peers report in between.
pub proof fn reports_are_passed_on_where_they_exceed<W: SynchronizedSimulatable<A>, A>(
    messages: Seq<InboundNettingMessage<W, A>>,
    k: int,
    frame: u64,
    sim_running: bool,
)
    requires
        0 <= k < messages.len(),
        reported_frame(messages[k]) == Some(frame),
    ensures
        asked_by(frames_after_all(messages.take(k)), messages[k], sim_running) == (
        if exceeds_all_before(messages, k) {
            seq![
                BusAction::<W, A>::Sync {
                    peer: messages[k].sender_id,
                    frame,
                    first: !has_reported_before(messages, k),
                },
            ]
        } else {
            Seq::empty()
        }),
{
    let before = messages.take(k);
    let peer = messages[k].sender_id;
    the_highest_frame_is_kept(before, peer);
    assert(forall|j: int| 0 <= j < k ==> before[j] == messages[j]);
    let kept = frames_after_all(before);
    if kept.dom().contains(peer) {
        let j = choose|j: int|
            0 <= j < before.len() && (#[trigger] before[j]).sender_id == peer && reported_frame(
                before[j],
            ) == Some(kept[peer]);
        assert(messages[j].sender_id == peer);
    }
    if has_reported_before(messages, k) {
        let j = choose|j: int|
            0 <= j < k && (#[trigger] messages[j]).sender_id == peer && reported_frame(
                messages[j],
            ) is Some;
        assert(before[j].sender_id == peer);
    }
    assert(is_news(kept, peer, frame) <==> exceeds_all_before(messages, k)) by {
        if is_news(kept, peer, frame) {
            assert forall|j: int|
                0 <= j < k && (#[trigger] messages[j]).sender_id == peer && reported_frame(
                    messages[j],
                ) is Some implies reported_frame(messages[j])->0 < frame by {
                assert(before[j].sender_id == peer);
            }
        }
    }
}

/// The frames of one peer that are passed on rise.
pub proof fn passed_on_frames_rise<W, A>(
    messages: Seq<InboundNettingMessage<W, A>>,
    j: int,
    k: int,
)
    requires
        0 <= j < k < messages.len(),
        messages[j].sender_id == messages[k].sender_id,
        exceeds_all_before(messages, j),
        exceeds_all_before(messages, k),
    ensures
        reported_frame(messages[j])->0 < reported_frame(messages[k])->0,
{
}

/// The bus keeps what peers reported last, so that nothing is passed on twice.
pub struct Bus {
    pub framesync_records: ClientMap<u64>,
}

impl Bus {
    /// Nobody has reported yet.
    pub fn init() -> (bus: Self)
        ensures
            bus.framesync_records.wf(),
            bus.framesync_records@ == Map::<ClientId, u64>::empty(),
    {
        Bus { framesync_records: ClientMap::new() }
    }

    /// A message comes in.
    pub fn on_message<W: SynchronizedSimulatable<A>, A>(
        &mut self,
        inbound: InboundNettingMessage<W, A>,
        sim_running: bool,
    ) -> (actions: Vec<BusAction<W, A>>)
        requires
            old(self).framesync_records.wf(),
        ensures
            final(self).framesync_records.wf(),
            final(self).framesync_records@ == frames_after(old(self).framesync_records@, inbound),
            actions@ == asked_by(old(self).framesync_records@, inbound, sim_running),
    {
        let ghost frames = self.framesync_records@;
        let ghost whole = inbound;
        let mut actions: Vec<BusAction<W, A>> = Vec::new();
        match inbound.msg.kind {
            NettingMessageKind::NakedLogString(log) => {
                actions.push(BusAction::Print(log));
            },
            NettingMessageKind::NewConnection => {
                if sim_running {
                    actions.push(BusAction::SendWorldTo(inbound.sender_id));
                }
            },
            NettingMessageKind::WorldTransfer(w) => {
                let frame = w.generation();
                actions.push(BusAction::ResetWorld(w));
                actions.push(BusAction::Jump(frame));
                actions.push(BusAction::Run);
            },
            NettingMessageKind::User(ua) => {
                actions.push(BusAction::Act(ua));
            },
            NettingMessageKind::FrameSync(frame) => {
                let first = match self.framesync_records.find(inbound.sender_id) {
                    Some(i) => {
                        if self.framesync_records.rows[i].1 >= frame {
                            return actions;
                        }
                        false
                    },
                    None => true,
                };
                self.framesync_records.insert(inbound.sender_id, frame);
                actions.push(BusAction::Sync { peer: inbound.sender_id, frame, first });
            },
            NettingMessageKind::Noop => {},
            NettingMessageKind::Handshake => {},
            NettingMessageKind::DroppedConnection { client_id: _ } => {},
            NettingMessageKind::WorldSyncStart => {},
            NettingMessageKind::WorldSyncEnd => {},
        }
        assert(actions@ =~= asked_by(frames, whole, sim_running));
        actions
    }
}

/// The message that hands a snapshot's newer world to a peer.
pub fn world_transfer<W, A>(snapshot: SnapshotWorldState<W>) -> (kind: NettingMessageKind<W, A>)
    ensures
        kind == NettingMessageKind::<W, A>::WorldTransfer(Box::new(snapshot.next)),
{
    NettingMessageKind::WorldTransfer(Box::new(snapshot.next))
}

/// Only a new connection is answered by whether the simulation runs; every
/// other message asks for the same either way.
pub proof fn only_a_new_connection_asks_whether_it_runs<W: SynchronizedSimulatable<A>, A>(
    frames: Map<ClientId, u64>,
    inbound: InboundNettingMessage<W, A>,
)
    ensures
        !(inbound.msg.kind is NewConnection) ==> asked_by(frames, inbound, true) == asked_by(
            frames,
            inbound,
            false,
        ),
        inbound.msg.kind is NewConnection ==> asked_by(frames, inbound, true) == seq![
            BusAction::<W, A>::SendWorldTo(inbound.sender_id),
        ],
        inbound.msg.kind is NewConnection ==> asked_by(frames, inbound, false).len() == 0,
{
}

/// A world that came in replaces this client's, the simulation jumps to that
/// world's frame and runs, in that order and whether it ran before or not.
pub proof fn every_world_is_taken_over<W: SynchronizedSimulatable<A>, A>(
    frames: Map<ClientId, u64>,
    inbound: InboundNettingMessage<W, A>,
    world: Box<W>,
    sim_running: bool,
)
    requires
        inbound.msg.kind == NettingMessageKind::<W, A>::WorldTransfer(world),
    ensures
        asked_by(frames, inbound, sim_running).len() == 3,
        asked_by(frames, inbound, sim_running)[0] == BusAction::<W, A>::ResetWorld(world),
        asked_by(frames, inbound, sim_running)[1] == BusAction::<W, A>::Jump(world.frame()),
        asked_by(frames, inbound, sim_running)[2] == BusAction::<W, A>::Run,
        frames_after(frames, inbound) == frames,
{
}

/// An action of a user is taken in once, and a line of a log is printed once,
/// whether the simulation runs or not.
pub proof fn every_action_and_line_is_passed_on<W: SynchronizedSimulatable<A>, A>(
    frames: Map<ClientId, u64>,
    inbound: InboundNettingMessage<W, A>,
    sim_running: bool,
)
    ensures
        inbound.msg.kind matches NettingMessageKind::User(action) ==> asked_by(
            frames,
            inbound,
            sim_running,
        ) == seq![BusAction::<W, A>::Act(action)],
        inbound.msg.kind matches NettingMessageKind::NakedLogString(line) ==> asked_by(
            frames,
            inbound,
            sim_running,
        ) == seq![BusAction::<W, A>::Print(line)],
        inbound.msg.kind is Noop || inbound.msg.kind is Handshake
            || inbound.msg.kind is DroppedConnection || inbound.msg.kind is WorldSyncStart
            || inbound.msg.kind is WorldSyncEnd ==> asked_by(frames, inbound, sim_running).len()
            == 0,
        !(inbound.msg.kind is FrameSync) ==> frames_after(frames, inbound) == frames,
{
}

/// A frame that goes beyond a peer's last one, or is its first, is passed on
/// and kept; one that does not is neither. Other peers' frames stay.
pub proof fn a_frame_beyond_the_last_is_passed_on<W: SynchronizedSimulatable<A>, A>(
    frames: Map<ClientId, u64>,
    inbound: InboundNettingMessage<W, A>,
    frame: u64,
    sim_running: bool,
)
    requires
        inbound.msg.kind == NettingMessageKind::<W, A>::FrameSync(frame),
    ensures
        !frames.dom().contains(inbound.sender_id) ==> asked_by(frames, inbound, sim_running)
            == seq![
            BusAction::<W, A>::Sync { peer: inbound.sender_id, frame, first: true },
        ] && frames_after(frames, inbound) == frames.insert(inbound.sender_id, frame),
        frames.dom().contains(inbound.sender_id) && frame > frames[inbound.sender_id] ==> asked_by(
            frames,
            inbound,
            sim_running,
        ) == seq![
            BusAction::<W, A>::Sync { peer: inbound.sender_id, frame, first: false },
        ] && frames_after(frames, inbound) == frames.insert(inbound.sender_id, frame),
        frames.dom().contains(inbound.sender_id) && frame <= frames[inbound.sender_id] ==> asked_by(
            frames,
            inbound,
            sim_running,
        ).len() == 0 && frames_after(frames, inbound) == frames,
{
}

} // verus!
