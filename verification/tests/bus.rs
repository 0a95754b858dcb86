use glia::bus::{world_transfer, Bus, BusAction};
use glia::netting::client_id::ClientId;
use glia::netting::message::{InboundNettingMessage, NettingMessageKind};
use glia::simulation::{SnapshotWorldState, UserAction};
use glia::world::World;

type Act = UserAction<u32>;
type Kind = NettingMessageKind<World, Act>;

fn id(last: u8) -> ClientId {
    ClientId::from_bytes(&[0, 0, 0, 0, 0, 0, 0, 0, last]).unwrap()
}

fn from(sender: u8, kind: Kind) -> InboundNettingMessage<World, Act> {
    kind.with_id(1).to_inbound(id(sender))
}

fn act(payload: u32) -> Act {
    UserAction { sim_time: 3, sender: id(1), kind: glia::simulation::UserActionKind { payload } }
}

#[test]
fn quiet_messages_ask_for_nothing() {
    let mut bus = Bus::init();
    assert!(bus.on_message(from(1, Kind::Noop), true).is_empty());
    assert!(bus.on_message(from(1, Kind::Handshake), true).is_empty());
    assert!(bus.on_message(from(1, Kind::WorldSyncStart), true).is_empty());
    assert!(bus.on_message(from(1, Kind::WorldSyncEnd), true).is_empty());
    assert!(bus.on_message(from(1, Kind::DroppedConnection { client_id: id(4) }), true).is_empty());
}

#[test]
fn a_log_is_printed() {
    let mut bus = Bus::init();
    let actions = bus.on_message(from(1, Kind::NakedLogString("hey".to_string())), false);
    assert!(matches!(&actions[..], [BusAction::Print(s)] if s == "hey"));
}

#[test]
fn a_running_client_shares_its_world() {
    let mut bus = Bus::init();
    let actions = bus.on_message(from(7, Kind::NewConnection), true);
    assert!(matches!(&actions[..], [BusAction::SendWorldTo(peer)] if *peer == id(7)));
    assert!(bus.on_message(from(7, Kind::NewConnection), false).is_empty());
}

#[test]
fn a_world_is_taken_over_in_order() {
    let mut bus = Bus::init();
    let w = World { generation: 33, ..World::default() };
    let actions = bus.on_message(from(1, Kind::WorldTransfer(Box::new(w))), false);
    assert_eq!(actions.len(), 3);
    assert!(matches!(&actions[0], BusAction::ResetWorld(w) if w.generation == 33));
    assert!(matches!(actions[1], BusAction::Jump(33)));
    assert!(matches!(actions[2], BusAction::Run));
}

#[test]
fn an_action_is_passed_on() {
    let mut bus = Bus::init();
    let actions = bus.on_message(from(1, Kind::User(act(5))), false);
    assert!(matches!(&actions[..], [BusAction::Act(a)] if a.kind.payload == 5));
}

#[test]
fn only_news_of_frames_is_passed_on() {
    let mut bus = Bus::init();
    let first = bus.on_message(from(1, Kind::FrameSync(10)), true);
    assert!(matches!(first[..], [BusAction::Sync { peer, frame: 10, first: true }] if peer == id(1)));
    assert!(bus.on_message(from(1, Kind::FrameSync(10)), true).is_empty());
    assert!(bus.on_message(from(1, Kind::FrameSync(9)), true).is_empty());
    let next = bus.on_message(from(1, Kind::FrameSync(11)), true);
    assert!(matches!(next[..], [BusAction::Sync { frame: 11, first: false, .. }]));
    let other = bus.on_message(from(2, Kind::FrameSync(3)), true);
    assert!(matches!(other[..], [BusAction::Sync { frame: 3, first: true, .. }]));
    let last = bus.on_message(from(2, Kind::FrameSync(u64::MAX)), true);
    assert!(matches!(last[..], [BusAction::Sync { frame: u64::MAX, first: false, .. }]));
}

#[test]
fn the_newer_world_is_transferred() {
    let snapshot = SnapshotWorldState {
        prev: World { generation: 1, ..World::default() },
        next: World { generation: 2, ..World::default() },
        interpolation_point: 0,
    };
    match world_transfer::<World, Act>(snapshot) {
        NettingMessageKind::WorldTransfer(w) => assert_eq!(w.generation, 2),
        _ => panic!("a transfer"),
    }
}

#[test]
fn frames_that_are_passed_on_rise_for_each_peer() {
    let mut bus = Bus::init();
    let run = [(1u8, 5u64), (2, 9), (1, 5), (1, 7), (2, 3), (1, 6), (2, 10), (1, 8)];
    let mut passed = vec![];
    for (sender, frame) in run {
        for action in bus.on_message(from(sender, Kind::FrameSync(frame)), true) {
            if let BusAction::Sync { peer, frame, first } = action {
                passed.push((peer == id(1), frame, first));
            }
        }
    }
    assert_eq!(
        passed,
        vec![
            (true, 5, true),
            (false, 9, true),
            (true, 7, false),
            (false, 10, false),
            (true, 8, false),
        ]
    );
}
