use glia::clock::Timestamp;
use glia::netting::client_id::{ClientId, PeerAddr};
use glia::simulation::{
    placed_action, ActionIntake, GlobalizableAction, Simulation, SimulationTimeframeAttached,
    SynchronizedSimulatable, UserAction, UserActionKind, WorldStash,
};
use glia::world::{
    Connection, ControlFlow, Deck, GameStage, CombatMap, CombatMapCell, RelicCollection, Terrain, World,
};

type Act = UserAction<u32>;

fn id(last: u8) -> ClientId {
    ClientId::from_bytes(&[0, 0, 0, 0, 0, 0, 0, 0, last]).unwrap()
}

fn act(at: u64, sender: u8, payload: u32) -> Act {
    UserAction { sim_time: at, sender: id(sender), kind: UserActionKind { payload } }
}

fn world(generation: u64) -> World {
    World { generation, ..World::default() }
}

fn payloads(s: &WorldStash<World, Act>) -> Vec<u32> {
    s.historical_actions.iter().map(|a| a.kind.payload).collect()
}

fn generations(s: &WorldStash<World, Act>) -> Vec<u64> {
    s.historical_worlds.iter().map(|w| w.generation).collect()
}

/// A world that remembers what was done to it.
struct Journal {
    frame: u64,
    log: Vec<u32>,
}

impl SynchronizedSimulatable<Act> for Journal {
    fn frame(self) -> u64 {
        self.frame
    }

    fn can_advance(self) -> bool {
        self.frame < u64::MAX
    }

    fn advanced(self) -> Journal {
        self.advance()
    }

    fn executed(mut self, action: Act) -> Journal {
        self.execute(&action);
        self
    }

    fn same(self, other: Journal) -> bool {
        self.frame == other.frame && self.log == other.log
    }

    fn execute(&mut self, user_action: &Act) {
        self.log.push(user_action.kind.payload);
    }

    fn generation(&self) -> u64 {
        self.frame
    }

    fn advance(self) -> Journal {
        Journal { frame: self.frame + 1, log: self.log }
    }

    fn replica(&self) -> Journal {
        Journal { frame: self.frame, log: self.log.clone() }
    }
}

#[test]
fn an_action_gets_its_place() {
    let a = UserActionKind { payload: 7u32 }.globalize(5, id(2));
    assert_eq!(a.timeframe(), 5);
    assert!(a.rank_key() == (5, id(2)));
    assert_eq!(a.kind.payload, 7);
    assert!(a.timestamp().seconds > 1_500_000_000);
    let (own, is_own) = placed_action(ActionIntake::Local(UserActionKind { payload: 1u32 }), 9, id(3));
    assert!(is_own && own.sim_time == 9 && own.sender == id(3));
    let (other, is_own) =
        placed_action::<UserActionKind<u32>>(ActionIntake::Global(act(4, 1, 8)), 9, id(3));
    assert!(!is_own && other.sim_time == 4 && other.kind.payload == 8);
}

#[test]
fn a_stash_starts_with_one_world() {
    let s: WorldStash<World, Act> = WorldStash::new(world(5));
    assert_eq!(generations(&s), vec![5]);
    assert_eq!(s.max_generation, 5);
    assert_eq!(s.generation(), 5);
    assert_eq!(s.peek_earliest().unwrap().generation, 5);
    assert_eq!(s.peek_most_recent().unwrap().generation, 5);
    assert!(s.peek_most_recent_not_last().is_none());
    let snap = s.snapshot();
    assert_eq!((snap.prev.generation, snap.next.generation, snap.interpolation_point), (5, 5, 0));
}

#[test]
fn a_stash_keeps_three_hundred_worlds() {
    let mut s: WorldStash<World, Act> = WorldStash::new(world(0));
    for g in 1..400 {
        s.push_world(world(g));
    }
    assert_eq!(s.historical_worlds.len(), 300);
    assert_eq!(s.generation(), 100);
    assert_eq!(s.max_generation, 399);
    let snap = s.snapshot();
    assert_eq!((snap.prev.generation, snap.next.generation), (398, 399));
    assert_eq!(s.peek_most_recent_not_last().unwrap().generation, 399);
}

#[test]
fn actions_before_the_earliest_world_are_dropped() {
    let mut s: WorldStash<World, Act> = WorldStash::new(world(0));
    for g in 1..300 {
        s.push_world(world(g));
    }
    s.insert_recent_action(act(299, 1, 3));
    s.insert_recent_action(act(0, 1, 1));
    assert_eq!(generations(&s), vec![0]);
    assert_eq!(payloads(&s), vec![1, 3]);
    s.force_reset(world(298));
    assert_eq!(generations(&s), vec![298]);
    assert!(payloads(&s).is_empty());
    s.insert_recent_action(act(297, 1, 4));
    assert!(payloads(&s).is_empty());
    s.insert_recent_action(act(298, 1, 5));
    assert_eq!(payloads(&s), vec![5]);
    for g in 299..700 {
        s.push_world(world(g));
    }
    assert!(payloads(&s).is_empty());
}

#[test]
fn actions_are_ordered_by_frame_and_client() {
    let mut s: WorldStash<World, Act> = WorldStash::new(world(0));
    for a in [act(2, 1, 21), act(1, 2, 12), act(1, 1, 11), act(2, 1, 22), act(0, 9, 9)] {
        s.insert_recent_action(a);
    }
    assert_eq!(payloads(&s), vec![9, 11, 12, 21, 22]);
    let of_one: Vec<u32> = s.actions_for_generation(1).iter().map(|a| a.kind.payload).collect();
    assert_eq!(of_one, vec![11, 12]);
    assert!(s.actions_for_generation(7).is_empty());
}

#[test]
fn the_order_of_arrival_does_not_matter() {
    let mut orders = Vec::new();
    for order in [[0usize, 1, 2], [2, 1, 0], [1, 0, 2], [2, 0, 1]] {
        let all = [act(3, 1, 31), act(3, 2, 32), act(4, 1, 41)];
        let mut s: WorldStash<World, Act> = WorldStash::new(world(0));
        for i in order {
            s.insert_recent_action(all[i].clone());
        }
        orders.push(payloads(&s));
    }
    assert!(orders.iter().all(|o| *o == vec![31, 32, 41]));
}

#[test]
fn a_late_action_rewinds() {
    let mut s: WorldStash<World, Act> = WorldStash::new(world(10));
    for g in 11..20 {
        s.push_world(world(g));
    }
    s.insert_recent_action(act(15, 1, 1));
    assert_eq!(generations(&s), vec![10, 11, 12, 13, 14, 15]);
    assert_eq!(s.max_generation, 19);
    s.insert_recent_action(act(9, 1, 2));
    assert_eq!(payloads(&s), vec![1]);
    s.insert_recent_action(act(10, 1, 3));
    assert_eq!(generations(&s), vec![10]);
}

#[test]
fn a_step_executes_the_actions_of_its_frame() {
    let mut sim: Simulation<Journal, Act> =
        Simulation::init(Journal { frame: 4, log: vec![] }, id(1));
    sim.world_stash.insert_recent_action(act(4, 2, 42));
    sim.world_stash.insert_recent_action(act(4, 1, 41));
    sim.world_stash.insert_recent_action(act(5, 1, 51));
    assert_eq!(sim.step(), 5);
    assert_eq!(sim.world_stash.peek_most_recent().unwrap().log, vec![41, 42]);
    assert_eq!(sim.step(), 6);
    assert_eq!(sim.world_stash.peek_most_recent().unwrap().log, vec![41, 42, 51]);
    assert_eq!(sim.world_stash.peek_earliest().unwrap().log, Vec::<u32>::new());
}

#[test]
fn a_rewound_world_is_replayed_with_the_late_action() {
    let mut sim: Simulation<Journal, Act> =
        Simulation::init(Journal { frame: 0, log: vec![] }, id(1));
    for _ in 0..5 {
        sim.step();
    }
    sim.world_stash.insert_recent_action(act(2, 1, 7));
    assert_eq!(sim.step(), 3);
    assert_eq!(sim.world_stash.peek_most_recent().unwrap().log, vec![7]);
    assert_eq!(sim.step(), 4);
    assert_eq!(sim.world_stash.peek_most_recent().unwrap().log, vec![7]);
}

#[test]
fn a_simulation_runs_when_told() {
    let mut sim: Simulation<World, Act> = Simulation::init(World::default(), id(1));
    assert!(!sim.running);
    let now = Timestamp { seconds: 50, nanos: 0 };
    sim.on_wakeup(Some(false), &now);
    assert!(!sim.running);
    sim.on_wakeup(Some(true), &now);
    assert!(sim.running);
    assert_eq!(sim.target_sim_time, 50_000_000_000);
    sim.on_run_state(Some(true));
    sim.on_run_state(None);
    assert!(sim.running);
    sim.on_run_state(Some(false));
    assert!(!sim.running);
    sim.on_wakeup(None, &now);
    assert!(sim.running);
}

#[test]
fn frames_are_due_in_turn() {
    let mut sim: Simulation<World, Act> = Simulation::init(World::default(), id(1));
    let now = Timestamp { seconds: 50, nanos: 0 };
    sim.on_wakeup(Some(true), &now);
    assert_eq!(sim.wait_before_frame(&now), None);
    let frame = sim.step();
    assert_eq!(sim.finish_frame(frame, &now), None);
    assert_eq!(sim.wait_before_frame(&now), Some(8_000_000));
    sim.on_jump(None, &now);
    assert_eq!(sim.wait_before_frame(&now), Some(8_000_000));
    sim.on_jump(Some((Timestamp { seconds: 3, nanos: 1 }, 9)), &now);
    assert_eq!(sim.wait_before_frame(&now), None);
    assert_eq!(sim.target_sim_time, 50_000_000_000);
}

#[test]
fn a_slow_peer_delays_the_next_frame() {
    let mut sim: Simulation<World, Act> = Simulation::init(world(999), id(1));
    let now = Timestamp { seconds: 50, nanos: 0 };
    sim.on_wakeup(Some(true), &now);
    sim.framesync.record_framesync_at(id(2), 699, &now);
    let frame = sim.step();
    assert_eq!(frame, 1_000);
    assert_eq!(sim.finish_frame(frame, &now), Some(-160));
    assert_eq!(sim.wait_before_frame(&now), Some(168_000_000));
}

#[test]
fn a_world_goes_on_by_one() {
    let mut w = World::default();
    assert_eq!(w.generation, 0);
    assert!(w.stage.is_none() && w.characters.is_empty());
    assert_eq!(w.color, [0, 0, 0]);
    assert_eq!(w.tick(), ControlFlow::Continue);
    assert!(!w.waiting_for_input());
    <World as SynchronizedSimulatable<Act>>::execute(&mut w, &act(0, 1, 1));
    let w = <World as SynchronizedSimulatable<Act>>::advance(w);
    assert_eq!(<World as SynchronizedSimulatable<Act>>::generation(&w), 1);
}

#[test]
fn a_replica_is_the_same_world() {
    let cell = CombatMapCell { terrain: Terrain::Forest, occupant: Some(3) };
    let w = World {
        generation: 8,
        stage: Some(GameStage::Combat(CombatMap { cells: vec![vec![cell], vec![CombatMapCell::default(), cell]] })),
        characters: vec![],
        color: [1, 2, 3],
    };
    let r = <World as SynchronizedSimulatable<Act>>::replica(&w);
    assert_eq!(r.generation, 8);
    assert_eq!(r.color, [1, 2, 3]);
    let Some(GameStage::Combat(map)) = r.stage else { panic!("combat") };
    assert_eq!(map.cells, vec![vec![cell], vec![CombatMapCell { terrain: Terrain::Grass, occupant: None }, cell]]);
}

#[test]
fn defaults_are_empty() {
    let stash: WorldStash<World, Act> = WorldStash::default();
    assert!(stash.historical_worlds.is_empty() && stash.historical_actions.is_empty());
    assert_eq!((stash.max_generation, stash.generation()), (0, 0));
    let mut stash = stash;
    stash.insert_recent_action(act(4, 1, 44));
    stash.insert_recent_action(act(2, 1, 22));
    assert_eq!(payloads(&stash), vec![22, 44]);
    assert!(stash.historical_worlds.is_empty());
    assert_eq!(Terrain::default(), Terrain::Grass);
    assert!(CombatMap::default().cells.is_empty());
    let d = Deck::default();
    assert!(d.cards.is_empty() && d.draw.is_empty() && d.hand.is_empty() && d.discard.is_empty());
    let r = RelicCollection::default();
    assert!(r.active_relics.is_empty() && r.relics.is_empty());
}

#[test]
fn a_link_notes_where_it_starts() {
    let t = Timestamp { seconds: 4, nanos: 2 };
    let c = Connection::link_at(&world(12), t);
    assert_eq!((c.last_sync_generation, c.last_sync), (12, t));
    assert!(Connection::link_to(PeerAddr::V4 { bits: 1, port: 2 }, world(3)).last_sync.seconds > 1_500_000_000);
}

fn logs(s: &WorldStash<Journal, Act>) -> Vec<(u64, Vec<u32>)> {
    s.historical_worlds.iter().map(|w| (w.frame, w.log.clone())).collect()
}

#[test]
fn clients_agree_however_late_an_action_comes() {
    let start = || Simulation::init(Journal { frame: 10, log: vec![] }, id(1));
    let mut punctual: Simulation<Journal, Act> = start();
    let mut late: Simulation<Journal, Act> = start();
    for sim in [&mut punctual, &mut late] {
        sim.world_stash.insert_recent_action(act(10, 1, 100));
    }
    punctual.world_stash.insert_recent_action(act(11, 2, 112));
    punctual.world_stash.insert_recent_action(act(11, 1, 111));
    for _ in 0..4 {
        assert!(punctual.step() == late.step());
    }
    assert!(logs(&punctual.world_stash) != logs(&late.world_stash));
    late.world_stash.insert_recent_action(act(11, 1, 111));
    assert_eq!(logs(&late.world_stash).last().unwrap().0, 11);
    late.world_stash.insert_recent_action(act(11, 2, 112));
    for _ in 0..3 {
        late.step();
    }
    assert_eq!(logs(&punctual.world_stash), logs(&late.world_stash));
    assert_eq!(logs(&late.world_stash).last().unwrap(), &(14, vec![100, 111, 112]));
}

#[test]
fn resets_and_reports_are_absorbed() {
    let now = Timestamp { seconds: 1_700_000_000, nanos: 0 };
    let mut sim: Simulation<World, Act> = Simulation::init(world(3), id(1));
    assert_eq!(sim.absorb(vec![], &vec![(id(2), 4), (id(2), 9), (id(2), 7)], &now), 3);
    assert_eq!(generations(&sim.world_stash), vec![3]);
    assert_eq!(sim.framesync.calculate_delay_at(270, &now), Some(-80));
    assert_eq!(sim.absorb(vec![world(8), world(20)], &vec![], &now), 20);
    assert_eq!(generations(&sim.world_stash), vec![20]);
}
