//! The game world.

use std::collections::VecDeque;

use vstd::prelude::*;

use crate::clock::{self, Timestamp};
use crate::netting::client_id::PeerAddr;
use crate::simulation::{SynchronizedSimulatable, UserAction};

verus! {

/// The ground of a cell.
#[derive(Debug, Clone, Copy, PartialEq, Eq, Structural)]
pub enum Terrain {
    Grass,
    StoneTile,
    Stone,
    Forest,
}

impl Default for Terrain {
    fn default() -> (t: Self)
        ensures
            t == Terrain::Grass,
    {
        Terrain::Grass
    }
}

/// One cell of a combat map, and the character that stands on it.
#[derive(Debug, Clone, Copy, PartialEq, Eq, Structural)]
pub struct CombatMapCell {
    pub terrain: Terrain,
    pub occupant: Option<usize>,
}

impl Default for CombatMapCell {
    fn default() -> (cell: Self)
        ensures
            cell.terrain == Terrain::Grass,
            cell.occupant is None,
    {
        CombatMapCell { terrain: Terrain::default(), occupant: None }
    }
}

/// The map of a combat, by rows.
#[derive(Debug, Clone)]
pub struct CombatMap {
    pub cells: Vec<Vec<CombatMapCell>>,
}

impl Default for CombatMap {
    fn default() -> (map: Self)
        ensures
            map.cells@ == Seq::<Vec<CombatMapCell>>::empty(),
    {
        CombatMap { cells: Vec::new() }
    }
}

/// What a character does. There is nothing to do yet.
#[derive(Debug, Clone, Copy)]
pub enum Action {
    Never(core::convert::Infallible),
}

/// What the players are at.
#[derive(Debug, Clone)]
pub enum GameStage {
    Combat(CombatMap),
}

/// The kinds of enemies. There is none yet.
#[derive(Debug, Clone, Copy)]
pub enum EnemyKind {
    Never(core::convert::Infallible),
}

/// The kinds of players. There is none yet.
#[derive(Debug, Clone, Copy)]
pub enum PlayerKind {
    Never(core::convert::Infallible),
}

/// A character.
#[derive(Debug, Clone)]
pub enum Character {
    Player { name: String, kind: PlayerKind, relic_collection: RelicCollection, deck: Deck },
    Enemy { kind: EnemyKind, planned_action: Option<Action> },
}

/// The kinds of relics. There is none yet.
#[derive(Debug, Clone, Copy)]
pub enum RelicKind {
    Never(core::convert::Infallible),
}

/// A relic.
#[derive(Debug, Clone, Copy)]
pub struct Relic {
    pub kind: RelicKind,
    pub active: bool,
}

/// A player's relics.
#[derive(Debug, Clone)]
pub struct RelicCollection {
    pub active_relics: Vec<usize>,
    pub relics: Vec<Relic>,
}

impl Default for RelicCollection {
    fn default() -> (c: Self)
        ensures
            c.active_relics@ == Seq::<usize>::empty(),
            c.relics@ == Seq::<Relic>::empty(),
    {
        RelicCollection { active_relics: Vec::new(), relics: Vec::new() }
    }
}

/// The kinds of cards. There is none yet.
#[derive(Debug, Clone, Copy)]
pub enum Card {
    Never(core::convert::Infallible),
}

/// A player's cards, and which of them lie where.
#[derive(Debug, Clone)]
pub struct Deck {
    pub cards: Vec<Card>,
    pub draw: VecDeque<usize>,
    pub hand: VecDeque<usize>,
    pub discard: VecDeque<usize>,
}

impl Default for Deck {
    fn default() -> (d: Self)
        ensures
            d.cards@ == Seq::<Card>::empty(),
            d.draw@ == Seq::<usize>::empty(),
            d.hand@ == Seq::<usize>::empty(),
            d.discard@ == Seq::<usize>::empty(),
    {
        Deck {
            cards: Vec::new(),
            draw: VecDeque::new(),
            hand: VecDeque::new(),
            discard: VecDeque::new(),
        }
    }
}

/// The state of the game. The color holds the bits of three single-precision
/// channels.
#[derive(Debug, Clone)]
pub struct World {
    pub generation: u64,
    pub stage: Option<GameStage>,
    pub characters: Vec<Character>,
    pub color: [u32; 3],
}

impl Default for World {
    fn default() -> (w: Self)
        ensures
            w.generation == 0,
            w.stage is None,
            w.characters@ == Seq::<Character>::empty(),
            w.color@ == seq![0u32, 0u32, 0u32],
    {
        let w = World { generation: 0, stage: None, characters: Vec::new(), color: [0, 0, 0] };
        assert(w.color@ =~= seq![0u32, 0u32, 0u32]);
        w
    }
}

/// Whether a tick of the world ends something.
#[derive(Debug, Clone, Copy, PartialEq, Eq, Structural)]
pub enum ControlFlow {
    Continue,
    RoundComplete,
    GameComplete,
}

/// What a player can enter. There is nothing to enter yet.
pub enum Input {
    Never(core::convert::Infallible),
}

impl CombatMap {
    /// Whether two maps hold the same cells.
    pub open spec fn same(self, other: CombatMap) -> bool {
        &&& self.cells@.len() == other.cells@.len()
        &&& forall|i: int|
            0 <= i < self.cells@.len() ==> (#[trigger] self.cells@[i])@ == other.cells@[i]@
    }

    fn replica(&self) -> (map: CombatMap)
        ensures
            map.same(*self),
    {
        let mut cells: Vec<Vec<CombatMapCell>> = Vec::new();
        let mut i: usize = 0;
        while i < self.cells.len()
            invariant
                i <= self.cells@.len(),
                cells@.len() == i,
                forall|j: int| 0 <= j < i ==> (#[trigger] cells@[j])@ == self.cells@[j]@,
            decreases self.cells@.len() - i,
        {
            cells.push(copied(&self.cells[i]));
            i += 1;
        }
        CombatMap { cells }
    }
}

/// A list with the same entries.
fn copied<T: Copy>(list: &Vec<T>) -> (copy: Vec<T>)
    ensures
        copy@ == list@,
{
    let mut copy: Vec<T> = Vec::new();
    let mut i: usize = 0;
    while i < list.len()
        invariant
            i <= list@.len(),
            copy@ == list@.subrange(0, i as int),
        decreases list@.len() - i,
    {
        copy.push(list[i]);
        i += 1;
        assert(copy@ =~= list@.subrange(0, i as int));
    }
    assert(copy@ =~= list@);
    copy
}

/// A queue with the same entries.
fn copied_queue(queue: &VecDeque<usize>) -> (copy: VecDeque<usize>)
    ensures
        copy@ == queue@,
{
    let mut copy: VecDeque<usize> = VecDeque::new();
    let mut i: usize = 0;
    while i < queue.len()
        invariant
            i <= queue@.len(),
            copy@ == queue@.subrange(0, i as int),
        decreases queue@.len() - i,
    {
        copy.push_back(queue[i]);
        i += 1;
        assert(copy@ =~= queue@.subrange(0, i as int));
    }
    assert(copy@ =~= queue@);
    copy
}

impl Deck {
    /// Whether two decks hold the same cards in the same places.
    pub open spec fn same(self, other: Deck) -> bool {
        &&& self.cards@ == other.cards@
        &&& self.draw@ == other.draw@
        &&& self.hand@ == other.hand@
        &&& self.discard@ == other.discard@
    }

    fn replica(&self) -> (deck: Deck)
        ensures
            deck.same(*self),
    {
        Deck {
            cards: copied(&self.cards),
            draw: copied_queue(&self.draw),
            hand: copied_queue(&self.hand),
            discard: copied_queue(&self.discard),
        }
    }
}

impl Character {
    /// Whether two characters are the same in all they hold.
    pub open spec fn same(self, other: Character) -> bool {
        match (self, other) {
            (
                Character::Player { name, kind, relic_collection, deck },
                Character::Player {
                    name: other_name,
                    kind: other_kind,
                    relic_collection: other_relics,
                    deck: other_deck,
                },
            ) => {
                &&& name@ == other_name@
                &&& kind == other_kind
                &&& relic_collection.active_relics@ == other_relics.active_relics@
                &&& relic_collection.relics@ == other_relics.relics@
                &&& deck.same(other_deck)
            },
            (
                Character::Enemy { kind, planned_action },
                Character::Enemy { kind: other_kind, planned_action: other_action },
            ) => kind == other_kind && planned_action == other_action,
            _ => false,
        }
    }

    fn replica(&self) -> (c: Character)
        ensures
            c.same(*self),
    {
        match self {
            Character::Player { name, kind, relic_collection, deck } => Character::Player {
                name: name.clone(),
                kind: *kind,
                relic_collection: RelicCollection {
                    active_relics: copied(&relic_collection.active_relics),
                    relics: copied(&relic_collection.relics),
                },
                deck: deck.replica(),
            },
            Character::Enemy { kind, planned_action } => Character::Enemy {
                kind: *kind,
                planned_action: *planned_action,
            },
        }
    }
}

impl World {
    /// Whether two worlds are the same in all they hold.
    pub open spec fn same_world(self, other: World) -> bool {
        &&& self.generation == other.generation
        &&& self.color == other.color
        &&& match (self.stage, other.stage) {
            (None, None) => true,
            (Some(GameStage::Combat(a)), Some(GameStage::Combat(b))) => a.same(b),
            _ => false,
        }
        &&& self.characters@.len() == other.characters@.len()
        &&& forall|i: int|
            0 <= i < self.characters@.len() ==> (#[trigger] self.characters@[i]).same(
                other.characters@[i],
            )
    }

    /// Plays one turn. No turn ends anything yet.
    pub fn tick(&mut self) -> (flow: ControlFlow)
        ensures
            flow == ControlFlow::Continue,
            *final(self) == *old(self),
    {
        ControlFlow::Continue
    }

    /// Whether the world waits for a player. It never does yet.
    pub fn waiting_for_input(&self) -> (waiting: bool)
        ensures
            !waiting,
    {
        false
    }
}

impl<K> SynchronizedSimulatable<UserAction<K>> for World {
    open spec fn frame(self) -> u64 {
        self.generation
    }

    open spec fn can_advance(self) -> bool {
        self.generation < u64::MAX
    }

    open spec fn advanced(self) -> World {
        World { generation: (self.generation + 1) as u64, ..self }
    }

    open spec fn executed(self, action: UserAction<K>) -> World {
        self
    }

    open spec fn same(self, other: World) -> bool {
        self.same_world(other)
    }

    fn execute(&mut self, user_action: &UserAction<K>) {
    }

    fn generation(&self) -> (generation: u64) {
        self.generation
    }

    fn advance(self) -> (next: World) {
        World { generation: self.generation + 1, ..self }
    }

    fn replica(&self) -> (w: World) {
        let stage = match &self.stage {
            None => None,
            Some(GameStage::Combat(map)) => Some(GameStage::Combat(map.replica())),
        };
        let mut characters: Vec<Character> = Vec::new();
        let mut i: usize = 0;
        while i < self.characters.len()
            invariant
                i <= self.characters@.len(),
                characters@.len() == i,
                forall|j: int|
                    0 <= j < i ==> (#[trigger] characters@[j]).same(self.characters@[j]),
            decreases self.characters@.len() - i,
        {
            characters.push(self.characters[i].replica());
            i += 1;
        }
        World { generation: self.generation, stage, characters, color: self.color }
    }
}

/// Where a world is shared: what it was synced to, and when.
pub struct Connection {
    pub last_sync_generation: u64,
    pub last_sync: Timestamp,
}

impl Connection {
    /// Links a frozen world at the given instant.
    pub fn link_at(frozen_world: &World, now: Timestamp) -> (c: Self)
        ensures
            c.last_sync_generation == frozen_world.generation,
            c.last_sync == now,
    {
        Connection { last_sync: now, last_sync_generation: frozen_world.generation }
    }

    /// Links a frozen world to a target.
    pub fn link_to(_target: PeerAddr, frozen_world: World) -> (c: Self)
        ensures
            c.last_sync_generation == frozen_world.generation,
            c.last_sync.wf(),
    {
        let now = clock::now();
        Self::link_at(&frozen_world, now)
    }
}

/// Worlds that are the same hold the same: the generation, the color, every
/// cell of the map, and of every character all that it has.
pub proof fn same_worlds_hold_the_same(a: World, b: World)
    requires
        a.same_world(b),
    ensures
        a.generation == b.generation,
        a.color == b.color,
        a.stage is Some <==> b.stage is Some,
        a.stage is Some ==> a.stage->0->Combat_0.cells@.len() == b.stage->0->Combat_0.cells@.len(),
        a.stage is Some ==> forall|i: int|
            0 <= i < a.stage->0->Combat_0.cells@.len() ==> (
            #[trigger] a.stage->0->Combat_0.cells@[i])@ == b.stage->0->Combat_0.cells@[i]@,
        a.characters@.len() == b.characters@.len(),
        forall|i: int|
            0 <= i < a.characters@.len() ==> match (
                #[trigger] a.characters@[i],
                b.characters@[i],
            ) {
                (
                    Character::Player { name, kind, relic_collection, deck },
                    Character::Player {
                        name: other_name,
                        kind: other_kind,
                        relic_collection: other_relics,
                        deck: other_deck,
                    },
                ) => {
                    &&& name@ == other_name@
                    &&& kind == other_kind
                    &&& relic_collection.active_relics@ == other_relics.active_relics@
                    &&& relic_collection.relics@ == other_relics.relics@
                    &&& deck.cards@ == other_deck.cards@
                    &&& deck.draw@ == other_deck.draw@
                    &&& deck.hand@ == other_deck.hand@
                    &&& deck.discard@ == other_deck.discard@
                },
                (
                    Character::Enemy { kind, planned_action },
                    Character::Enemy { kind: other_kind, planned_action: other_action },
                ) => kind == other_kind && planned_action == other_action,
                _ => false,
            },
{
    assert forall|i: int| 0 <= i < a.characters@.len() implies (#[trigger] a.characters@[i]).same(
        b.characters@[i],
    ) by {
    }
}

/// A world that goes on is one generation further and otherwise as it was; an
/// action leaves it as it is, and its frame is its generation.
pub proof fn a_world_goes_on_by_one<K>(world: World, action: UserAction<K>)
    requires
        world.generation < u64::MAX,
    ensures
        ({
            let next = SynchronizedSimulatable::<UserAction<K>>::advanced(world);
            &&& next.generation == world.generation + 1
            &&& next.stage == world.stage
            &&& next.characters == world.characters
            &&& next.color == world.color
        }),
        world.executed(action) == world,
        SynchronizedSimulatable::<UserAction<K>>::frame(world) == world.generation,
        SynchronizedSimulatable::<UserAction<K>>::can_advance(world),
        forall|other: World|
            #[trigger] SynchronizedSimulatable::<UserAction<K>>::same(world, other)
                ==> other.generation == world.generation,
{
}

} // verus!
