//! The simulation: actions in their order, the worlds of the last seconds, and
//! the step from one world to the next.

use std::collections::VecDeque;
use std::sync::Arc;

use vstd::prelude::*;

use crate::clock::{self, Timestamp};
use crate::framesync::{delay_for, reported, slowest_at, FrameSync, Report};
use crate::netting::client_id::ClientId;

verus! {

/// An action on its way in: one of this client's own, or one that already has
/// its place on the timeline.
pub enum ActionIntake<LA, GA> {
    Local(LA),
    Global(GA),
}

/// An action that can be given its place on the timeline.
pub trait GlobalizableAction: Sized {
    type Output;

    /// The action in its place.
    spec fn placed(self, timeframe: u64, sender: ClientId) -> Self::Output;

    /// Gives the action its place.
    fn globalize(self, timeframe: u64, sender: ClientId) -> (placed: Self::Output)
        ensures
            placed == self.placed(timeframe, sender),
    ;
}

/// An action with a place on the timeline.
pub trait SimulationTimeframeAttached: Sized {
    /// The frame that the action belongs to.
    spec fn at(self) -> u64;

    /// The client that acts.
    spec fn actor(self) -> ClientId;

    /// By which actions are ordered.
    fn rank_key(&self) -> (key: (u64, ClientId))
        ensures
            key == (self.at(), self.actor()),
    ;

    /// The frame that the action belongs to.
    fn timeframe(&self) -> (at: u64)
        ensures
            at == self.at(),
    ;
}

/// A world that is simulated in step with others.
pub trait SynchronizedSimulatable<A>: Sized {
    /// The frame that the world has reached.
    spec fn frame(self) -> u64;

    /// Whether there is a next frame.
    spec fn can_advance(self) -> bool;

    /// The world one frame on.
    spec fn advanced(self) -> Self;

    /// The world after an action.
    spec fn executed(self, action: A) -> Self;

    /// Whether two worlds are the same in all they hold.
    spec fn same(self, other: Self) -> bool;

    /// Executes an action.
    fn execute(&mut self, user_action: &A)
        ensures
            *final(self) == old(self).executed(*user_action),
    ;

    /// The frame that the world has reached.
    fn generation(&self) -> (generation: u64)
        ensures
            generation == self.frame(),
    ;

    /// Goes on by one frame.
    fn advance(self) -> (next: Self)
        requires
            self.can_advance(),
        ensures
            next == self.advanced(),
            next.frame() == self.frame() + 1,
    ;

    /// A world that is the same.
    fn replica(&self) -> (w: Self)
        ensures
            w.same(*self),
            w.frame() == self.frame(),
            w.can_advance() == self.can_advance(),
    ;
}

/// What a user does, without its place on the timeline.
#[derive(Debug, Clone)]
pub struct UserActionKind<K> {
    pub payload: K,
}

/// What a user does.
#[derive(Debug, Clone)]
pub struct UserAction<K> {
    pub sim_time: u64,
    pub sender: ClientId,
    pub kind: UserActionKind<K>,
}

impl<K> UserAction<K> {
    /// When the action is looked at: the current instant.
    pub fn timestamp(&self) -> (t: Timestamp)
        ensures
            t.wf(),
            t.seconds >= 0,
    {
        clock::now()
    }
}

impl<K> GlobalizableAction for UserActionKind<K> {
    type Output = UserAction<K>;

    open spec fn placed(self, timeframe: u64, sender: ClientId) -> UserAction<K> {
        UserAction { sim_time: timeframe, sender, kind: self }
    }

    fn globalize(self, sim_time: u64, sender: ClientId) -> (placed: UserAction<K>) {
        UserAction { sim_time, sender, kind: self }
    }
}

impl<K> SimulationTimeframeAttached for UserAction<K> {
    open spec fn at(self) -> u64 {
        self.sim_time
    }

    open spec fn actor(self) -> ClientId {
        self.sender
    }

    fn rank_key(&self) -> (key: (u64, ClientId)) {
        (self.sim_time, self.sender)
    }

    fn timeframe(&self) -> (at: u64) {
        self.sim_time
    }
}

/// Worlds that are kept: about three seconds of them.
pub const MAX_HISTORY: usize = 300;

/// Whether one action comes before another: by frame, then by client.
pub open spec fn ranks_before<A: SimulationTimeframeAttached>(a: A, b: A) -> bool {
    a.at() < b.at() || (a.at() == b.at() && a.actor().ordinal() < b.actor().ordinal())
}

/// Whether actions stand in their order.
pub open spec fn ranked<A: SimulationTimeframeAttached>(actions: Seq<A>) -> bool {
    forall|i: int, j: int|
        0 <= i < j < actions.len() ==> !ranks_before(#[trigger] actions[j], #[trigger] actions[i])
}

/// Where a new action belongs among ordered ones: behind all that do not come
/// after it.
pub open spec fn belongs_at<A: SimulationTimeframeAttached>(
    actions: Seq<A>,
    action: A,
    place: int,
) -> bool {
    &&& 0 <= place <= actions.len()
    &&& forall|i: int| 0 <= i < place ==> !ranks_before(action, #[trigger] actions[i])
    &&& forall|i: int| place <= i < actions.len() ==> ranks_before(action, #[trigger] actions[i])
}

/// The actions with a new one among them.
pub open spec fn with_action<A: SimulationTimeframeAttached>(actions: Seq<A>, action: A) -> Seq<A> {
    actions.insert(choose|place: int| belongs_at(actions, action, place), action)
}

/// There is one place for a new action.
pub proof fn one_place<A: SimulationTimeframeAttached>(actions: Seq<A>, action: A, place: int)
    requires
        belongs_at(actions, action, place),
    ensures
        with_action(actions, action) == actions.insert(place, action),
{
    let p = choose|p: int| belongs_at(actions, action, p);
    assert(belongs_at(actions, action, p));
    if p < place {
        assert(ranks_before(action, actions[p]));
    } else if place < p {
        assert(ranks_before(action, actions[place]));
    }
}

/// A place for a new action exists among ordered ones, and they stay ordered.
pub proof fn a_place_exists<A: SimulationTimeframeAttached>(actions: Seq<A>, action: A) -> (place:
    int)
    requires
        ranked(actions),
    ensures
        belongs_at(actions, action, place),
        ranked(actions.insert(place, action)),
        with_action(actions, action) == actions.insert(place, action),
    decreases actions.len(),
{
    let place = if actions.len() == 0 {
        0
    } else if !ranks_before(action, actions.last()) {
        actions.len() as int
    } else {
        let init = actions.drop_last();
        let p = a_place_exists(init, action);
        assert forall|i: int| p <= i < actions.len() implies ranks_before(
            action,
            #[trigger] actions[i],
        ) by {
            if i < init.len() {
                assert(init[i] == actions[i]);
            }
        }
        assert forall|i: int| 0 <= i < p implies !ranks_before(action, #[trigger] actions[i]) by {
            assert(init[i] == actions[i]);
        }
        p
    };
    assert forall|i: int| 0 <= i < place implies !ranks_before(action, #[trigger] actions[i]) by {
        if !ranks_before(action, actions.last()) && i < actions.len() - 1 {
            assert(!ranks_before(actions.last(), actions[i]));
        }
    }
    one_place(actions, action, place);
    let after = actions.insert(place, action);
    assert forall|i: int, j: int| 0 <= i < j < after.len() implies !ranks_before(
        #[trigger] after[j],
        #[trigger] after[i],
    ) by {
        let x = if i < place {
            actions[i]
        } else if i == place {
            action
        } else {
            actions[i - 1]
        };
        let y = if j < place {
            actions[j]
        } else if j == place {
            action
        } else {
            actions[j - 1]
        };
        assert(after[i] == x && after[j] == y);
    }
    place
}

/// The order does not depend on which of two actions came in first, unless
/// they tie: all clients end up with the same actions in the same order.
pub proof fn arrival_order_does_not_matter<A: SimulationTimeframeAttached>(
    actions: Seq<A>,
    a: A,
    b: A,
)
    requires
        ranked(actions),
        ranks_before(a, b),
    ensures
        with_action(with_action(actions, a), b) == with_action(with_action(actions, b), a),
{
    let p = a_place_exists(actions, a);
    let q = a_place_exists(actions, b);
    if q < p {
        assert(!ranks_before(a, actions[q]));
        assert(ranks_before(b, actions[q]));
    }
    let with_a = actions.insert(p, a);
    let with_b = actions.insert(q, b);
    assert(belongs_at(with_a, b, q + 1)) by {
        assert forall|i: int| 0 <= i < q + 1 implies !ranks_before(b, #[trigger] with_a[i]) by {
            if i < p {
                assert(with_a[i] == actions[i]);
            } else if i > p {
                assert(with_a[i] == actions[i - 1]);
            }
        }
        assert forall|i: int| q + 1 <= i < with_a.len() implies ranks_before(
            b,
            #[trigger] with_a[i],
        ) by {
            assert(with_a[i] == actions[i - 1]);
        }
    }
    assert(belongs_at(with_b, a, p)) by {
        assert forall|i: int| 0 <= i < p implies !ranks_before(a, #[trigger] with_b[i]) by {
            assert(with_b[i] == actions[i]);
        }
        assert forall|i: int| p <= i < with_b.len() implies ranks_before(
            a,
            #[trigger] with_b[i],
        ) by {
            if i < q {
                assert(with_b[i] == actions[i]);
            } else if i > q {
                assert(with_b[i] == actions[i - 1]);
            }
        }
    }
    one_place(with_a, b, q + 1);
    one_place(with_b, a, p);
    assert(with_a.insert(q + 1, b) =~= with_b.insert(p, a));
}

/// The actions without those in front that belong before a frame.
pub open spec fn since<A: SimulationTimeframeAttached>(actions: Seq<A>, frame: u64) -> Seq<A>
    decreases actions.len(),
{
    if actions.len() == 0 || actions[0].at() >= frame {
        actions
    } else {
        since(actions.drop_first(), frame)
    }
}

/// Of ordered actions, those before a frame are dropped and no others; what
/// is left is ordered.
pub proof fn since_drops_the_old<A: SimulationTimeframeAttached>(actions: Seq<A>, frame: u64)
    requires
        ranked(actions),
    ensures
        ranked(since(actions, frame)),
        forall|i: int|
            0 <= i < since(actions, frame).len() ==> (#[trigger] since(actions, frame)[i]).at()
                >= frame,
        forall|i: int|
            0 <= i < actions.len() && (#[trigger] actions[i]).at() >= frame ==> since(
                actions,
                frame,
            ).contains(actions[i]),
    decreases actions.len(),
{
    if actions.len() == 0 || actions[0].at() >= frame {
        assert forall|i: int| 0 <= i < actions.len() implies (#[trigger] actions[i]).at()
            >= frame by {
            if i > 0 {
                assert(!ranks_before(actions[i], actions[0]));
            }
        }
    } else {
        let rest = actions.drop_first();
        assert forall|i: int, j: int| 0 <= i < j < rest.len() implies !ranks_before(
            #[trigger] rest[j],
            #[trigger] rest[i],
        ) by {
            assert(rest[i] == actions[i + 1] && rest[j] == actions[j + 1]);
        }
        since_drops_the_old(rest, frame);
        assert forall|i: int| 0 <= i < actions.len() && (#[trigger] actions[i]).at()
            >= frame implies since(actions, frame).contains(actions[i]) by {
            assert(rest[i - 1] == actions[i]);
        }
    }
}

/// The worlds once those that an action at a frame invalidates are gone: from
/// the newest on, all beyond the frame, but for the last one left.
pub open spec fn rewound<A, W: SynchronizedSimulatable<A>>(worlds: Seq<W>, frame: u64) -> Seq<W>
    decreases worlds.len(),
{
    if worlds.len() <= 1 || worlds.last().frame() <= frame {
        worlds
    } else {
        rewound::<A, W>(worlds.drop_last(), frame)
    }
}

/// Rewinding keeps the front of the worlds, and the newest world that is left
/// is at the frame or before it unless it is the only one.
pub proof fn rewinding_keeps_the_front<A, W: SynchronizedSimulatable<A>>(
    worlds: Seq<W>,
    frame: u64,
)
    requires
        worlds.len() > 0,
    ensures
        0 < rewound::<A, W>(worlds, frame).len() <= worlds.len(),
        rewound::<A, W>(worlds, frame) == worlds.subrange(
            0,
            rewound::<A, W>(worlds, frame).len() as int,
        ),
        rewound::<A, W>(worlds, frame).len() == 1 || rewound::<A, W>(worlds, frame).last().frame()
            <= frame,
    decreases worlds.len(),
{
    if worlds.len() <= 1 || worlds.last().frame() <= frame {
        assert(worlds.subrange(0, worlds.len() as int) =~= worlds);
    } else {
        rewinding_keeps_the_front::<A, W>(worlds.drop_last(), frame);
        let left = rewound::<A, W>(worlds, frame);
        assert(worlds.drop_last().subrange(0, left.len() as int) =~= worlds.subrange(
            0,
            left.len() as int,
        ));
    }
}

/// The newest worlds, up to a number of them.
pub open spec fn newest<W>(worlds: Seq<W>, count: int) -> Seq<W> {
    if worlds.len() <= count {
        worlds
    } else {
        worlds.subrange(worlds.len() - count, worlds.len() as int)
    }
}

/// The actions of one frame, in their order.
pub open spec fn of_frame<A: SimulationTimeframeAttached>(actions: Seq<A>, frame: u64) -> Seq<A>
    decreases actions.len(),
{
    if actions.len() == 0 {
        actions
    } else {
        let init = of_frame(actions.drop_last(), frame);
        if actions.last().at() == frame {
            init.push(actions.last())
        } else {
            init
        }
    }
}

/// The world after all of the given actions.
pub open spec fn after_all<A, W: SynchronizedSimulatable<A>>(world: W, actions: Seq<A>) -> W
    decreases actions.len(),
{
    if actions.len() == 0 {
        world
    } else {
        after_all::<A, W>(world, actions.drop_last()).executed(actions.last())
    }
}

/// The worlds of the last seconds, and the actions that may still change them.
pub struct WorldStash<W, A> {
    pub historical_actions: VecDeque<A>,
    pub historical_worlds: VecDeque<Arc<W>>,
    pub max_generation: u64,
}

/// Two neighbouring worlds, and the point out of 1000 between them.
#[derive(Debug, Clone)]
pub struct SnapshotWorldState<W> {
    pub prev: W,
    pub next: W,
    pub interpolation_point: usize,
}

impl<W, A> Default for WorldStash<W, A> {
    /// A stash without a world.
    fn default() -> (s: Self)
        ensures
            s.historical_worlds@ == Seq::<Arc<W>>::empty(),
            s.historical_actions@ == Seq::<A>::empty(),
            s.max_generation == 0,
    {
        WorldStash {
            historical_actions: VecDeque::new(),
            historical_worlds: VecDeque::new(),
            max_generation: 0,
        }
    }
}

impl<W: SynchronizedSimulatable<A>, A: SimulationTimeframeAttached> WorldStash<W, A> {
    /// The worlds, from the earliest to the newest.
    pub open spec fn worlds(self) -> Seq<W> {
        self.historical_worlds@.map_values(|w: Arc<W>| *w)
    }

    /// The actions, in their order.
    pub open spec fn actions(self) -> Seq<A> {
        self.historical_actions@
    }

    /// There is a world, not too many of them, and the actions are ordered.
    pub open spec fn wf(self) -> bool {
        &&& 1 <= self.historical_worlds@.len() <= MAX_HISTORY
        &&& ranked(self.historical_actions@)
    }

    /// A stash of one world.
    pub fn new(world: W) -> (s: Self)
        ensures
            s.wf(),
            s.worlds() == seq![world],
            s.actions() == Seq::<A>::empty(),
            s.max_generation == world.frame(),
    {
        let max_generation = world.generation();
        let mut historical_worlds: VecDeque<Arc<W>> = VecDeque::new();
        historical_worlds.push_back(Arc::new(world));
        let s = WorldStash {
            historical_actions: VecDeque::new(),
            historical_worlds,
            max_generation,
        };
        assert(s.worlds() =~= seq![world]);
        s
    }

    /// Forgets everything but a new world.
    pub fn force_reset(&mut self, world: W)
        ensures
            final(self).wf(),
            final(self).worlds() == seq![world],
            final(self).actions() == Seq::<A>::empty(),
            final(self).max_generation == world.frame(),
    {
        self.max_generation = world.generation();
        self.historical_worlds.clear();
        self.historical_actions.clear();
        self.historical_worlds.push_back(Arc::new(world));
        assert(self.worlds() =~= seq![world]);
    }

    /// Stashes a new world. The earliest worlds give way where there are too
    /// many, and actions from before the earliest one are dropped.
    pub fn push_world(&mut self, world: W)
        requires
            old(self).wf(),
        ensures
            final(self).wf(),
            final(self).worlds() == newest(old(self).worlds(), 299).push(world),
            final(self).actions() == since(
                old(self).actions(),
                newest(old(self).worlds(), 299)[0].frame(),
            ),
            final(self).max_generation == (if old(self).max_generation >= world.frame() {
                old(self).max_generation
            } else {
                world.frame()
            }),
    {
        let ghost worlds = self.worlds();
        let ghost actions = self.actions();
        while self.historical_worlds.len() >= MAX_HISTORY
            invariant
                1 <= self.historical_worlds@.len() <= MAX_HISTORY,
                self.historical_actions@ == actions,
                self.max_generation == old(self).max_generation,
                newest(self.worlds(), MAX_HISTORY - 1) == newest(worlds, MAX_HISTORY - 1),
            decreases self.historical_worlds@.len(),
        {
            let ghost here = self.worlds();
            self.historical_worlds.pop_front();
            assert(self.worlds() =~= here.subrange(1, here.len() as int));
            assert(newest(self.worlds(), MAX_HISTORY - 1) =~= newest(here, MAX_HISTORY - 1));
        }
        let ghost kept = self.worlds();
        assert(kept =~= newest(worlds, MAX_HISTORY - 1));
        let earliest: u64 = self.historical_worlds[0].generation();
        assert(earliest == kept[0].frame());
        while self.historical_actions.len() > 0 && self.historical_actions[0].timeframe() < earliest
            invariant
                self.worlds() == kept,
                self.max_generation == old(self).max_generation,
                since(self.historical_actions@, earliest) == since(actions, earliest),
            ensures
                self.worlds() == kept,
                self.max_generation == old(self).max_generation,
                self.historical_actions@ == since(actions, earliest),
            decreases self.historical_actions@.len(),
        {
            let ghost here = self.historical_actions@;
            self.historical_actions.pop_front();
            assert(self.historical_actions@ =~= here.drop_first());
        }
        proof {
            since_drops_the_old(actions, earliest);
        }
        let generation = world.generation();
        if self.max_generation < generation {
            self.max_generation = generation;
        }
        self.historical_worlds.push_back(Arc::new(world));
        assert(self.worlds() =~= kept.push(world));
    }

    /// Puts an action in its place. One from before the earliest world is
    /// ignored; any other invalidates the worlds beyond its frame, which are
    /// dropped. Without a world every action is put in its place.
    pub fn insert_recent_action(&mut self, action: A)
        requires
            ranked(old(self).actions()),
        ensures
            old(self).wf() ==> final(self).wf(),
            ranked(final(self).actions()),
            final(self).max_generation == old(self).max_generation,
            if old(self).worlds().len() > 0 && old(self).worlds()[0].frame() > action.at() {
                &&& final(self).worlds() == old(self).worlds()
                &&& final(self).actions() == old(self).actions()
            } else {
                &&& final(self).worlds() == rewound::<A, W>(old(self).worlds(), action.at())
                &&& final(self).actions() == with_action(old(self).actions(), action)
            },
    {
        let ghost worlds = self.worlds();
        let ghost actions = self.actions();
        if let Some(w) = self.peek_earliest() {
            if w.generation() > action.timeframe() {
                return ;
            }
        }
        let recalculation_start: u64 = action.timeframe();
        let ghost spot = a_place_exists(actions, action);
        let mut place: usize = self.historical_actions.len();
        while place > 0 && action_ranks_before(&action, &self.historical_actions[place - 1])
            invariant
                place <= actions.len(),
                self.historical_actions@ == actions,
                self.worlds() == worlds,
                self.max_generation == old(self).max_generation,
                forall|i: int|
                    place <= i < actions.len() ==> ranks_before(action, #[trigger] actions[i]),
                belongs_at(actions, action, spot),
            decreases place,
        {
            place -= 1;
        }
        proof {
            if place > spot {
                assert(ranks_before(action, actions[place - 1]));
            } else if place < spot {
                assert(ranks_before(action, actions[place as int]));
            }
        }
        self.historical_actions.insert(place, action);
        proof {
            if worlds.len() > 0 {
                rewinding_keeps_the_front::<A, W>(worlds, recalculation_start);
            }
        }
        while self.historical_worlds.len() > 1
            && self.historical_worlds[self.historical_worlds.len() - 1].generation()
            > recalculation_start
            invariant
                self.historical_actions@ == actions.insert(spot, action),
                self.max_generation == old(self).max_generation,
                rewound::<A, W>(self.worlds(), recalculation_start) == rewound::<A, W>(
                    worlds,
                    recalculation_start,
                ),
            ensures
                self.worlds() == rewound::<A, W>(worlds, recalculation_start),
            decreases self.historical_worlds@.len(),
        {
            let ghost here = self.worlds();
            self.historical_worlds.pop_back();
            assert(self.worlds() =~= here.drop_last());
        }
    }

    /// The earliest world.
    pub fn peek_earliest(&self) -> (w: Option<Arc<W>>)
        ensures
            w is Some <==> self.worlds().len() > 0,
            w matches Some(a) ==> *a == self.worlds()[0],
    {
        if self.historical_worlds.len() == 0 {
            return None;
        }
        Some(Arc::clone(&self.historical_worlds[0]))
    }

    /// The newest world, unless it is the only one.
    pub fn peek_most_recent_not_last(&self) -> (w: Option<Arc<W>>)
        ensures
            w is Some <==> self.worlds().len() > 1,
            w matches Some(a) ==> *a == self.worlds().last(),
    {
        if self.historical_worlds.len() == 1 {
            return None;
        }
        self.peek_most_recent()
    }

    /// The newest world.
    pub fn peek_most_recent(&self) -> (w: Option<Arc<W>>)
        ensures
            w is Some <==> self.worlds().len() > 0,
            w matches Some(a) ==> *a == self.worlds().last(),
    {
        let len: usize = self.historical_worlds.len();
        if len == 0 {
            return None;
        }
        Some(Arc::clone(&self.historical_worlds[len - 1]))
    }

    /// The two newest worlds; the only one twice.
    pub fn snapshot(&self) -> (s: SnapshotWorldState<W>)
        requires
            self.worlds().len() > 0,
        ensures
            s.next.same(self.worlds().last()),
            s.next.frame() == self.worlds().last().frame(),
            self.worlds().len() == 1 ==> s.prev.same(self.worlds()[0]),
            self.worlds().len() == 1 ==> s.prev.frame() == self.worlds()[0].frame(),
            self.worlds().len() > 1 ==> s.prev.same(self.worlds()[self.worlds().len() - 2]),
            self.worlds().len() > 1 ==> s.prev.frame() == self.worlds()[self.worlds().len()
                - 2].frame(),
            s.interpolation_point == 0,
    {
        let len: usize = self.historical_worlds.len();
        let back: usize = if len == 1 {
            1
        } else {
            2
        };
        SnapshotWorldState {
            prev: self.historical_worlds[len - back].replica(),
            next: self.historical_worlds[len - 1].replica(),
            interpolation_point: 0,
        }
    }

    /// The frame of the earliest world; zero where there is none.
    pub fn generation(&self) -> (frame: u64)
        ensures
            frame == (if self.worlds().len() > 0 {
                self.worlds()[0].frame()
            } else {
                0
            }),
    {
        match self.peek_earliest() {
            Some(w) => w.generation(),
            None => 0,
        }
    }

    /// The actions of one frame, in their order.
    pub fn actions_for_generation(&self, gen: u64) -> (found: Vec<&A>)
        ensures
            found@.len() == of_frame(self.actions(), gen).len(),
            forall|i: int|
                0 <= i < found@.len() ==> *(#[trigger] found@[i]) == of_frame(
                    self.actions(),
                    gen,
                )[i],
    {
        let mut found: Vec<&A> = Vec::new();
        let mut i: usize = 0;
        let ghost actions = self.historical_actions@;
        assert(actions.subrange(0, 0) =~= Seq::<A>::empty());
        while i < self.historical_actions.len()
            invariant
                actions == self.historical_actions@,
                i <= actions.len(),
                found@.len() == of_frame(actions.subrange(0, i as int), gen).len(),
                forall|j: int|
                    0 <= j < found@.len() ==> *(#[trigger] found@[j]) == of_frame(
                        actions.subrange(0, i as int),
                        gen,
                    )[j],
            decreases actions.len() - i,
        {
            assert(actions.subrange(0, i + 1).drop_last() =~= actions.subrange(0, i as int));
            let a = &self.historical_actions[i];
            if a.timeframe() == gen {
                found.push(a);
            }
            i += 1;
        }
        assert(actions.subrange(0, actions.len() as int) =~= actions);
        found
    }
}

/// Whether one action comes before another.
fn action_ranks_before<A: SimulationTimeframeAttached>(a: &A, b: &A) -> (before: bool)
    ensures
        before == ranks_before(*a, *b),
{
    let (at, actor) = a.rank_key();
    let (other_at, other_actor) = b.rank_key();
    at < other_at || (at == other_at && actor.ranks_before(&other_actor))
}

/// Nanoseconds of one frame.
pub const FRAME_NANOS: i128 = 8_000_000;

/// An instant that leaves room for spans to be added to it.
pub open spec fn in_reach(nanos: i128) -> bool {
    -0x1_0000_0000_0000_0000_0000_0000 < nanos < 0x1_0000_0000_0000_0000_0000_0000
}

/// An action in its place, and whether it is one of this client's own, which
/// its peers must hear of. An own action is placed at the newest frame.
pub fn placed_action<LA: GlobalizableAction>(
    intake: ActionIntake<LA, LA::Output>,
    apparent_generation: u64,
    own: ClientId,
) -> (placed: (LA::Output, bool))
    ensures
        match intake {
            ActionIntake::Local(l) => placed == (l.placed(apparent_generation, own), true),
            ActionIntake::Global(g) => placed == (g, false),
        },
{
    match intake {
        ActionIntake::Local(l) => (l.globalize(apparent_generation, own), true),
        ActionIntake::Global(g) => (g, false),
    }
}

/// The simulation of one client. It is paused until it is told to run; then it
/// makes one step per frame, each at its time.
pub struct Simulation<W, A> {
    pub own_client_id: ClientId,
    pub world_stash: WorldStash<W, A>,
    pub framesync: FrameSync,
    pub running: bool,
    /// When the next frame is due, in nanoseconds since the Unix epoch.
    pub target_sim_time: i128,
}

/// The reports once several were noted, in order.
pub open spec fn all_reported(
    reports: Map<ClientId, Report>,
    news: Seq<(ClientId, u64)>,
    now: int,
) -> Map<ClientId, Report>
    decreases news.len(),
{
    if news.len() == 0 {
        reports
    } else {
        reported(
            all_reported(reports, news.drop_last(), now),
            news.last().0,
            news.last().1,
            now,
        )
    }
}

/// Whether a simulation's next world is the newest one, advanced by one frame
/// and with that frame's actions executed.
pub open spec fn stepped<W: SynchronizedSimulatable<A>, A: SimulationTimeframeAttached>(
    before: WorldStash<W, A>,
    after: WorldStash<W, A>,
) -> bool {
    let latest = before.worlds().last();
    let kept = newest(before.worlds(), MAX_HISTORY - 1);
    exists|copy: W|
        {
            let world = after_all::<A, W>(
                copy.advanced(),
                of_frame(before.actions(), latest.frame()),
            );
            &&& #[trigger] copy.same(latest)
            &&& copy.frame() == latest.frame()
            &&& copy.can_advance()
            &&& after.worlds() == kept.push(world)
            &&& after.actions() == since(before.actions(), kept[0].frame())
            &&& after.max_generation == (if before.max_generation >= world.frame() {
                before.max_generation
            } else {
                world.frame()
            })
        }
}

impl<W: SynchronizedSimulatable<A>, A: SimulationTimeframeAttached> Simulation<W, A> {
    /// The stash and the reports are well formed.
    pub open spec fn wf(self) -> bool {
        &&& self.world_stash.wf()
        &&& self.framesync.wf()
        &&& in_reach(self.target_sim_time)
    }

    /// A paused simulation of a first world.
    pub fn init(world: W, own_client_id: ClientId) -> (s: Self)
        ensures
            s.wf(),
            s.own_client_id == own_client_id,
            s.world_stash.worlds() == seq![world],
            s.world_stash.actions() == Seq::<A>::empty(),
            s.world_stash.max_generation == world.frame(),
            s.framesync@ == Map::<ClientId, Report>::empty(),
            !s.running,
    {
        Simulation {
            own_client_id,
            world_stash: WorldStash::new(world),
            framesync: FrameSync::new(),
            running: false,
            target_sim_time: 0,
        }
    }

    /// A paused simulation hears whether to run. It starts at the given
    /// instant once it is told to, or once nobody is left who could.
    pub fn on_wakeup(&mut self, run_state: Option<bool>, now: &Timestamp)
        requires
            now.wf(),
        ensures
            run_state == Some(false) ==> !final(self).running && final(self).target_sim_time
                == old(self).target_sim_time,
            run_state != Some(false) ==> final(self).running && final(self).target_sim_time
                == now.instant(),
            final(self).world_stash == old(self).world_stash,
            final(self).framesync == old(self).framesync,
            final(self).own_client_id == old(self).own_client_id,
            old(self).wf() ==> final(self).wf(),
    {
        match run_state {
            Some(false) => {
                self.running = false;
            },
            _ => {
                self.running = true;
                self.target_sim_time = now.since(&Timestamp { seconds: 0, nanos: 0 });
            },
        }
    }

    /// A running simulation may have heard whether to run. It pauses where it
    /// is told to.
    pub fn on_run_state(&mut self, run_state: Option<bool>)
        ensures
            *final(self) == (Simulation {
                running: old(self).running && run_state != Some(false),
                ..*old(self)
            }),
    {
        if let Some(run) = run_state {
            if !run {
                self.running = false;
            }
        }
    }

    /// How long the next frame is still away; `None` once it is due.
    pub fn wait_before_frame(&self, now: &Timestamp) -> (span: Option<i128>)
        requires
            in_reach(self.target_sim_time),
        ensures
            span == (if now.instant() < self.target_sim_time {
                Some((self.target_sim_time - now.instant()) as i128)
            } else {
                None
            }),
    {
        let at: i128 = now.since(&Timestamp { seconds: 0, nanos: 0 });
        if at < self.target_sim_time {
            Some(self.target_sim_time - at)
        } else {
            None
        }
    }

    /// The wait was cut short. A jump makes the next frame due at once;
    /// anything else leaves it due when it was.
    pub fn on_jump(&mut self, jump: Option<(Timestamp, u64)>, now: &Timestamp)
        requires
            old(self).wf(),
            now.wf(),
        ensures
            *final(self) == (Simulation {
                target_sim_time: final(self).target_sim_time,
                ..*old(self)
            }),
            final(self).target_sim_time == (if jump is Some {
                now.instant()
            } else {
                old(self).target_sim_time as int
            }),
            final(self).wf(),
    {
        if let Some((target_arrival_time, _target_generation)) = jump {
            let arrival: i128 = target_arrival_time.since(&Timestamp { seconds: 0, nanos: 0 });
            self.target_sim_time = arrival + now.since(&target_arrival_time);
        }
    }

    /// Takes in what came since the last frame, before any action: worlds to
    /// go on from, of which the last counts, and peers' frames. Returns the
    /// newest frame, at which own actions are placed.
    pub fn absorb(
        &mut self,
        resets: Vec<W>,
        reports: &Vec<(ClientId, u64)>,
        now: &Timestamp,
    ) -> (apparent_generation: u64)
        requires
            old(self).wf(),
        ensures
            final(self).wf(),
            apparent_generation == final(self).world_stash.max_generation,
            resets@.len() == 0 ==> final(self).world_stash == old(self).world_stash,
            resets@.len() > 0 ==> {
                &&& final(self).world_stash.worlds() == seq![resets@.last()]
                &&& final(self).world_stash.actions() == Seq::<A>::empty()
                &&& final(self).world_stash.max_generation == resets@.last().frame()
            },
            final(self).framesync@ == all_reported(
                old(self).framesync@,
                reports@,
                now.instant(),
            ),
            final(self).own_client_id == old(self).own_client_id,
            final(self).running == old(self).running,
            final(self).target_sim_time == old(self).target_sim_time,
    {
        let mut resets = resets;
        if let Some(world) = resets.pop() {
            self.world_stash.force_reset(world);
        }
        let ghost start = *self;
        let mut i: usize = 0;
        assert(reports@.subrange(0, 0) =~= Seq::<(ClientId, u64)>::empty());
        while i < reports.len()
            invariant
                i <= reports@.len(),
                self.framesync.wf(),
                self.framesync@ == all_reported(
                    start.framesync@,
                    reports@.subrange(0, i as int),
                    now.instant(),
                ),
                self.world_stash == start.world_stash,
                self.own_client_id == start.own_client_id,
                self.running == start.running,
                self.target_sim_time == start.target_sim_time,
            decreases reports@.len() - i,
        {
            assert(reports@.subrange(0, i + 1).drop_last() =~= reports@.subrange(0, i as int));
            let (peer, frame) = reports[i];
            self.framesync.record_framesync_at(peer, frame, now);
            i += 1;
        }
        assert(reports@.subrange(0, reports@.len() as int) =~= reports@);
        self.world_stash.max_generation
    }

    /// Makes one step, and returns the frame that it reached.
    pub fn step(&mut self) -> (frame: u64)
        requires
            old(self).wf(),
            old(self).world_stash.worlds().last().can_advance(),
        ensures
            final(self).wf(),
            frame == old(self).world_stash.worlds().last().frame() + 1,
            stepped(old(self).world_stash, final(self).world_stash),
            final(self).own_client_id == old(self).own_client_id,
            final(self).framesync == old(self).framesync,
            final(self).running == old(self).running,
            final(self).target_sim_time == old(self).target_sim_time,
    {
        let ghost before = self.world_stash;
        let len: usize = self.world_stash.historical_worlds.len();
        let copy = self.world_stash.historical_worlds[len - 1].replica();
        let ghost latest = before.worlds().last();
        let ghost start = copy.advanced();
        let mut working_world = copy.advance();
        let frame: u64 = working_world.generation();
        let found = self.world_stash.actions_for_generation(frame - 1);
        let ghost actions = of_frame(before.actions(), latest.frame());
        let mut i: usize = 0;
        assert(actions.subrange(0, 0) =~= Seq::<A>::empty());
        while i < found.len()
            invariant
                i <= found@.len() == actions.len(),
                forall|j: int| 0 <= j < found@.len() ==> *(#[trigger] found@[j]) == actions[j],
                working_world == after_all::<A, W>(start, actions.subrange(0, i as int)),
            decreases found@.len() - i,
        {
            assert(actions.subrange(0, i + 1).drop_last() =~= actions.subrange(0, i as int));
            working_world.execute(found[i]);
            i += 1;
        }
        assert(actions.subrange(0, actions.len() as int) =~= actions);
        self.world_stash.push_world(working_world);
        assert(copy.same(latest));
        frame
    }

    /// A frame is done. The next one is due a frame later, and up to twenty
    /// frames later still where the slowest peer must catch up.
    pub fn finish_frame(&mut self, frame: u64, now: &Timestamp) -> (delay: Option<i64>)
        requires
            old(self).wf(),
            in_reach((old(self).target_sim_time + 168_000_000) as i128),
        ensures
            final(self).wf(),
            final(self).framesync@ == old(self).framesync@,
            final(self).world_stash == old(self).world_stash,
            final(self).own_client_id == old(self).own_client_id,
            final(self).running == old(self).running,
            delay is None ==> forall|d: int| #[trigger]
                slowest_at(old(self).framesync@, frame, now.instant(), d) ==> delay_for(d) is None,
            delay matches Some(ms) ==> exists|d: int| #[trigger]
                slowest_at(old(self).framesync@, frame, now.instant(), d) && delay_for(d) == Some(
                    ms as int,
                ),
            final(self).target_sim_time == old(self).target_sim_time + 8_000_000 - (match delay {
                Some(ms) => ms * 1_000_000,
                None => 0,
            }),
            old(self).target_sim_time + 8_000_000 <= final(self).target_sim_time
                <= old(self).target_sim_time + 168_000_000,
    {
        let delay = self.framesync.calculate_delay_at(frame, now);
        let extra: i128 = match delay {
            Some(ms) => ms as i128 * 1_000_000,
            None => 0,
        };
        proof {
            if delay is Some {
                let d = choose|d: int| #[trigger]
                    slowest_at(self.framesync@, frame, now.instant(), d) && delay_for(d) == Some(
                        delay->0 as int,
                    );
                assert(-500 <= d <= -250);
                assert(-160 <= delay->0 <= 0);
            }
        }
        self.target_sim_time = self.target_sim_time - extra + FRAME_NANOS;
        delay
    }
}

/// An action that rewinds the worlds to its own frame is executed by the next
/// step.
pub proof fn inserted_action_is_executed_next<
    W: SynchronizedSimulatable<A>,
    A: SimulationTimeframeAttached,
>(worlds: Seq<W>, actions: Seq<A>, action: A)
    requires
        worlds.len() > 0,
        ranked(actions),
        rewound::<A, W>(worlds, action.at()).last().frame() == action.at(),
    ensures
        of_frame(
            with_action(actions, action),
            rewound::<A, W>(worlds, action.at()).last().frame(),
        ).contains(action),
{
    let place = a_place_exists(actions, action);
    in_frame(actions.insert(place, action), place);
}

proof fn in_frame<A: SimulationTimeframeAttached>(actions: Seq<A>, i: int)
    requires
        0 <= i < actions.len(),
    ensures
        of_frame(actions, actions[i].at()).contains(actions[i]),
    decreases actions.len(),
{
    let frame = actions[i].at();
    let all = of_frame(actions, frame);
    if i == actions.len() - 1 {
        assert(all[all.len() - 1] == actions[i]);
    } else {
        let init = actions.drop_last();
        assert(init[i] == actions[i]);
        in_frame(init, i);
        let some = of_frame(init, frame);
        let k = choose|k: int| 0 <= k < some.len() && some[k] == actions[i];
        assert(all[k] == actions[i]);
    }
}

/// A world takes every action that it is given, one after the other and each
/// on top of what the ones before it left: one more action is executed on the
/// world after all others, and a list can be cut anywhere.
pub proof fn every_action_is_executed<A, W: SynchronizedSimulatable<A>>(
    world: W,
    actions: Seq<A>,
    action: A,
    cut: int,
)
    requires
        0 <= cut <= actions.len(),
    ensures
        after_all::<A, W>(world, Seq::<A>::empty()) == world,
        after_all::<A, W>(world, actions.push(action)) == after_all::<A, W>(
            world,
            actions,
        ).executed(action),
        after_all::<A, W>(world, actions) == after_all::<A, W>(
            after_all::<A, W>(world, actions.take(cut)),
            actions.skip(cut),
        ),
        after_all::<A, W>(world, actions) == actions.fold_left(
            world,
            |w: W, a: A| w.executed(a),
        ),
    decreases actions.len(),
{
    assert(actions.push(action).drop_last() =~= actions);
    if actions.len() > 0 {
        every_action_is_executed::<A, W>(
            world,
            actions.drop_last(),
            action,
            if cut < actions.len() {
                cut
            } else {
                0
            },
        );
    }
    if cut < actions.len() {
        assert(actions.drop_last().take(cut) =~= actions.take(cut));
        assert(actions.skip(cut).drop_last() =~= actions.drop_last().skip(cut));
    } else {
        assert(actions.take(cut) =~= actions);
        assert(actions.skip(cut) =~= Seq::<A>::empty());
    }
}

/// The actions of a frame are all that belong to it and no others, each as
/// often as it is there, in their order.
pub proof fn a_frame_has_its_actions<A: SimulationTimeframeAttached>(actions: Seq<A>, frame: u64)
    ensures
        of_frame(actions, frame) == actions.filter(|a: A| a.at() == frame),
    decreases actions.len(),
{
    reveal(Seq::filter);
    if actions.len() > 0 {
        a_frame_has_its_actions(actions.drop_last(), frame);
    }
}

/// Of ordered actions, exactly those at a frame or after it are left, each as
/// often as it was there, in their order.
pub proof fn since_keeps_the_rest<A: SimulationTimeframeAttached>(actions: Seq<A>, frame: u64)
    requires
        ranked(actions),
    ensures
        since(actions, frame) == actions.filter(|a: A| a.at() >= frame),
    decreases actions.len(),
{
    let late = |a: A| a.at() >= frame;
    if actions.len() == 0 {
        reveal(Seq::filter);
    } else if actions[0].at() >= frame {
        assert forall|i: int| 0 <= i < actions.len() implies late(#[trigger] actions[i]) by {
            if i > 0 {
                assert(!ranks_before(actions[i], actions[0]));
            }
        }
        all_pass(actions, late);
    } else {
        let rest = actions.drop_first();
        assert forall|i: int, j: int| 0 <= i < j < rest.len() implies !ranks_before(
            #[trigger] rest[j],
            #[trigger] rest[i],
        ) by {
            assert(rest[i] == actions[i + 1] && rest[j] == actions[j + 1]);
        }
        since_keeps_the_rest(rest, frame);
        let first = seq![actions[0]];
        assert(first + rest =~= actions);
        Seq::filter_distributes_over_add(first, rest, late);
        assert(first.filter(late) =~= Seq::<A>::empty()) by {
            reveal_with_fuel(Seq::filter, 2);
            assert(first.drop_last() =~= Seq::<A>::empty());
            assert(!late(first.last()));
        }
    }
}

proof fn all_pass<A>(s: Seq<A>, pred: spec_fn(A) -> bool)
    requires
        forall|i: int| 0 <= i < s.len() ==> pred(#[trigger] s[i]),
    ensures
        s.filter(pred) == s,
    decreases s.len(),
{
    reveal(Seq::filter);
    if s.len() > 0 {
        assert forall|i: int| 0 <= i < s.drop_last().len() implies pred(
            #[trigger] s.drop_last()[i],
        ) by {
            assert(s.drop_last()[i] == s[i]);
        }
        all_pass(s.drop_last(), pred);
        assert(s.drop_last().push(s.last()) =~= s);
    }
}

/// A new action stands behind every action of an earlier frame, behind those
/// of its frame whose clients do not come after its own, and in front of all
/// others; nothing else changes.
pub proof fn a_new_action_stands_in_its_place<A: SimulationTimeframeAttached>(
    actions: Seq<A>,
    action: A,
) -> (place: int)
    requires
        forall|i: int, j: int|
            0 <= i < j < actions.len() ==> (#[trigger] actions[i]).at() < (
            #[trigger] actions[j]).at() || (actions[i].at() == actions[j].at()
                && actions[i].actor().ordinal() <= actions[j].actor().ordinal()),
    ensures
        0 <= place <= actions.len(),
        with_action(actions, action) == actions.take(place).push(action) + actions.skip(place),
        forall|i: int|
            0 <= i < place ==> (#[trigger] actions[i]).at() < action.at() || (actions[i].at()
                == action.at() && actions[i].actor().ordinal() <= action.actor().ordinal()),
        forall|i: int|
            place <= i < actions.len() ==> action.at() < (#[trigger] actions[i]).at() || (
            action.at() == actions[i].at() && action.actor().ordinal()
                < actions[i].actor().ordinal()),
{
    let place = a_place_exists(actions, action);
    assert(actions.insert(place, action) =~= actions.take(place).push(action) + actions.skip(
        place,
    ));
    place
}

/// Rewinding drops no world that an action leaves valid: every world that is
/// gone lies beyond the action's frame.
pub proof fn rewinding_drops_only_what_is_beyond<A, W: SynchronizedSimulatable<A>>(
    worlds: Seq<W>,
    frame: u64,
    i: int,
)
    requires
        rewound::<A, W>(worlds, frame).len() <= i < worlds.len(),
    ensures
        worlds[i].frame() > frame,
    decreases worlds.len(),
{
    if worlds.len() > 1 && worlds.last().frame() > frame && i < worlds.len() - 1 {
        rewinding_drops_only_what_is_beyond::<A, W>(worlds.drop_last(), frame, i);
    }
}

/// What a step makes of a stash: the newest world is a copy of the newest one
/// before, advanced, with every action of that frame executed in turn. The
/// worlds before it follow in front of it, 300 in all at most, and the actions
/// from the earliest of them on are kept.
pub proof fn a_step_plays_the_whole_frame<
    W: SynchronizedSimulatable<A>,
    A: SimulationTimeframeAttached,
>(before: WorldStash<W, A>, after: WorldStash<W, A>)
    requires
        before.historical_worlds@.len() > 0,
        ranked(before.historical_actions@),
        stepped(before, after),
    ensures
        exists|copy: W|
            #[trigger] copy.same(*before.historical_worlds@.last())
                && *after.historical_worlds@.last() == before.historical_actions@.filter(
                |a: A| a.at() == before.historical_worlds@.last().frame(),
            ).fold_left(copy.advanced(), |w: W, a: A| w.executed(a)),
        after.historical_worlds@.len() == (if before.historical_worlds@.len() < 300 {
            before.historical_worlds@.len() + 1
        } else {
            300
        }),
        forall|k: int|
            0 <= k < after.historical_worlds@.len() - 1
                ==> *#[trigger] after.historical_worlds@[k] == *before.historical_worlds@[k
                + before.historical_worlds@.len() - (after.historical_worlds@.len() - 1)],
        after.historical_actions@ == before.historical_actions@.filter(
            |a: A| a.at() >= after.historical_worlds@[0].frame(),
        ),
        before.max_generation <= after.max_generation,
        after.historical_worlds@.last().frame() <= after.max_generation,
        after.max_generation == before.max_generation || after.max_generation
            == after.historical_worlds@.last().frame(),
{
    let latest = before.worlds().last();
    assert(latest == *before.historical_worlds@.last());
    let kept = newest(before.worlds(), MAX_HISTORY - 1);
    let copy = choose|copy: W|
        {
            let world = after_all::<A, W>(
                copy.advanced(),
                of_frame(before.actions(), latest.frame()),
            );
            &&& #[trigger] copy.same(latest)
            &&& copy.frame() == latest.frame()
            &&& copy.can_advance()
            &&& after.worlds() == kept.push(world)
            &&& after.actions() == since(before.actions(), kept[0].frame())
            &&& after.max_generation == (if before.max_generation >= world.frame() {
                before.max_generation
            } else {
                world.frame()
            })
        };
    let due = of_frame(before.actions(), latest.frame());
    a_frame_has_its_actions(before.actions(), latest.frame());
    let frame = latest.frame();
    assert((|a: A| a.at() == frame) =~= (|a: A|
        a.at() == before.historical_worlds@.last().frame()));
    if before.actions().len() > 0 {
        every_action_is_executed::<A, W>(copy.advanced(), due, before.actions()[0], 0);
    } else {
        reveal(Seq::filter);
        assert(due =~= Seq::<A>::empty());
    }
    let n = after.historical_worlds@.len();
    assert(after.worlds().len() == n);
    assert(after.worlds()[n - 1] == *after.historical_worlds@[n - 1]);
    assert(after.worlds()[0] == *after.historical_worlds@[0]);
    assert(copy.same(*before.historical_worlds@.last()));
    assert forall|k: int| 0 <= k < n - 1 implies *#[trigger] after.historical_worlds@[k]
        == *before.historical_worlds@[k + before.historical_worlds@.len() - (n - 1)] by {
        assert(after.worlds()[k] == kept[k]);
    }
    since_keeps_the_rest(before.actions(), kept[0].frame());
    let frame = kept[0].frame();
    assert((|a: A| a.at() >= frame) =~= (|a: A|
        a.at() >= after.historical_worlds@[0].frame()));
}

/// The newest worlds are the last ones, as many of them as are asked for and
/// there are.
pub proof fn the_newest_are_the_last<W>(worlds: Seq<W>, count: int)
    requires
        count >= 0,
    ensures
        newest(worlds, count).len() == (if worlds.len() < count {
            worlds.len() as int
        } else {
            count
        }),
        worlds == worlds.take(worlds.len() - newest(worlds, count).len()) + newest(worlds, count),
{
}

/// A user's action stands at the frame and for the client that it was placed
/// for, and is what it was.
pub proof fn a_placed_action_is_what_it_was<K>(kind: UserActionKind<K>, frame: u64, by: ClientId)
    ensures
        kind.placed(frame, by).sim_time == frame,
        kind.placed(frame, by).sender == by,
        kind.placed(frame, by).kind == kind,
        kind.placed(frame, by).at() == frame,
        kind.placed(frame, by).actor() == by,
{
}

/// Reports are noted in turn, each on top of those before it; after all of
/// them a peer's frame is the highest that it reported or had.
pub proof fn reports_are_noted_in_turn(
    reports: Map<ClientId, Report>,
    news: Seq<(ClientId, u64)>,
    now: int,
)
    ensures
        all_reported(reports, news, now) == news.fold_left(
            reports,
            |r: Map<ClientId, Report>, n: (ClientId, u64)|
                if r.dom().contains(n.0) && r[n.0].1 >= n.1 {
                    r
                } else {
                    r.insert(n.0, (now, n.1))
                },
        ),
        forall|k: int|
            0 <= k < news.len() ==> all_reported(reports, news, now).dom().contains(
                (#[trigger] news[k]).0,
            ) && all_reported(reports, news, now)[news[k].0].1 >= news[k].1,
        forall|p: ClientId| #[trigger]
            all_reported(reports, news, now).dom().contains(p) ==> {
                ||| reports.dom().contains(p) && all_reported(reports, news, now)[p] == reports[p]
                ||| news.contains((p, all_reported(reports, news, now)[p].1)) && all_reported(
                    reports,
                    news,
                    now,
                )[p].0 == now
            },
    decreases news.len(),
{
    if news.len() > 0 {
        let init = news.drop_last();
        reports_are_noted_in_turn(reports, init, now);
        let some = all_reported(reports, init, now);
        let all = all_reported(reports, news, now);
        assert forall|k: int| 0 <= k < news.len() implies all.dom().contains(
            (#[trigger] news[k]).0,
        ) && all[news[k].0].1 >= news[k].1 by {
            if k < init.len() {
                assert(init[k] == news[k]);
            }
        }
        assert forall|p: ClientId| #[trigger] all.dom().contains(p) implies {
            ||| reports.dom().contains(p) && all[p] == reports[p]
            ||| news.contains((p, all[p].1)) && all[p].0 == now
        } by {
            if some.dom().contains(p) && all[p] == some[p] {
                if init.contains((p, some[p].1)) {
                    let k = choose|k: int| 0 <= k < init.len() && init[k] == (p, some[p].1);
                    assert(news[k] == (p, some[p].1));
                }
            } else {
                assert(news[news.len() - 1] == (p, all[p].1));
            }
        }
    }
}

} // verus!
