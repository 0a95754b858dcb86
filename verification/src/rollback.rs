//! What rewinding and stepping keep: every stashed world is what the stashed
//! actions make of the world before it, however late an action came in. Clients
//! that share a world and the actions since then share every world after it.

use vstd::prelude::*;

use crate::simulation::{
    a_place_exists, after_all, newest, of_frame, ranked, rewinding_keeps_the_front, rewound, since,
    stepped, with_action, SimulationTimeframeAttached, SynchronizedSimulatable, UserAction,
    WorldStash, MAX_HISTORY,
};
use crate::world::World;

verus! {

/// Whether only advancing moves a world to another frame, and then to the next
/// one.
pub open spec fn steady<A, W: SynchronizedSimulatable<A>>() -> bool {
    &&& forall|w: W| w.can_advance() ==> (#[trigger] w.advanced()).frame() == w.frame() + 1
    &&& forall|w: W, action: A| (#[trigger] w.executed(action)).frame() == w.frame()
}

/// Whether worlds that are the same stay the same, whatever is done to both.
pub open spec fn congruent<A, W: SynchronizedSimulatable<A>>() -> bool {
    &&& forall|v: W, w: W| #[trigger] v.same(w) ==> w.same(v) && v.frame() == w.frame()
    &&& forall|u: W, v: W, w: W| #[trigger] u.same(v) && #[trigger] v.same(w) ==> u.same(w)
    &&& forall|v: W, w: W| #[trigger] v.same(w) ==> v.advanced().same(w.advanced())
    &&& forall|v: W, w: W, action: A|
        v.same(w) ==> (#[trigger] v.executed(action)).same(#[trigger] w.executed(action))
}

/// Whether a world is the one after another: a copy of it, one frame on, with
/// the actions of its frame executed in their order.
pub open spec fn follows<A: SimulationTimeframeAttached, W: SynchronizedSimulatable<A>>(
    actions: Seq<A>,
    world: W,
    next: W,
) -> bool {
    exists|copy: W|
        {
            &&& #[trigger] copy.same(world)
            &&& copy.frame() == world.frame()
            &&& copy.can_advance()
            &&& next == after_all::<A, W>(copy.advanced(), of_frame(actions, world.frame()))
        }
}

/// Whether worlds are what the actions make of the first of them.
pub open spec fn replayed<A: SimulationTimeframeAttached, W: SynchronizedSimulatable<A>>(
    worlds: Seq<W>,
    actions: Seq<A>,
) -> bool {
    &&& forall|i: int, j: int|
        0 <= i < j < worlds.len() ==> (#[trigger] worlds[i]).frame() < (
        #[trigger] worlds[j]).frame()
    &&& forall|i: int, j: int|
        0 <= i && j == i + 1 && j < worlds.len() ==> follows(
            actions,
            #[trigger] worlds[i],
            #[trigger] worlds[j],
        )
}

/// One world is what any actions make of it, so a stash that was just made or
/// reset is replayed.
pub proof fn one_world_is_replayed<A: SimulationTimeframeAttached, W: SynchronizedSimulatable<A>>(
    world: W,
    actions: Seq<A>,
)
    ensures
        replayed(seq![world], actions),
{
}

proof fn actions_keep_the_frame<A, W: SynchronizedSimulatable<A>>(world: W, actions: Seq<A>)
    requires
        steady::<A, W>(),
    ensures
        after_all::<A, W>(world, actions).frame() == world.frame(),
    decreases actions.len(),
{
    if actions.len() > 0 {
        actions_keep_the_frame::<A, W>(world, actions.drop_last());
    }
}

proof fn first_of_frame<A: SimulationTimeframeAttached>(actions: Seq<A>, frame: u64)
    requires
        actions.len() > 0,
        actions[0].at() != frame,
    ensures
        of_frame(actions, frame) == of_frame(actions.drop_first(), frame),
    decreases actions.len(),
{
    if actions.len() > 1 {
        first_of_frame(actions.drop_last(), frame);
        assert(actions.drop_last().drop_first() =~= actions.drop_first().drop_last());
    } else {
        assert(actions.drop_last() =~= actions.drop_first());
        reveal_with_fuel(of_frame, 2);
    }
}

proof fn old_actions_are_done<A: SimulationTimeframeAttached>(
    actions: Seq<A>,
    earliest: u64,
    frame: u64,
)
    requires
        earliest <= frame,
    ensures
        of_frame(since(actions, earliest), frame) == of_frame(actions, frame),
    decreases actions.len(),
{
    if actions.len() > 0 && actions[0].at() < earliest {
        first_of_frame(actions, frame);
        old_actions_are_done(actions.drop_first(), earliest, frame);
    }
}

proof fn other_frames_are_untouched<A: SimulationTimeframeAttached>(
    actions: Seq<A>,
    place: int,
    action: A,
    frame: u64,
)
    requires
        0 <= place <= actions.len(),
        action.at() != frame,
    ensures
        of_frame(actions.insert(place, action), frame) == of_frame(actions, frame),
    decreases actions.len(),
{
    let after = actions.insert(place, action);
    if place == actions.len() {
        assert(after.drop_last() =~= actions);
    } else {
        assert(after.drop_last() =~= actions.drop_last().insert(place, action));
        other_frames_are_untouched(actions.drop_last(), place, action, frame);
    }
}

/// A step keeps the stash replayed, though it drops the earliest worlds and the
/// actions from before them.
pub proof fn a_step_is_replayed<A: SimulationTimeframeAttached, W: SynchronizedSimulatable<A>>(
    before: WorldStash<W, A>,
    after: WorldStash<W, A>,
)
    requires
        steady::<A, W>(),
        before.wf(),
        replayed(before.worlds(), before.actions()),
        stepped(before, after),
    ensures
        replayed(after.worlds(), after.actions()),
{
    let worlds = before.worlds();
    let actions = before.actions();
    let latest = worlds.last();
    let kept = newest(worlds, MAX_HISTORY - 1);
    let skipped = worlds.len() - kept.len();
    assert(forall|i: int| 0 <= i < kept.len() ==> kept[i] == worlds[skipped + i]);
    let copy = choose|copy: W|
        {
            let world = after_all::<A, W>(copy.advanced(), of_frame(actions, latest.frame()));
            &&& #[trigger] copy.same(latest)
            &&& copy.frame() == latest.frame()
            &&& copy.can_advance()
            &&& after.worlds() == kept.push(world)
            &&& after.actions() == since(actions, kept[0].frame())
            &&& after.max_generation == (if before.max_generation >= world.frame() {
                before.max_generation
            } else {
                world.frame()
            })
        };
    let next = after_all::<A, W>(copy.advanced(), of_frame(actions, latest.frame()));
    actions_keep_the_frame::<A, W>(copy.advanced(), of_frame(actions, latest.frame()));
    let stash = after.worlds();
    assert forall|i: int, j: int| 0 <= i < j < stash.len() implies (#[trigger] stash[i]).frame() < (
    #[trigger] stash[j]).frame() by {
        if j == kept.len() {
            assert(stash[i] == worlds[skipped + i]);
            if i + 1 < kept.len() {
                assert(worlds[skipped + i].frame() < worlds[worlds.len() - 1].frame());
            }
        } else {
            assert(worlds[skipped + i].frame() < worlds[skipped + j].frame());
        }
    }
    assert forall|i: int, j: int| 0 <= i && j == i + 1 && j < stash.len() implies follows(
        after.actions(),
        #[trigger] stash[i],
        #[trigger] stash[j],
    ) by {
        let world = stash[i];
        assert(world == worlds[skipped + i]);
        if i > 0 {
            assert(worlds[skipped].frame() < worlds[skipped + i].frame());
        }
        old_actions_are_done(actions, kept[0].frame(), world.frame());
        if j == kept.len() {
            assert(stash[j] == next);
            assert(copy.same(world));
        } else {
            assert(follows(actions, worlds[skipped + i], worlds[skipped + j]));
        }
    }
}

/// An action keeps the stash replayed, however late it comes in: no world is
/// left that it would have changed.
pub proof fn a_late_action_is_replayed<
    A: SimulationTimeframeAttached,
    W: SynchronizedSimulatable<A>,
>(worlds: Seq<W>, actions: Seq<A>, action: A)
    requires
        worlds.len() > 0,
        worlds[0].frame() <= action.at(),
        ranked(actions),
        replayed(worlds, actions),
    ensures
        replayed(rewound::<A, W>(worlds, action.at()), with_action(actions, action)),
{
    let left = rewound::<A, W>(worlds, action.at());
    rewinding_keeps_the_front::<A, W>(worlds, action.at());
    let place = a_place_exists(actions, action);
    assert(forall|i: int| 0 <= i < left.len() ==> left[i] == worlds[i]);
    assert forall|i: int, j: int| 0 <= i && j == i + 1 && j < left.len() implies follows(
        with_action(actions, action),
        #[trigger] left[i],
        #[trigger] left[j],
    ) by {
        assert(worlds[i].frame() < worlds[left.len() - 1].frame());
        other_frames_are_untouched(actions, place, action, worlds[i].frame());
        assert(follows(actions, worlds[i], worlds[j]));
    }
}

proof fn same_after_all<A, W: SynchronizedSimulatable<A>>(v: W, w: W, actions: Seq<A>)
    requires
        congruent::<A, W>(),
        v.same(w),
    ensures
        after_all::<A, W>(v, actions).same(after_all::<A, W>(w, actions)),
    decreases actions.len(),
{
    if actions.len() > 0 {
        same_after_all::<A, W>(v, w, actions.drop_last());
    }
}

/// Two clients whose worlds start from the same one and who know the same
/// actions hold the same worlds, one by one.
pub proof fn same_actions_same_worlds<
    A: SimulationTimeframeAttached,
    W: SynchronizedSimulatable<A>,
>(ours: Seq<W>, theirs: Seq<W>, actions: Seq<A>, i: int)
    requires
        congruent::<A, W>(),
        replayed(ours, actions),
        replayed(theirs, actions),
        0 <= i < ours.len(),
        i < theirs.len(),
        ours[0].same(theirs[0]),
    ensures
        ours[i].same(theirs[i]),
    decreases i,
{
    if i > 0 {
        same_actions_same_worlds(ours, theirs, actions, i - 1);
        let v = ours[i - 1];
        let w = theirs[i - 1];
        assert(follows(actions, v, ours[i]));
        assert(follows(actions, w, theirs[i]));
        let due = of_frame(actions, v.frame());
        let our_copy = choose|copy: W|
            {
                &&& #[trigger] copy.same(v)
                &&& copy.frame() == v.frame()
                &&& copy.can_advance()
                &&& ours[i] == after_all::<A, W>(copy.advanced(), due)
            };
        let their_copy = choose|copy: W|
            {
                &&& #[trigger] copy.same(w)
                &&& copy.frame() == w.frame()
                &&& copy.can_advance()
                &&& theirs[i] == after_all::<A, W>(copy.advanced(), due)
            };
        assert(our_copy.same(w));
        assert(w.same(their_copy));
        assert(our_copy.same(their_copy));
        same_after_all::<A, W>(our_copy.advanced(), their_copy.advanced(), due);
    }
}

/// The game's worlds move by advancing alone.
pub proof fn game_worlds_are_steady<K>()
    ensures
        steady::<UserAction<K>, World>(),
{
}

/// The game's worlds stay the same where they are the same.
pub proof fn game_worlds_are_congruent<K>()
    ensures
        congruent::<UserAction<K>, World>(),
{
}

} // verus!
