//! Which worlds a picture shows: two that one turns into the other, or one as
//! it is.

use vstd::prelude::*;

use crate::world::World;

verus! {

/// What changes from one world to the next. Nothing is shown to yet.
#[derive(Debug, Clone, Copy, PartialEq, Eq, Structural)]
pub enum Change {
    Noop,
}

/// A world on its way to the next.
pub struct Transition<'a> {
    /// The world that is left.
    pub w0: &'a World,
    /// The world that is reached.
    pub w1: &'a World,
    /// What changes.
    pub change: Change,
    /// How far the way is gone, out of 1000.
    pub interpolation_point: usize,
}

/// What is to be shown between two worlds.
pub enum Interpolation<'a> {
    /// The way from one to the other.
    Transition(Transition<'a>),
    /// The second world is reached. The nanoseconds that remain are handed on
    /// to the next deduction.
    CheckpointReached(&'a World, i128),
}

/// What a picture shows.
pub enum RenderSource<'a> {
    Transition(Transition<'a>),
    Static(&'a World),
}

/// Nanoseconds that a way lasts: a frame of sixty in a second, in whole
/// milliseconds.
pub const TRANSITION_NANOS: i128 = 16_000_000;

/// The start of the way from one world to another.
pub open spec fn at_the_start<'a>(w0: &'a World, w1: &'a World) -> Transition<'a> {
    Transition { w0, w1, change: Change::Noop, interpolation_point: 0 }
}

/// What is shown between two worlds, some nanoseconds after the first.
pub open spec fn between<'a>(w0: &'a World, w1: &'a World, since: i128) -> Interpolation<'a> {
    if since > TRANSITION_NANOS {
        Interpolation::CheckpointReached(w1, (since - TRANSITION_NANOS) as i128)
    } else {
        Interpolation::Transition(at_the_start(w0, w1))
    }
}

/// Which way of a row of worlds is being gone, some nanoseconds after the first
/// world: the ways follow each other, and each lasts as long.
pub open spec fn way_at(since: int) -> int {
    if since <= TRANSITION_NANOS {
        0
    } else {
        (since - 1) / (TRANSITION_NANOS as int)
    }
}

/// What a picture shows of a row of worlds, some nanoseconds after the first.
pub open spec fn shown<'a>(worlds: &'a [World], since: int) -> Option<RenderSource<'a>> {
    let way = way_at(since);
    if worlds@.len() == 0 {
        None
    } else if way + 1 < worlds@.len() {
        Some(RenderSource::Transition(at_the_start(&worlds@[way], &worlds@[way + 1])))
    } else {
        Some(RenderSource::Static(&worlds@[worlds@.len() - 1]))
    }
}

/// Each way is shown for as long as it lasts: the one from the world at an
/// index begins when the ways before it are gone.
pub proof fn ways_follow_each_other(since: int, way: int)
    requires
        way >= 0,
    ensures
        way_at(since) == way <==> (way == 0 || way * 16_000_000 < since) && since <= (way + 1)
            * 16_000_000,
{
}

impl<'a> Interpolation<'a> {
    /// What is shown between two worlds, some nanoseconds after the first.
    pub fn deduce_transition(w0: &'a World, w1: &'a World, time_since_w0: i128) -> (i: Self)
        ensures
            i == between(w0, w1, time_since_w0),
    {
        if time_since_w0 > TRANSITION_NANOS {
            return Interpolation::CheckpointReached(w1, time_since_w0 - TRANSITION_NANOS);
        }
        Interpolation::Transition(
            Transition { w0, w1, change: Change::Noop, interpolation_point: 0 },
        )
    }

    /// Goes on to the next world where one is reached; a way that is being
    /// gone stays as it is.
    pub fn chase_checkpoint_or_transition(self, next_world: &'a World) -> (i: Self)
        ensures
            i == (match self {
                Interpolation::Transition(t) => self,
                Interpolation::CheckpointReached(prev, since) => between(prev, next_world, since),
            }),
    {
        match self {
            Interpolation::Transition(t) => Interpolation::Transition(t),
            Interpolation::CheckpointReached(prev_world, duration) => Self::deduce_transition(
                prev_world,
                next_world,
                duration,
            ),
        }
    }

    /// What a picture shows of a row of worlds, some nanoseconds after the
    /// first: nothing where there is none; the only one; the way that is being
    /// gone; and once all ways are gone, the last world.
    pub fn into_render_source(worlds: &'a [World], duration_since_initial: i128) -> (source: Option<
        RenderSource<'a>,
    >)
        ensures
            source == shown(worlds, duration_since_initial as int),
    {
        if worlds.len() == 0 {
            return None;
        }
        if worlds.len() == 1 {
            return Some(RenderSource::Static(&worlds[0]));
        }
        let ghost since = duration_since_initial as int;
        let mut current_case = Self::deduce_transition(
            &worlds[0],
            &worlds[1],
            duration_since_initial,
        );
        let mut i: usize = 2;
        while i < worlds.len()
            invariant
                2 <= i <= worlds@.len(),
                since == duration_since_initial,
                since <= (i - 1) * 16_000_000 ==> current_case == Interpolation::Transition(
                    at_the_start(&worlds@[way_at(since)], &worlds@[way_at(since) + 1]),
                ),
                since > (i - 1) * 16_000_000 ==> current_case == Interpolation::CheckpointReached(
                    &worlds@[i - 1],
                    (since - (i - 1) * 16_000_000) as i128,
                ),
            decreases worlds@.len() - i,
        {
            proof {
                ways_follow_each_other(since, i - 1);
            }
            current_case = current_case.chase_checkpoint_or_transition(&worlds[i]);
            i += 1;
        }
        match current_case {
            Interpolation::Transition(t) => Some(RenderSource::Transition(t)),
            Interpolation::CheckpointReached(w, _) => Some(RenderSource::Static(w)),
        }
    }
}

/// For sixteen milliseconds the way from one world to the next is shown; after
/// that the second world is reached, and what is beyond is handed on.
pub proof fn a_way_lasts_sixteen_milliseconds<'a>(w0: &'a World, w1: &'a World, since: i128)
    ensures
        since <= 16_000_000 ==> between(w0, w1, since) is Transition,
        since <= 16_000_000 ==> {
            let way = between(w0, w1, since)->Transition_0;
            way.w0 == w0 && way.w1 == w1 && way.change == Change::Noop && way.interpolation_point
                == 0
        },
        since > 16_000_000 ==> between(w0, w1, since) == Interpolation::CheckpointReached(
            w1,
            (since - 16_000_000) as i128,
        ),
{
}

/// Of a row of worlds, the way from each to the next is shown in turn, sixteen
/// milliseconds each; once they are gone the last world is shown as it is, and
/// of no world nothing.
pub proof fn worlds_are_shown_in_turn<'a>(worlds: &'a [World], since: int, i: int)
    ensures
        worlds@.len() == 0 <==> shown(worlds, since) is None,
        0 <= i < worlds@.len() - 1 && (i == 0 || 16_000_000 * i < since) && since <= 16_000_000 * (i
            + 1) ==> {
            &&& shown(worlds, since) is Some
            &&& shown(worlds, since)->0 is Transition
            &&& *shown(worlds, since)->0->Transition_0.w0 == worlds@[i]
            &&& *shown(worlds, since)->0->Transition_0.w1 == worlds@[i + 1]
            &&& shown(worlds, since)->0->Transition_0.interpolation_point == 0
        },
        worlds@.len() == 1 || (worlds@.len() > 1 && since > 16_000_000 * (worlds@.len() - 1)) ==> {
            &&& shown(worlds, since) is Some
            &&& shown(worlds, since)->0 is Static
            &&& *shown(worlds, since)->0->Static_0 == worlds@[worlds@.len() - 1]
        },
{
}

} // verus!
