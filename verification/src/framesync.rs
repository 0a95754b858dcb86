//! Keeping step with the peers: how far each one has come, and how long to
//! wait for the slowest.

use vstd::prelude::*;

use crate::clock::{self, Timestamp};
use crate::netting::client_id::ClientId;
use crate::netting::client_map::ClientMap;

verus! {

/// Frames that are simulated in a second.
pub const TARGET_FPS: u16 = 120;

/// Milliseconds of one frame.
pub const FRAME_MILLISECONDS: i64 = 8;

/// Frames that a peer may lag behind before it is waited for: two seconds,
/// around how long two round trips around the globe take.
pub const PEER_LAG_TOLERANCE: i64 = 250;

/// Frames that a peer may lag behind before it is ignored. There is no limit to
/// how far it may run ahead.
pub const VALIDITY_WINDOW_LOWER_DISTANCE: i64 = 500;

/// Frames that one delay spans at most, in case the network catches up.
pub const MAX_FRAMES_TO_WAIT: i64 = 20;

/// Nanoseconds after which a peer's last report is too old: two times the lag
/// tolerance.
pub const DATA_AGE_LIMIT_NANOS: i128 = 4_000_000_000;

/// A point on the timeline of frames, from which others are seen as earlier or
/// later. The timeline wraps around.
#[derive(Debug, Clone, Copy, PartialEq, Eq, Structural)]
pub struct FrameWindowingRanges {
    pub center: u64,
}

/// How far a frame lies ahead of a center; negative where it lies behind. The
/// half of the timeline above the center is ahead.
pub open spec fn frame_distance(center: u64, input: u64) -> int {
    let data = if input >= center {
        input - center
    } else {
        input - center + 0x1_0000_0000_0000_0000
    };
    if data > u64::MAX / 2 {
        -(u64::MAX - data)
    } else {
        data
    }
}

impl FrameWindowingRanges {
    /// The view from a center.
    pub fn new(center: u64) -> (r: Self)
        ensures
            r.center == center,
    {
        FrameWindowingRanges { center }
    }

    /// How far a frame lies ahead of the center.
    pub fn signed_distance(&self, input: u64) -> (distance: i64)
        ensures
            distance == frame_distance(self.center, input),
    {
        let data: u64 = input.wrapping_sub(self.center);
        if data > u64::MAX / 2 {
            -((u64::MAX - data) as i64)
        } else {
            data as i64
        }
    }

    /// Whether the way from the center to a frame wraps around.
    pub fn is_wraparound(&self, input: u64) -> (wraps: bool)
        ensures
            wraps == (input < self.center),
    {
        input.wrapping_sub(self.center) > input
    }
}

/// What is known of a peer: when it last got ahead, and to which frame.
pub type Report = (int, u64);

/// Whether a peer's report counts at an instant: it is not too old, and the
/// peer is not too far behind.
pub open spec fn counts(report: Report, position: u64, now: int) -> bool {
    &&& report.0 >= now - DATA_AGE_LIMIT_NANOS
    &&& frame_distance(position, report.1) >= -VALIDITY_WINDOW_LOWER_DISTANCE
}

/// Whether the slowest peer that counts lies at the given distance.
pub open spec fn slowest_at(
    reports: Map<ClientId, Report>,
    position: u64,
    now: int,
    distance: int,
) -> bool {
    &&& exists|p: ClientId| #[trigger]
        reports.dom().contains(p) && counts(reports[p], position, now) && frame_distance(
            position,
            reports[p].1,
        ) == distance
    &&& forall|p: ClientId| #[trigger]
        reports.dom().contains(p) && counts(reports[p], position, now) ==> distance
            <= frame_distance(position, reports[p].1)
}

/// The delay, in milliseconds, for a limiting frame at a distance: none within
/// the lag tolerance, else the frames beyond it, but not too many of them, as a
/// negative span.
pub open spec fn delay_for(distance: int) -> Option<int> {
    if distance > -PEER_LAG_TOLERANCE {
        None
    } else {
        Some(
            FRAME_MILLISECONDS * (if distance + PEER_LAG_TOLERANCE >= -MAX_FRAMES_TO_WAIT {
                distance + PEER_LAG_TOLERANCE
            } else {
                -MAX_FRAMES_TO_WAIT
            }),
        )
    }
}

/// The reports once a peer reported a frame: only a frame that advances the
/// peer is noted.
pub open spec fn reported(
    reports: Map<ClientId, Report>,
    peer: ClientId,
    frame: u64,
    now: int,
) -> Map<ClientId, Report> {
    if reports.dom().contains(peer) && reports[peer].1 >= frame {
        reports
    } else {
        reports.insert(peer, (now, frame))
    }
}

/// A peer's frame never goes back, and other peers' reports stay.
pub proof fn reports_only_advance(
    reports: Map<ClientId, Report>,
    peer: ClientId,
    frame: u64,
    now: int,
    other: ClientId,
)
    requires
        reports.dom().contains(other),
    ensures
        reported(reports, peer, frame, now).dom().contains(other),
        reported(reports, peer, frame, now)[other].1 >= reports[other].1,
        other != peer ==> reported(reports, peer, frame, now)[other] == reports[other],
        reported(reports, peer, frame, now)[peer].1 >= frame,
{
}

/// There is no upper limit: a fresh report of a peer counts however far the
/// peer is ahead, and asks for no delay.
pub proof fn peers_ahead_count_without_delay(report: Report, position: u64, now: int)
    requires
        report.0 >= now - DATA_AGE_LIMIT_NANOS,
        frame_distance(position, report.1) >= 0,
    ensures
        counts(report, position, now),
        delay_for(frame_distance(position, report.1)) is None,
{
}

/// One delay spans no more than twenty frames, however far a peer is behind,
/// and the further it is behind the longer the delay.
pub proof fn delays_are_bounded(distance: int, further: int)
    requires
        further <= distance,
    ensures
        delay_for(distance) matches Some(ms) ==> -MAX_FRAMES_TO_WAIT * FRAME_MILLISECONDS <= ms
            <= 0,
        delay_for(distance) matches Some(ms) ==> delay_for(further) is Some && delay_for(further)->0
            <= ms,
{
}

/// Every frame but the one just beyond half the timeline is seen from the
/// other side at about the same distance: an earlier frame is one frame closer
/// than it is apart.
pub proof fn distance_is_mirrored(a: u64, b: u64)
    requires
        frame_distance(a, b) > 0,
    ensures
        frame_distance(b, a) == 1 - frame_distance(a, b),
{
}

/// One peer's record.
pub open spec fn report_of(record: (Timestamp, u64)) -> Report {
    (record.0.instant(), record.1)
}

/// How far each peer has come.
pub struct FrameSync {
    historical_framesyncs: ClientMap<(Timestamp, u64)>,
    range_cache: Option<FrameWindowingRanges>,
}

impl View for FrameSync {
    type V = Map<ClientId, Report>;

    closed spec fn view(&self) -> Map<ClientId, Report> {
        self.historical_framesyncs@.map_values(|r: (Timestamp, u64)| report_of(r))
    }
}

impl FrameSync {
    /// Every peer has one record.
    pub closed spec fn wf(self) -> bool {
        self.historical_framesyncs.wf()
    }

    /// The center that the windowing was last asked for.
    pub closed spec fn cached(self) -> Option<FrameWindowingRanges> {
        self.range_cache
    }

    /// Nothing is known of any peer.
    pub fn new() -> (f: Self)
        ensures
            f.wf(),
            f@ == Map::<ClientId, Report>::empty(),
            f.cached() is None,
    {
        let f = FrameSync { historical_framesyncs: ClientMap::new(), range_cache: None };
        assert(f@ =~= Map::<ClientId, Report>::empty());
        f
    }

    /// The view from a center. The last one asked for is kept.
    pub fn get_ranges(&mut self, center: u64) -> (r: FrameWindowingRanges)
        ensures
            r.center == center,
            final(self)@ == old(self)@,
            old(self).wf() ==> final(self).wf(),
            final(self).historical_same(*old(self)),
            final(self).cached() == Some(r),
    {
        if let Some(r) = self.range_cache {
            if r.center == center {
                return r;
            }
        }
        let r = FrameWindowingRanges::new(center);
        self.range_cache = Some(r);
        r
    }

    /// A peer reported a frame at the given instant.
    pub fn record_framesync_at(&mut self, peer: ClientId, frame: u64, now: &Timestamp)
        requires
            old(self).wf(),
        ensures
            final(self).wf(),
            final(self)@ == reported(old(self)@, peer, frame, now.instant()),
    {
        let ghost before = self@;
        if let Some(i) = self.historical_framesyncs.find(peer) {
            if self.historical_framesyncs.rows[i].1.1 >= frame {
                return ;
            }
        }
        self.historical_framesyncs.insert(peer, (*now, frame));
        assert(self@ =~= before.insert(peer, (now.instant(), frame)));
    }

    /// A peer reported a frame.
    pub fn record_framesync(&mut self, peer: ClientId, frame: u64)
        requires
            old(self).wf(),
        ensures
            final(self).wf(),
            exists|t: Timestamp|
                t.wf() && final(self)@ == reported(old(self)@, peer, frame, #[trigger] t.instant()),
    {
        let now = clock::now();
        let ghost before = self@;
        self.record_framesync_at(peer, frame, &now);
        assert(now.wf() && self@ == reported(before, peer, frame, now.instant()));
    }

    /// Whether a frame wraps around as seen from a position, and how far ahead
    /// it is; `None` where it is too far behind to count.
    pub fn signed_distance(&mut self, position: u64, input: u64) -> (d: Option<(bool, i64)>)
        ensures
            final(self)@ == old(self)@,
            old(self).wf() ==> final(self).wf(),
            final(self).historical_same(*old(self)),
            d == (if frame_distance(position, input) >= -500 {
                Some((input < position, frame_distance(position, input) as i64))
            } else {
                None
            }),
    {
        let r = self.get_ranges(position);
        let distance: i64 = r.signed_distance(input);
        if distance < -VALIDITY_WINDOW_LOWER_DISTANCE {
            return None;
        }
        Some((r.is_wraparound(input), distance))
    }

    /// Whether the records are the same.
    pub closed spec fn historical_same(self, other: Self) -> bool {
        self.historical_framesyncs == other.historical_framesyncs
    }

    /// The delay, in milliseconds, for a limiting frame.
    pub fn required_delay(&mut self, position: u64, input: u64) -> (delay: Option<i64>)
        ensures
            final(self)@ == old(self)@,
            old(self).wf() ==> final(self).wf(),
            match (delay, delay_for(frame_distance(position, input))) {
                (Some(d), Some(e)) => d == e,
                (None, None) => true,
                _ => false,
            },
    {
        let r = self.get_ranges(position);
        let distance: i64 = r.signed_distance(input);
        if distance > -PEER_LAG_TOLERANCE {
            return None;
        }
        let beyond: i64 = distance + PEER_LAG_TOLERANCE;
        let frames_to_wait: i64 = if beyond >= -MAX_FRAMES_TO_WAIT {
            beyond
        } else {
            -MAX_FRAMES_TO_WAIT
        };
        Some(FRAME_MILLISECONDS * frames_to_wait)
    }

    /// How many milliseconds, as a negative span, to fall back for the slowest
    /// peer that counts at the given instant; `None` where all are within the
    /// tolerance or there is none.
    pub fn calculate_delay_at(&mut self, position: u64, now: &Timestamp) -> (delay: Option<i64>)
        requires
            old(self).wf(),
        ensures
            final(self).wf(),
            final(self)@ == old(self)@,
            delay is None ==> forall|d: int| #[trigger]
                slowest_at(old(self)@, position, now.instant(), d) ==> delay_for(d) is None,
            delay matches Some(ms) ==> exists|d: int| #[trigger]
                slowest_at(old(self)@, position, now.instant(), d) && delay_for(d) == Some(
                    ms as int,
                ),
    {
        let ghost before = *self;
        let ghost records = self.historical_framesyncs.rows@;
        let mut limiter: Option<(u64, i64)> = None;
        let mut i: usize = 0;
        while i < self.historical_framesyncs.rows.len()
            invariant
                self.historical_same(before),
                before.wf(),
                self@ == before@,
                self.wf(),
                records == before.historical_framesyncs.rows@,
                i <= records.len(),
                match limiter {
                    None => forall|j: int|
                        0 <= j < i ==> !counts(
                            report_of((#[trigger] records[j]).1),
                            position,
                            now.instant(),
                        ),
                    Some((frame, distance)) => {
                        &&& distance == frame_distance(position, frame)
                        &&& distance >= -VALIDITY_WINDOW_LOWER_DISTANCE
                        &&& exists|j: int|
                            0 <= j < i && (#[trigger] records[j]).1.1 == frame && counts(
                                report_of(records[j].1),
                                position,
                                now.instant(),
                            )
                        &&& forall|j: int|
                            0 <= j < i && counts(
                                report_of((#[trigger] records[j]).1),
                                position,
                                now.instant(),
                            ) ==> distance <= frame_distance(position, records[j].1.1)
                    },
                },
            decreases records.len() - i,
        {
            let (_, (stamp, frame)) = self.historical_framesyncs.rows[i];
            if now.since(&stamp) <= DATA_AGE_LIMIT_NANOS {
                if let Some((_, distance)) = self.signed_distance(position, frame) {
                    assert(counts(report_of(records[i as int].1), position, now.instant()));
                    match limiter {
                        None => {
                            limiter = Some((frame, distance));
                        },
                        Some((_, least)) => {
                            if distance < least {
                                limiter = Some((frame, distance));
                            }
                        },
                    }
                }
            }
            i += 1;
        }
        match limiter {
            None => {
                proof {
                    assert forall|d: int| #[trigger]
                        slowest_at(before@, position, now.instant(), d) implies delay_for(
                        d,
                    ) is None by {
                        let p = choose|p: ClientId| #[trigger]
                            before@.dom().contains(p) && counts(before@[p], position, now.instant())
                                && frame_distance(position, before@[p].1) == d;
                        let k = before.historical_framesyncs.value_has_row(p);
                        assert(before@[p] == report_of(records[k].1));
                    }
                }
                None
            },
            Some((frame, distance)) => {
                proof {
                    let j = choose|j: int|
                        0 <= j < i && (#[trigger] records[j]).1.1 == frame && counts(
                            report_of(records[j].1),
                            position,
                            now.instant(),
                        );
                    before.historical_framesyncs.row_is_value(j);
                    assert(before@.dom().contains(records[j].0));
                    assert(before@[records[j].0] == report_of(records[j].1));
                    assert forall|p: ClientId| #[trigger]
                        before@.dom().contains(p) && counts(
                            before@[p],
                            position,
                            now.instant(),
                        ) implies distance <= frame_distance(position, before@[p].1) by {
                        let k = before.historical_framesyncs.value_has_row(p);
                        assert(before@[p] == report_of(records[k].1));
                    }
                    assert(slowest_at(before@, position, now.instant(), distance as int));
                    assert forall|d: int| #[trigger]
                        slowest_at(before@, position, now.instant(), d) implies d == distance by {
                        let p = choose|p: ClientId| #[trigger]
                            before@.dom().contains(p) && counts(before@[p], position, now.instant())
                                && frame_distance(position, before@[p].1) == d;
                        assert(distance <= d);
                        assert(d <= frame_distance(position, before@[records[j].0].1));
                    }
                }
                self.required_delay(position, frame)
            },
        }
    }

    /// How many milliseconds, as a negative span, to fall back for the slowest
    /// peer that counts now.
    pub fn calculate_delay(&mut self, position: u64) -> (delay: Option<i64>)
        requires
            old(self).wf(),
        ensures
            final(self).wf(),
            final(self)@ == old(self)@,
            exists|t: Timestamp|
                {
                    &&& #[trigger] t.wf()
                    &&& delay is None ==> forall|d: int| #[trigger]
                        slowest_at(old(self)@, position, t.instant(), d) ==> delay_for(d) is None
                    &&& delay matches Some(ms) ==> exists|d: int| #[trigger]
                        slowest_at(old(self)@, position, t.instant(), d) && delay_for(d) == Some(
                            ms as int,
                        )
                },
    {
        let now = clock::now();
        let delay = self.calculate_delay_at(position, &now);
        assert(now.wf());
        delay
    }
}

/// A peer's record after a report. A first report, and one that takes the peer
/// beyond its last, is noted with the instant at which it came, whenever the
/// last one was; any other leaves the record and its instant as they were. No
/// other peer's record changes.
pub proof fn a_report_that_advances_is_dated_anew(
    reports: Map<ClientId, Report>,
    peer: ClientId,
    frame: u64,
    now: int,
)
    ensures
        !reports.dom().contains(peer) ==> reported(reports, peer, frame, now)[peer] == (now, frame),
        reports.dom().contains(peer) && frame > reports[peer].1 ==> reported(
            reports,
            peer,
            frame,
            now,
        )[peer] == (now, frame),
        reports.dom().contains(peer) && frame <= reports[peer].1 ==> reported(
            reports,
            peer,
            frame,
            now,
        )[peer] == reports[peer],
        reported(reports, peer, frame, now).dom() == reports.dom().insert(peer),
        reported(reports, peer, frame, now).remove(peer) == reports.remove(peer),
{
    assert(reported(reports, peer, frame, now).dom() =~= reports.dom().insert(peer));
    assert(reported(reports, peer, frame, now).remove(peer) =~= reports.remove(peer));
}

/// A peer that keeps advancing counts, however long ago it first reported: for
/// four seconds after each report that takes it on, while it is no more than
/// 500 frames behind. After that, without another one, it does not.
pub proof fn an_advancing_peer_counts(
    reports: Map<ClientId, Report>,
    peer: ClientId,
    frame: u64,
    then: int,
    position: u64,
    now: int,
)
    requires
        !reports.dom().contains(peer) || reports[peer].1 < frame,
    ensures
        frame_distance(position, frame) >= -500 && now - then <= 4_000_000_000 ==> counts(
            reported(reports, peer, frame, then)[peer],
            position,
            now,
        ),
        frame_distance(position, frame) < -500 || now - then > 4_000_000_000 ==> !counts(
            reported(reports, peer, frame, then)[peer],
            position,
            now,
        ),
{
}

/// A frame that lies `ahead` frames on along the timeline, up to half of it, is
/// at that distance, and going back by `behind` frames is one frame closer than
/// that; both across the point where the timeline wraps around.
pub proof fn distance_is_along_the_timeline(center: u64, input: u64, ahead: int, behind: int)
    ensures
        0 <= ahead <= 0x7fff_ffff_ffff_ffff && input == (center + ahead) % 0x1_0000_0000_0000_0000
            ==> frame_distance(center, input) == ahead,
        1 <= behind <= 0x8000_0000_0000_0000 && input == (center - behind)
            % 0x1_0000_0000_0000_0000 ==> frame_distance(center, input) == 1 - behind,
{
}

/// Up to 249 frames behind there is no delay; from there on each frame behind
/// adds eight milliseconds, for twenty frames, and no more after that.
pub proof fn delays_grow_by_the_frame(distance: int)
    ensures
        distance >= -249 ==> delay_for(distance) is None,
        delay_for(-250) == Some(0int),
        -270 <= distance < -250 ==> delay_for(distance) is Some && delay_for(distance + 1) is Some
            && delay_for(distance)->0 == delay_for(distance + 1)->0 - 8,
        distance < -270 ==> delay_for(distance) == delay_for(-270),
        delay_for(-270) == Some(-160int),
{
}

/// The slowest distance is there where a peer counts, it is that of a peer that
/// counts, and no peer that counts lies further behind: one more peer that
/// counts moves it where that peer lies further behind, and only then.
pub proof fn the_slowest_peer_sets_the_distance(
    reports: Map<ClientId, Report>,
    peer: ClientId,
    report: Report,
    position: u64,
    now: int,
    distance: int,
)
    requires
        slowest_at(reports, position, now, distance),
        !reports.dom().contains(peer),
    ensures
        report.0 >= now - 4_000_000_000 && -500 <= frame_distance(position, report.1) < distance
            ==> slowest_at(
            reports.insert(peer, report),
            position,
            now,
            frame_distance(position, report.1),
        ),
        report.0 < now - 4_000_000_000 || frame_distance(position, report.1) < -500
            || frame_distance(position, report.1) >= distance ==> slowest_at(
            reports.insert(peer, report),
            position,
            now,
            distance,
        ),
{
    let more = reports.insert(peer, report);
    let p = choose|p: ClientId| #[trigger]
        reports.dom().contains(p) && counts(reports[p], position, now) && frame_distance(
            position,
            reports[p].1,
        ) == distance;
    assert(more.dom().contains(p) && more[p] == reports[p]);
    assert(more.dom().contains(peer) && more[peer] == report);
    assert forall|q: ClientId| #[trigger] more.dom().contains(q) && q != peer implies
        reports.dom().contains(q) && more[q] == reports[q] by {
    }
}

/// One peer that counts, alone, is the slowest; where no peer counts there is
/// none.
pub proof fn a_single_peer_is_the_slowest(peer: ClientId, report: Report, position: u64, now: int)
    ensures
        report.0 >= now - 4_000_000_000 && frame_distance(position, report.1) >= -500
            ==> slowest_at(
            Map::<ClientId, Report>::empty().insert(peer, report),
            position,
            now,
            frame_distance(position, report.1),
        ),
        forall|d: int|
            report.0 < now - 4_000_000_000 || frame_distance(position, report.1) < -500
                ==> !#[trigger] slowest_at(
                Map::<ClientId, Report>::empty().insert(peer, report),
                position,
                now,
                d,
            ),
        forall|d: int| !#[trigger] slowest_at(Map::<ClientId, Report>::empty(), position, now, d),
{
    let alone = Map::<ClientId, Report>::empty().insert(peer, report);
    assert(alone.dom().contains(peer) && alone[peer] == report);
}

/// No peer that counts lies further behind than the slowest, some peer that
/// counts lies just there, and there is one slowest distance only: no peer is
/// left out of it that reported within four seconds and is no more than 500
/// frames behind.
pub proof fn no_peer_that_counts_is_slower(
    reports: Map<ClientId, Report>,
    position: u64,
    now: int,
    distance: int,
    peer: ClientId,
    other: int,
)
    requires
        slowest_at(reports, position, now, distance),
    ensures
        reports.dom().contains(peer) && reports[peer].0 >= now - 4_000_000_000 && frame_distance(
            position,
            reports[peer].1,
        ) >= -500 ==> distance <= frame_distance(position, reports[peer].1),
        exists|p: ClientId| #[trigger]
            reports.dom().contains(p) && reports[p].0 >= now - 4_000_000_000 && -500
                <= frame_distance(position, reports[p].1) == distance,
        slowest_at(reports, position, now, other) ==> other == distance,
{
    let p = choose|p: ClientId| #[trigger]
        reports.dom().contains(p) && counts(reports[p], position, now) && frame_distance(
            position,
            reports[p].1,
        ) == distance;
    assert(reports.dom().contains(p));
    if slowest_at(reports, position, now, other) {
        let q = choose|q: ClientId| #[trigger]
            reports.dom().contains(q) && counts(reports[q], position, now) && frame_distance(
                position,
                reports[q].1,
            ) == other;
        assert(reports.dom().contains(q));
    }
}

} // verus!
