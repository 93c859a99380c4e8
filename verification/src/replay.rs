//! A time-driven player over a recorded scene.
//!
//! [`Replay`] validates a recording once, lays its epochs out in play order, and lets a host
//! drive a scene at controlled sim time: for the frame at or before a time it applies that epoch,
//! frames and objects together. Only that epoch is read, so that stepping through a whole
//! recording takes time in proportion to its rows. The host owns the clock; past the end there is
//! no later cue, and the last snapshot stays on screen.

use vstd::prelude::*;
use crate::binary64::Binary64;
use crate::frame_doc::{epoch_count, epoch_simtime, segment_count, ApplyError};
use crate::scene::{SceneStore, SceneWriter};
use crate::scene_doc::{apply_row, SceneSeries};

verus! {

/// One applicable epoch in the flattened timeline.
#[derive(Clone, Copy, Debug, PartialEq, Eq, Structural)]
pub struct Cue {
    /// Its segment.
    pub segment: usize,
    /// Its place in the segment.
    pub epoch: usize,
    /// Its sim time.
    pub simtime: Binary64,
}

/// A validated recording positioned by sim time.
pub struct Replay {
    series: SceneSeries,
    /// Cues in play order.
    timeline: Vec<Cue>,
}

/// The cues of the first `n` epochs of segment `s`.
pub open spec fn segment_cues(s: int, segment: crate::frame_doc::SegmentModel, n: int) -> Seq<Cue>
    decreases n,
{
    if n <= 0 {
        Seq::empty()
    } else {
        segment_cues(s, segment, n - 1).push(
            Cue {
                segment: s as usize,
                epoch: (n - 1) as usize,
                simtime: segment.epochs[n - 1].simtime,
            },
        )
    }
}

/// The cues of the first `n` segments: segment by segment, epoch by epoch.
pub open spec fn cues(segments: Seq<crate::frame_doc::SegmentModel>, n: int) -> Seq<Cue>
    decreases n,
{
    if n <= 0 {
        Seq::empty()
    } else {
        cues(segments, n - 1) + segment_cues(
            n - 1,
            segments[n - 1],
            segments[n - 1].epochs.len() as int,
        )
    }
}

/// Times never decrease along the timeline, as in any recording made in order.
pub open spec fn time_ordered(timeline: Seq<Cue>) -> bool {
    forall|i: int, j: int|
        0 <= i <= j < timeline.len() ==> crate::binary64::at_most(
            (#[trigger] timeline[i]).simtime,
            (#[trigger] timeline[j]).simtime,
        )
}

/// The cue is at or before time `t`.
pub open spec fn due(cue: Cue, t: Binary64) -> bool {
    crate::binary64::at_most(cue.simtime, t)
}

/// Cue `shown` is at or before time `t` and the next one, if any, is not; where it is `None`, the
/// first cue, if any, is not. This much holds of a timeline in any order.
pub open spec fn turns_after(timeline: Seq<Cue>, t: Binary64, shown: Option<usize>) -> bool {
    match shown {
        Some(i) => {
            &&& i < timeline.len()
            &&& due(timeline[i as int], t)
            &&& i + 1 < timeline.len() ==> !due(timeline[i + 1], t)
        },
        None => timeline.len() > 0 ==> !due(timeline[0], t),
    }
}

/// Cue `shown` is the last at or before time `t`, and there is none where it is `None`.
pub open spec fn last_due(timeline: Seq<Cue>, t: Binary64, shown: Option<usize>) -> bool {
    &&& shown is Some ==> shown->0 < timeline.len()
    &&& forall|j: int|
        0 <= j < timeline.len() ==> (due(#[trigger] timeline[j], t) <==> shown is Some && j
            <= shown->0)
}

/// As time goes on, the cue shown never goes back, and from the last cue's time on it is the
/// last one.
pub proof fn law_cues_follow_time(
    timeline: Seq<Cue>,
    t: Binary64,
    u: Binary64,
    at_t: Option<usize>,
    at_u: Option<usize>,
)
    requires
        crate::binary64::at_most(t, u),
        last_due(timeline, t, at_t),
        last_due(timeline, u, at_u),
    ensures
        at_t is Some ==> at_u is Some && at_t->0 <= at_u->0,
        timeline.len() > 0 && due(timeline.last(), t) ==> at_t == Some((timeline.len() - 1) as usize),
{
    if at_t is Some {
        let i = at_t->0 as int;
        assert(due(timeline[i], t));
        assert(due(timeline[i], u));
    }
    if timeline.len() > 0 && due(timeline.last(), t) {
        assert(due(timeline[timeline.len() - 1], t));
    }
}

/// Every cue is that of an epoch that the segments have.
pub proof fn lemma_cues_exist(segments: Seq<crate::frame_doc::SegmentModel>, n: int, k: int)
    requires
        n <= segments.len(),
        segments.len() <= usize::MAX,
        forall|s: int|
            0 <= s < segments.len() ==> (#[trigger] segments[s]).epochs.len() <= usize::MAX,
        0 <= k < cues(segments, n).len(),
    ensures
        crate::frame_doc::has_epoch(
            segments,
            cues(segments, n)[k].segment as int,
            cues(segments, n)[k].epoch as int,
        ),
        cues(segments, n)[k].simtime == segments[cues(
            segments,
            n,
        )[k].segment as int].epochs[cues(segments, n)[k].epoch as int].simtime,
    decreases n,
{
    let before = cues(segments, n - 1);
    let last = segments[n - 1].epochs.len() as int;
    if k < before.len() {
        lemma_cues_exist(segments, n - 1, k);
    } else {
        lemma_segment_cues(n - 1, segments[n - 1], last);
        assert(cues(segments, n)[k] == segment_cues(n - 1, segments[n - 1], last)[k
            - before.len()]);
    }
}

/// The cues of a segment are its epochs, in order.
proof fn lemma_segment_cues(s: int, segment: crate::frame_doc::SegmentModel, n: int)
    requires
        0 <= n <= segment.epochs.len(),
        n <= usize::MAX,
        0 <= s <= usize::MAX,
    ensures
        segment_cues(s, segment, n).len() == n,
        forall|e: int|
            0 <= e < n ==> {
                let cue = #[trigger] segment_cues(s, segment, n)[e];
                cue.segment == s && cue.epoch == e && cue.simtime == segment.epochs[e].simtime
            },
    decreases n,
{
    if n > 0 {
        lemma_segment_cues(s, segment, n - 1);
        assert forall|e: int| 0 <= e < n implies ({
            let cue = #[trigger] segment_cues(s, segment, n)[e];
            cue.segment == s && cue.epoch == e && cue.simtime == segment.epochs[e].simtime
        }) by {
            if e < n - 1 {
                assert(segment_cues(s, segment, n)[e] == segment_cues(s, segment, n - 1)[e]);
            }
        }
    }
}

/// Lay the epochs of a series out in play order.
fn flatten(frames: &astrodyn_frame_doc::FrameSeries) -> (r: Vec<Cue>)
    ensures
        r@ == cues(
            crate::frame_doc::series_segments(*frames),
            crate::frame_doc::series_segments(*frames).len() as int,
        ),
        crate::frame_doc::series_segments(*frames).len() <= usize::MAX,
        forall|s: int|
            0 <= s < crate::frame_doc::series_segments(*frames).len() ==> (
            #[trigger] crate::frame_doc::series_segments(*frames)[s]).epochs.len() <= usize::MAX,
{
    let ghost segments = crate::frame_doc::series_segments(*frames);
    let mut timeline: Vec<Cue> = Vec::new();
    let total: usize = segment_count(frames);
    let mut s: usize = 0;
    while s < total
        invariant
            segments == crate::frame_doc::series_segments(*frames),
            total == segments.len(),
            s <= total,
            timeline@ == cues(segments, s as int),
            forall|i: int| 0 <= i < s ==> (#[trigger] segments[i]).epochs.len() <= usize::MAX,
        decreases total - s,
    {
        let count: usize = epoch_count(frames, s);
        let mut e: usize = 0;
        assert(timeline@ =~= cues(segments, s as int) + segment_cues(
            s as int,
            segments[s as int],
            0,
        ));
        while e < count
            invariant
                segments == crate::frame_doc::series_segments(*frames),
                s < segments.len(),
                count == segments[s as int].epochs.len(),
                e <= count,
                timeline@ == cues(segments, s as int) + segment_cues(
                    s as int,
                    segments[s as int],
                    e as int,
                ),
            decreases count - e,
        {
            let simtime: Binary64 = epoch_simtime(frames, s, e);
            timeline.push(Cue { segment: s, epoch: e, simtime });
            assert(timeline@ =~= cues(segments, s as int) + segment_cues(
                s as int,
                segments[s as int],
                e + 1,
            ));
            e = e + 1;
        }
        s = s + 1;
    }
    timeline
}

impl Replay {
    /// The recording.
    pub closed spec fn recording(self) -> SceneSeries {
        self.series
    }

    /// The cues, in play order.
    pub closed spec fn cue_seq(self) -> Seq<Cue> {
        self.timeline@
    }

    /// The recording is valid, and the cues are those of its epochs.
    pub closed spec fn wf(self) -> bool {
        let segments = crate::frame_doc::series_segments(self.series.frames);
        &&& crate::scene_doc::series_ok(self.series)
        &&& crate::frame_doc::unique(crate::frame_doc::series_uids(self.series.frames))
        &&& crate::frame_doc::segments_fit(
            segments,
            crate::frame_doc::series_uids(self.series.frames).len() as int,
        )
        &&& segments.len() <= usize::MAX
        &&& forall|s: int|
            0 <= s < segments.len() ==> (#[trigger] segments[s]).epochs.len() <= usize::MAX
        &&& self.timeline@ == cues(segments, segments.len() as int)
    }

    /// Build a player from a recording, validating it once and flattening its timeline.
    pub fn new(series: SceneSeries) -> (r: Result<Self, ApplyError>)
        ensures
            r is Ok <==> crate::scene_doc::series_ok(series),
            r matches Ok(p) ==> p.wf() && p.recording() == series && p.cue_seq() == cues(
                crate::frame_doc::series_segments(series.frames),
                crate::frame_doc::series_segments(series.frames).len() as int,
            ),
            r matches Err(e) ==> e is Scene && crate::scene_doc::series_error(e->Scene_0, series),
    {
        match series.validate() {
            Ok(()) => {},
            Err(e) => {
                return Err(ApplyError::Scene(e));
            },
        }
        let timeline: Vec<Cue> = flatten(&series.frames);
        Ok(Replay { series, timeline })
    }

    /// Number of cues in the timeline.
    pub fn len(&self) -> (r: usize)
        ensures
            r == self.cue_seq().len(),
    {
        self.timeline.len()
    }

    /// Whether the recording has no epochs.
    pub fn is_empty(&self) -> (r: bool)
        ensures
            r == (self.cue_seq().len() == 0),
    {
        self.timeline.len() == 0
    }

    /// The first and last cue times, or `None` if there are no cues.
    pub fn time_bounds(&self) -> (r: Option<(Binary64, Binary64)>)
        ensures
            r == if self.cue_seq().len() == 0 {
                None
            } else {
                Some((self.cue_seq()[0].simtime, self.cue_seq().last().simtime))
            },
    {
        if self.timeline.len() == 0 {
            None
        } else {
            Some((self.timeline[0].simtime, self.timeline[self.timeline.len() - 1].simtime))
        }
    }

    /// The recording, to inspect its table of identities.
    pub fn series(&self) -> (r: &SceneSeries)
        ensures
            *r == self.recording(),
    {
        &self.series
    }

    /// The cue to show at sim time `t`: the last one at or before it, or `None` if `t` precedes
    /// the first. On a timeline that is not in order, some cue at or before `t` whose successor
    /// is not, or `None` if the first is not.
    pub fn cue_at_time(&self, t: Binary64) -> (r: Option<usize>)
        ensures
            turns_after(self.cue_seq(), t, r),
            time_ordered(self.cue_seq()) ==> last_due(self.cue_seq(), t, r),
    {
        let ghost line = self.timeline@;
        let mut lo: usize = 0;
        let mut hi: usize = self.timeline.len();
        while lo < hi
            invariant
                line == self.timeline@,
                lo <= hi <= line.len(),
                lo > 0 ==> due(line[lo - 1], t),
                hi < line.len() ==> !due(line[hi as int], t),
            decreases hi - lo,
        {
            let mid: usize = lo + (hi - lo) / 2;
            if self.timeline[mid].simtime.le(t) {
                lo = mid + 1;
            } else {
                hi = mid;
            }
        }
        proof {
            if time_ordered(line) {
                assert forall|j: int| 0 <= j < line.len() implies (due(#[trigger] line[j], t) <==> j
                    < lo) by {
                    if j < lo {
                        assert(crate::binary64::at_most(line[j].simtime, line[lo - 1].simtime));
                    } else {
                        assert(crate::binary64::at_most(line[lo as int].simtime, line[j].simtime));
                    }
                }
            }
        }
        if lo == 0 {
            None
        } else {
            Some(lo - 1)
        }
    }

    /// Apply the cue at `index`, its frames and objects.
    pub fn apply_cue(&self, index: usize, w: &SceneWriter, store: &mut SceneStore) -> (r: Result<
        (),
        ApplyError,
    >)
        requires
            self.wf(),
            old(store).wf(),
        ensures
            final(store).wf(),
            cue_applied(r, *old(store), *final(store), w.target()@, *self, index as int),
            r is Ok ==> crate::frame_doc::layer_is_finite(final(store)@[w.target()@]),
    {
        if index >= self.timeline.len() {
            return Err(ApplyError::NoSuchEpoch);
        }
        let cue: Cue = self.timeline[index];
        proof {
            let segments = crate::frame_doc::series_segments(self.series.frames);
            lemma_cues_exist(segments, segments.len() as int, index as int);
            let f = segments[cue.segment as int];
            let len = crate::frame_doc::series_uids(self.series.frames).len() as int;
            assert(crate::frame_doc::epoch_fits(f.epochs[cue.epoch as int], len));
            crate::frame_doc::law_complete_rows_provide_every_parent(
                f.epochs[cue.epoch as int].rows,
                len,
            );
        }
        apply_row(&self.series, cue.segment, cue.epoch, w, store)
    }

    /// Apply the frame at or before sim time `t`, and say which cue it was, chosen as by
    /// [`Replay::cue_at_time`]; `None`, with nothing applied, if `t` precedes the first cue.
    pub fn apply_at(&self, t: Binary64, w: &SceneWriter, store: &mut SceneStore) -> (r: Result<
        Option<usize>,
        ApplyError,
    >)
        requires
            self.wf(),
            old(store).wf(),
        ensures
            final(store).wf(),
            r is Ok,
            turns_after(self.cue_seq(), t, r->Ok_0),
            r->Ok_0 matches Some(i) ==> cue_applied(
                Ok(()),
                *old(store),
                *final(store),
                w.target()@,
                *self,
                i as int,
            ) && crate::frame_doc::layer_is_finite(final(store)@[w.target()@]),
            r->Ok_0 is None ==> *final(store) == *old(store),
            time_ordered(self.cue_seq()) ==> last_due(self.cue_seq(), t, r->Ok_0),
    {
        match self.cue_at_time(t) {
            Some(i) => {
                match self.apply_cue(i, w, store) {
                    Ok(()) => Ok(Some(i)),
                    Err(e) => Err(e),
                }
            },
            None => Ok(None),
        }
    }
}

/// What comes of applying cue `k`: where there is one, the writer's layer holds exactly that
/// epoch's frames and objects; past the end the scene is as it was.
pub open spec fn cue_applied(
    r: Result<(), ApplyError>,
    before: SceneStore,
    after: SceneStore,
    target: Seq<char>,
    replay: Replay,
    k: int,
) -> bool {
    let series = replay.recording();
    if k >= replay.cue_seq().len() {
        r is Err && r->Err_0 is NoSuchEpoch && after == before
    } else {
        let (s, e) = (replay.cue_seq()[k].segment as int, replay.cue_seq()[k].epoch as int);
        &&& r is Ok
        &&& crate::frame_doc::has_epoch(crate::frame_doc::series_segments(series.frames), s, e)
        &&& after@.contains_key(target) && after@ == before@.insert(target, after@[target])
        &&& crate::scene_doc::layer_of_scene(
            after@[target],
            crate::frame_doc::series_uids(series.frames),
            crate::frame_doc::series_segments(series.frames)[s].epochs[e].rows,
            series.objects@[s].epochs@[e].objects@,
        )
    }
}

/// Every epoch of a recording has a cue, with its segment, its place and its time.
pub proof fn law_every_epoch_has_a_cue(
    segments: Seq<crate::frame_doc::SegmentModel>,
    n: int,
    s: int,
    e: int,
)
    requires
        0 <= s < n <= segments.len(),
        segments.len() <= usize::MAX,
        forall|j: int|
            0 <= j < segments.len() ==> (#[trigger] segments[j]).epochs.len() <= usize::MAX,
        0 <= e < segments[s].epochs.len(),
    ensures
        exists|k: int|
            0 <= k < cues(segments, n).len() && (#[trigger] cues(segments, n)[k]).segment == s
                && cues(segments, n)[k].epoch == e && cues(segments, n)[k].simtime
                == segments[s].epochs[e].simtime,
    decreases n,
{
    let before = cues(segments, n - 1);
    let own = segment_cues(n - 1, segments[n - 1], segments[n - 1].epochs.len() as int);
    let all = cues(segments, n);
    if s == n - 1 {
        lemma_segment_cues(n - 1, segments[n - 1], segments[n - 1].epochs.len() as int);
        assert(all[before.len() + e] == own[e]);
    } else {
        law_every_epoch_has_a_cue(segments, n - 1, s, e);
        let k = choose|k: int|
            0 <= k < before.len() && (#[trigger] before[k]).segment == s && before[k].epoch == e
                && before[k].simtime == segments[s].epochs[e].simtime;
        assert(all[k] == before[k]);
    }
}

/// Cues stand in play order: by segment, and within a segment by epoch, each once.
pub proof fn law_cues_are_in_play_order(segments: Seq<crate::frame_doc::SegmentModel>, n: int)
    requires
        0 <= n <= segments.len(),
        segments.len() <= usize::MAX,
        forall|j: int|
            0 <= j < segments.len() ==> (#[trigger] segments[j]).epochs.len() <= usize::MAX,
    ensures
        forall|k: int| 0 <= k < cues(segments, n).len() ==> (#[trigger] cues(segments, n)[k]).segment
            < n,
        forall|a: int, b: int|
            0 <= a < b < cues(segments, n).len() ==> {
                let (x, y) = (#[trigger] cues(segments, n)[a], #[trigger] cues(segments, n)[b]);
                x.segment < y.segment || (x.segment == y.segment && x.epoch < y.epoch)
            },
    decreases n,
{
    if n > 0 {
        law_cues_are_in_play_order(segments, n - 1);
        let before = cues(segments, n - 1);
        let own = segment_cues(n - 1, segments[n - 1], segments[n - 1].epochs.len() as int);
        let all = cues(segments, n);
        lemma_segment_cues(n - 1, segments[n - 1], segments[n - 1].epochs.len() as int);
        assert forall|k: int| 0 <= k < all.len() implies (#[trigger] all[k]).segment < n by {
            if k < before.len() {
                assert(all[k] == before[k]);
            } else {
                assert(all[k] == own[k - before.len()]);
            }
        }
        assert forall|a: int, b: int| 0 <= a < b < all.len() implies ({
            let (x, y) = (#[trigger] all[a], #[trigger] all[b]);
            x.segment < y.segment || (x.segment == y.segment && x.epoch < y.epoch)
        }) by {
            if b < before.len() {
                assert(all[a] == before[a] && all[b] == before[b]);
            } else if a < before.len() {
                assert(all[a] == before[a] && all[b] == own[b - before.len()]);
            } else {
                assert(all[a] == own[a - before.len()] && all[b] == own[b - before.len()]);
            }
        }
    }
}

/// In an ordered recording the cue shown is the last whose time has come: it is at or before the
/// time asked for and every later one after it, and where none is shown all are after it.
pub proof fn law_shown_cue_is_the_latest_due(
    timeline: Seq<Cue>,
    t: Binary64,
    shown: Option<usize>,
    j: int,
)
    requires
        last_due(timeline, t, shown),
        crate::binary64::finite(t),
        0 <= j < timeline.len(),
        crate::binary64::finite(timeline[j].simtime),
    ensures
        shown is Some ==> shown->0 < timeline.len(),
        shown is Some && j <= shown->0 ==> crate::binary64::scaled(timeline[j].simtime)
            <= crate::binary64::scaled(t),
        shown is Some && j > shown->0 ==> crate::binary64::scaled(timeline[j].simtime)
            > crate::binary64::scaled(t),
        shown is None ==> crate::binary64::scaled(timeline[j].simtime) > crate::binary64::scaled(t),
{
    crate::binary64::law_rank_orders_values(timeline[j].simtime, t);
    assert(due(timeline[j], t) <==> shown is Some && j <= shown->0);
}

/// In any recording the cue shown is at or before the time asked for and the one that follows it
/// is not, and where none is shown the first is after it.
pub proof fn law_shown_cue_gives_way_to_the_next(timeline: Seq<Cue>, t: Binary64, shown: Option<usize>)
    requires
        turns_after(timeline, t, shown),
        crate::binary64::finite(t),
        forall|j: int|
            0 <= j < timeline.len() ==> crate::binary64::finite((#[trigger] timeline[j]).simtime),
    ensures
        match shown {
            Some(i) => {
                &&& i < timeline.len()
                &&& crate::binary64::scaled(timeline[i as int].simtime) <= crate::binary64::scaled(t)
                &&& i + 1 < timeline.len() ==> crate::binary64::scaled(timeline[i + 1].simtime)
                    > crate::binary64::scaled(t)
            },
            None => timeline.len() > 0 ==> crate::binary64::scaled(timeline[0].simtime)
                > crate::binary64::scaled(t),
        },
{
    match shown {
        Some(i) => {
            crate::binary64::law_rank_orders_values(timeline[i as int].simtime, t);
            if i + 1 < timeline.len() {
                crate::binary64::law_rank_orders_values(timeline[i + 1].simtime, t);
            }
        },
        None => {
            if timeline.len() > 0 {
                crate::binary64::law_rank_orders_values(timeline[0].simtime, t);
            }
        },
    }
}

/// Applying a cue puts the frames and objects of its own epoch, at the cue's time in the
/// recording, into the writer's layer and changes no other; past the end nothing changes.
pub proof fn law_cues_apply_their_own_epoch(
    r: Result<(), ApplyError>,
    before: SceneStore,
    after: SceneStore,
    target: Seq<char>,
    replay: Replay,
    k: int,
)
    requires
        cue_applied(r, before, after, target, replay, k),
        k >= 0,
    ensures
        k >= replay.cue_seq().len() ==> r is Err && r->Err_0 is NoSuchEpoch && after == before,
        k < replay.cue_seq().len() ==> {
            let cue = replay.cue_seq()[k];
            let (s, e) = (cue.segment as int, cue.epoch as int);
            let f = crate::frame_doc::series_segments(replay.recording().frames);
            let uids = crate::frame_doc::series_uids(replay.recording().frames);
            &&& r is Ok
            &&& s < f.len() && e < f[s].epochs.len()
            &&& after@.contains_key(target) && after@[target].epoch is Some
            &&& crate::frame_doc::frames_of(
                after@[target].frames,
                uids,
                f[s].epochs[e].rows,
                after@[target].epoch->0,
            )
            &&& crate::scene_doc::objects_of(
                after@[target].objects,
                uids,
                replay.recording().objects@[s].epochs@[e].objects@,
            )
            &&& f[s].epochs[e].rows.len() > 0 && f[s].epochs[e].rows[0].epoch is Some
                ==> after@[target].epoch->0.secs() == f[s].epochs[e].rows[0].epoch->0
            &&& forall|l: Seq<char>|
                l != target ==> (#[trigger] after@.contains_key(l) <==> before@.contains_key(l)) && (
                before@.contains_key(l) ==> after@[l] == before@[l])
        },
{
    if k < replay.cue_seq().len() {
        assert(after@ == before@.insert(target, after@[target]));
    }
}

/// At no finite time: all cues are due at the end of time, none before its beginning, and none at
/// what is not a number.
pub proof fn law_cues_beyond_numbers(cue: Cue, t: Binary64)
    requires
        !crate::binary64::finite(t),
        crate::binary64::finite(cue.simtime),
    ensures
        due(cue, t) <==> !crate::binary64::nan(t) && !crate::binary64::negative(t),
{
    crate::binary64::law_order_at_the_edges(cue.simtime, t);
    crate::binary64::law_order_at_the_edges(t, cue.simtime);
}

} // verus!
