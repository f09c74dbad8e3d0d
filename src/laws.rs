use crate::animatable::Animatable;
use crate::animation_timeline::AnimationTimeline;
use crate::animation_track::{
    count_at_or_before, interpolated, lemma_count_at_split, ping_pong_time, rem_toward_zero,
    resolved, AnimationTrack,
};
use crate::end_behavior::EndBehavior;
use vstd::arithmetic::div_mod::{lemma_mod_adds, lemma_mod_bound};
use vstd::prelude::*;

verus! {

/// Plain interpolation at the timestamp of a keyframe that is the last one at its
/// timestamp, and not the track's last, gives exactly that keyframe's value.
pub proof fn law_interpolate_at_keyframe<T: Animatable>(track: AnimationTrack<T>, i: int)
    requires
        track.wf(),
        0 <= i,
        i + 1 < track@.len(),
        track@[i].timestamp < track@[i + 1].timestamp,
    ensures
        interpolated(track@, track@[i].timestamp as int) == Some(track@[i].value),
{
    let s = track@;
    let t = s[i].timestamp as int;
    lemma_count_at_split(s, t, i + 1);
    T::lemma_blend_at_start(s[i].value, s[i + 1].value, (s[i + 1].timestamp - t) as nat);
}

/// Plain interpolation gives no value before the first keyframe, nor strictly after
/// the last one.
pub proof fn law_interpolate_outside_range<T: Animatable>(track: AnimationTrack<T>, time: i64)
    requires
        track.wf(),
        track@.len() > 0,
        time < track@[0].timestamp || time > track@.last().timestamp,
    ensures
        interpolated(track@, time as int) == None::<T>,
{
    let s = track@;
    if time < s[0].timestamp {
        lemma_count_at_split(s, time as int, 0);
    } else {
        lemma_count_at_split(s, time as int, s.len() as int);
    }
}

/// Plain interpolation exactly at the last keyframe's timestamp gives the last
/// keyframe's value on a track that spans some time, and no value on one whose
/// keyframes all share one timestamp.
pub proof fn law_interpolate_at_last_keyframe<T: Animatable>(track: AnimationTrack<T>)
    requires
        track.wf(),
        track@.len() > 0,
    ensures
        interpolated(track@, track@.last().timestamp as int) == (if track@[0].timestamp
            < track@.last().timestamp {
            Some(track@.last().value)
        } else {
            None::<T>
        }),
{
    let s = track@;
    lemma_count_at_split(s, s.last().timestamp as int, s.len() as int);
}

/// Before the last keyframe every end behavior leaves the plain interpolation alone.
pub proof fn law_before_end_is_plain<T: Animatable>(
    track: AnimationTrack<T>,
    time: i64,
    behavior: EndBehavior,
)
    requires
        track.wf(),
        track@.len() > 0,
        time < track@.last().timestamp,
    ensures
        resolved(track@, time as int, behavior) == interpolated(track@, time as int),
{
}

/// `Stop` holds the last keyframe's value at and after the end.
pub proof fn law_stop_holds_last_value<T: Animatable>(track: AnimationTrack<T>, time: i64)
    requires
        track.wf(),
        track@.len() > 0,
        time >= track@.last().timestamp,
    ensures
        resolved(track@, time as int, EndBehavior::Stop) == Some(track@.last().value),
{
}

/// `Loop` at and after the end interpolates at the time wrapped by the duration.
pub proof fn law_loop_wraps<T: Animatable>(track: AnimationTrack<T>, time: i64)
    requires
        track.wf(),
        track@.len() > 0,
        time >= track@.last().timestamp,
        time >= 0,
        track@.last().timestamp > track@[0].timestamp,
    ensures
        resolved(track@, time as int, EndBehavior::Loop) == interpolated(
            track@,
            time as int % (track@.last().timestamp - track@[0].timestamp),
        ),
{
}

/// `Reverse` gives the same value at two times past the end that mirror each other
/// within a back-and-forth cycle (their sum is a whole number of cycles).
pub proof fn law_reverse_mirrors<T: Animatable>(track: AnimationTrack<T>, t1: i64, t2: i64)
    requires
        track.wf(),
        track@.len() > 0,
        t1 >= track@.last().timestamp,
        t2 >= track@.last().timestamp,
        t1 >= 0,
        t2 >= 0,
        track@.last().timestamp > track@[0].timestamp,
        (t1 + t2) % (2 * (track@.last().timestamp - track@[0].timestamp)) == 0,
    ensures
        resolved(track@, t1 as int, EndBehavior::Reverse) == resolved(
            track@,
            t2 as int,
            EndBehavior::Reverse,
        ),
{
    let d = track@.last().timestamp - track@[0].timestamp;
    let m = 2 * d;
    let c1 = t1 as int % m;
    let c2 = t2 as int % m;
    lemma_mod_bound(t1 as int, m);
    lemma_mod_bound(t2 as int, m);
    lemma_mod_adds(t1 as int, t2 as int, m);
    let q = (c1 + c2) / m;
    assert(c1 + c2 == 0 || c1 + c2 == m) by (nonlinear_arith)
        requires
            c1 + c2 == m * q,
            0 <= c1 < m,
            0 <= c2 < m,
    ;
    assert(ping_pong_time(t1 as int, d) == ping_pong_time(t2 as int, d));
}

/// `Rebound` snaps to the first keyframe's value at any time at or after the end.
pub proof fn law_rebound_snaps_to_first<T: Animatable>(track: AnimationTrack<T>, time: i64)
    requires
        track.wf(),
        track@.len() > 0,
        time >= track@.last().timestamp,
    ensures
        resolved(track@, time as int, EndBehavior::Rebound) == Some(track@[0].value),
{
}

/// An empty track has no value at any time, with or without an end behavior.
pub proof fn law_empty_track_has_no_value<T: Animatable>(
    track: AnimationTrack<T>,
    time: i64,
    behavior: EndBehavior,
)
    requires
        track@.len() == 0,
    ensures
        interpolated(track@, time as int) == None::<T>,
        resolved(track@, time as int, behavior) == None::<T>,
{
    assert(count_at_or_before(track@, time as int) == 0);
}

/// When all keyframes share one timestamp, `Stop`, `Loop` and `Reverse` all hold the
/// last keyframe's value at and after it.
pub proof fn law_zero_duration_holds_value<T: Animatable>(
    track: AnimationTrack<T>,
    time: i64,
    behavior: EndBehavior,
)
    requires
        track.wf(),
        track@.len() > 0,
        track@.last().timestamp == track@[0].timestamp,
        time >= track@.last().timestamp,
        behavior == EndBehavior::Stop || behavior == EndBehavior::Loop || behavior
            == EndBehavior::Reverse,
    ensures
        resolved(track@, time as int, behavior) == Some(track@.last().value),
{
}

/// In one update a track with its own behavior is evaluated under it, and a track
/// without one under the timeline's default.
pub proof fn law_override_beats_default<T: Animatable>(
    timeline: AnimationTimeline<T>,
    i: int,
    j: int,
    time: i64,
)
    requires
        timeline.wf(),
        0 <= i < timeline.track_seq().len(),
        0 <= j < timeline.track_seq().len(),
        timeline.track_seq()[i].behavior_override() is Some,
        timeline.track_seq()[i].behavior_override()->0 != EndBehavior::UseTimelineDefault,
        timeline.track_seq()[j].behavior_override() is None,
    ensures
        timeline.track_value(i, time as int) == resolved(
            timeline.track_seq()[i]@,
            time as int,
            timeline.track_seq()[i].behavior_override()->0,
        ),
        timeline.track_value(j, time as int) == resolved(
            timeline.track_seq()[j]@,
            time as int,
            timeline.default_behavior(),
        ),
{
}

} // verus!
