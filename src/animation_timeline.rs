use crate::animatable::Animatable;
use crate::animation_track::{resolved, AnimationTrack};
use crate::end_behavior::EndBehavior;
use vstd::prelude::*;

verus! {

/// The behavior a track is evaluated with: its own override, or else the default.
/// An override of `UseTimelineDefault` counts as no override.
pub open spec fn effective_behavior(own: Option<EndBehavior>, default: EndBehavior) -> EndBehavior {
    match own {
        Some(b) => if b == EndBehavior::UseTimelineDefault {
            default
        } else {
            b
        },
        None => default,
    }
}

/// Tracks evaluated together at one query time, sharing a default end behavior.
pub struct AnimationTimeline<T> where T: Animatable {
    pub tracks: Vec<AnimationTrack<T>>,
    default_end_behavior: EndBehavior,
}

impl<T: Animatable> AnimationTimeline<T> {
    /// The end behavior of tracks without one of their own.
    pub closed spec fn default_behavior(&self) -> EndBehavior {
        self.default_end_behavior
    }

    /// The tracks, in the order they were added.
    pub closed spec fn track_seq(&self) -> Seq<AnimationTrack<T>> {
        self.tracks@
    }

    /// Every track is well formed, and the default is a real behavior.
    pub open spec fn wf(&self) -> bool {
        &&& self.default_behavior() != EndBehavior::UseTimelineDefault
        &&& forall|i: int| 0 <= i < self.track_seq().len() ==> #[trigger] self.track_seq()[i].wf()
    }

    /// The value of track `i` at `time`, as `update` reports it.
    pub open spec fn track_value(&self, i: int, time: int) -> Option<T> {
        let track = self.track_seq()[i];
        resolved(track@, time, effective_behavior(track.behavior_override(), self.default_behavior()))
    }

    /// An empty timeline whose default end behavior is `Stop`.
    pub fn new() -> (r: Self)
        ensures
            r.wf(),
            r.track_seq().len() == 0,
            r.default_behavior() == EndBehavior::Stop,
    {
        AnimationTimeline { tracks: Vec::new(), default_end_behavior: EndBehavior::Stop }
    }

    /// Sets the default end behavior; `UseTimelineDefault` is no behavior and leaves
    /// the default as it was.
    pub fn set_default_end_behavior(&mut self, behavior: EndBehavior)
        requires
            old(self).wf(),
        ensures
            final(self).wf(),
            final(self).track_seq() == old(self).track_seq(),
            final(self).default_behavior() == (if behavior == EndBehavior::UseTimelineDefault {
                old(self).default_behavior()
            } else {
                behavior
            }),
    {
        match behavior {
            EndBehavior::UseTimelineDefault => {},
            other => {
                self.default_end_behavior = other;
            },
        }
        assert(self.track_seq() == old(self).track_seq());
    }

    /// Appends a track.
    pub fn add_track(&mut self, track: AnimationTrack<T>)
        requires
            old(self).wf(),
            track.wf(),
        ensures
            final(self).wf(),
            final(self).track_seq() == old(self).track_seq().push(track),
            final(self).default_behavior() == old(self).default_behavior(),
    {
        self.tracks.push(track);
        proof {
            assert forall|i: int| 0 <= i < self.track_seq().len() implies #[trigger] self.track_seq()[i].wf() by {
                if i < old(self).track_seq().len() {
                    assert(self.track_seq()[i] == old(self).track_seq()[i]);
                }
            }
        }
    }

    /// Evaluates every track at `time`, in the order they were added, each under its
    /// own end behavior or else the timeline's default.
    pub fn update(&self, current_time: i64) -> (r: Vec<Option<T>>)
        requires
            self.wf(),
        ensures
            r@.len() == self.track_seq().len(),
            forall|i: int| 0 <= i < r@.len() ==> r@[i] == self.track_value(i, current_time as int),
    {
        let mut out: Vec<Option<T>> = Vec::new();
        let mut i: usize = 0;
        while i < self.tracks.len()
            invariant
                self.wf(),
                i <= self.tracks@.len(),
                out@.len() == i,
                forall|j: int| 0 <= j < i ==> out@[j] == self.track_value(j, current_time as int),
            decreases self.tracks@.len() - i,
        {
            let track = &self.tracks[i];
            let behavior = match track.own_end_behavior() {
                Some(EndBehavior::UseTimelineDefault) => self.default_end_behavior,
                Some(b) => b,
                None => self.default_end_behavior,
            };
            assert(self.track_seq()[i as int].wf());
            out.push(track.interpolate_with_behavior(current_time, &behavior));
            i = i + 1;
        }
        out
    }
}

} // verus!
