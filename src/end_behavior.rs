use vstd::prelude::*;

verus! {

/// What a track produces for a query time at or after its last keyframe.
#[derive(Clone, Copy, Debug, PartialEq, Eq, Structural)]
pub enum EndBehavior {
    /// Hold the last keyframe's value.
    Stop,
    /// Recognised but without slope-based semantics: resolved as `Stop`.
    Extrapolate,
    /// Play back and forth (ping-pong) over the track's duration.
    Reverse,
    /// Wrap the query time around the track's duration.
    Loop,
    /// Snap back to the first keyframe's value.
    Rebound,
    /// No override: the timeline's default applies. Never evaluated by a track.
    UseTimelineDefault,
}

} // verus!
