use keyframe_animation::{Animatable, AnimationTrack, EndBehavior};

fn ramp() -> AnimationTrack<i64> {
    let mut track = AnimationTrack::new();
    track.add_keyframe(0, 0);
    track.add_keyframe(10, 10);
    track
}

#[test]
fn boundary_snap() {
    let track = ramp();
    assert_eq!(track.interpolate(5), Some(5));
    assert_eq!(track.interpolate(0), Some(0));
    // exactly at the last keyframe the plain path gives its value; after it, none
    assert_eq!(track.interpolate(10), Some(10));
    assert_eq!(track.interpolate(11), None);
    assert_eq!(track.interpolate_with_behavior(10, &EndBehavior::Stop), Some(10));
}

#[test]
fn stop_clamp() {
    let track = ramp();
    assert_eq!(track.interpolate_with_behavior(15, &EndBehavior::Stop), Some(10));
    // before the first keyframe the plain path applies, which has no bracketing pair
    assert_eq!(track.interpolate_with_behavior(-5, &EndBehavior::Stop), None);
    assert_eq!(track.interpolate(-5), None);
}

#[test]
fn loop_wraparound() {
    let track = ramp();
    assert_eq!(track.interpolate_with_behavior(25, &EndBehavior::Loop), Some(5));
    assert_eq!(track.interpolate_with_behavior(25, &EndBehavior::Loop), track.interpolate(5));
    assert_eq!(track.interpolate_with_behavior(37, &EndBehavior::Loop), Some(7));
}

#[test]
fn reverse_ping_pong() {
    let track = ramp();
    assert_eq!(track.interpolate_with_behavior(15, &EndBehavior::Reverse), Some(5));
    assert_eq!(track.interpolate_with_behavior(25, &EndBehavior::Reverse), Some(5));
    assert_eq!(track.interpolate_with_behavior(12, &EndBehavior::Reverse), Some(8));
    assert_eq!(track.interpolate_with_behavior(28, &EndBehavior::Reverse), Some(8));
}

#[test]
fn reverse_turning_points_hold_end_values() {
    let track = ramp();
    assert_eq!(track.interpolate_with_behavior(10, &EndBehavior::Reverse), Some(10));
    assert_eq!(track.interpolate_with_behavior(30, &EndBehavior::Reverse), Some(10));
    assert_eq!(track.interpolate_with_behavior(50, &EndBehavior::Reverse), Some(10));
    assert_eq!(track.interpolate_with_behavior(20, &EndBehavior::Reverse), Some(0));
    assert_eq!(track.interpolate_with_behavior(10, &EndBehavior::Loop), Some(0));
    assert_eq!(track.interpolate_with_behavior(10, &EndBehavior::Stop), Some(10));
    assert_eq!(track.interpolate_with_behavior(10, &EndBehavior::Rebound), Some(0));
}

#[test]
fn rebound_snap() {
    let track = ramp();
    assert_eq!(track.interpolate_with_behavior(100, &EndBehavior::Rebound), Some(0));
    assert_eq!(track.interpolate_with_behavior(10, &EndBehavior::Rebound), Some(0));
    assert_eq!(track.interpolate_with_behavior(5, &EndBehavior::Rebound), Some(5));
}

#[test]
fn empty_track() {
    let track: AnimationTrack<i64> = AnimationTrack::new();
    for t in [-100i64, 0, 5, 100] {
        assert_eq!(track.interpolate(t), None);
        assert_eq!(track.interpolate_with_behavior(t, &EndBehavior::Stop), None);
        assert_eq!(track.interpolate_with_behavior(t, &EndBehavior::Loop), None);
        assert_eq!(track.interpolate_with_behavior(t, &EndBehavior::Reverse), None);
        assert_eq!(track.interpolate_with_behavior(t, &EndBehavior::Rebound), None);
        assert_eq!(track.interpolate_with_behavior(t, &EndBehavior::Extrapolate), None);
    }
}

#[test]
fn degenerate_duration() {
    let mut track = AnimationTrack::new();
    track.add_keyframe(5, 5i64);
    assert_eq!(track.interpolate_with_behavior(50, &EndBehavior::Loop), Some(5));
    assert_eq!(track.interpolate_with_behavior(50, &EndBehavior::Reverse), Some(5));
    assert_eq!(track.interpolate_with_behavior(50, &EndBehavior::Stop), Some(5));
    assert_eq!(track.interpolate(5), None);
    assert_eq!(track.interpolate(50), None);
}

#[test]
fn shared_timestamp_keyframes_have_zero_duration() {
    let mut track = AnimationTrack::new();
    track.add_keyframe(3, 1i64);
    track.add_keyframe(3, 2i64);
    assert_eq!(track.interpolate_with_behavior(9, &EndBehavior::Loop), Some(2));
    assert_eq!(track.interpolate_with_behavior(9, &EndBehavior::Rebound), Some(1));
}

#[test]
fn extrapolate_holds_last_value() {
    let track = ramp();
    assert_eq!(track.interpolate_with_behavior(15, &EndBehavior::Extrapolate), Some(10));
}

#[test]
fn keyframes_added_out_of_order_are_sorted() {
    let mut track = AnimationTrack::new();
    track.add_keyframe(20, 40i64);
    track.add_keyframe(0, 0i64);
    track.add_keyframe(10, 10i64);
    assert_eq!(track.interpolate(5), Some(5));
    assert_eq!(track.interpolate(15), Some(25));
    assert_eq!(track.interpolate_with_behavior(20, &EndBehavior::Rebound), Some(0));
}

#[test]
fn equal_timestamps_keep_insertion_order() {
    let mut track = AnimationTrack::new();
    track.add_keyframe(0, 0i64);
    track.add_keyframe(10, 10i64);
    track.add_keyframe(20, 30i64);
    track.add_keyframe(10, 20i64);
    // the later keyframe at 10 starts the next segment
    assert_eq!(track.interpolate(10), Some(20));
    assert_eq!(track.interpolate(15), Some(25));
    // the earlier keyframe at 10 ends the previous segment
    assert_eq!(track.interpolate(9), Some(9));
}

#[test]
fn loop_with_negative_first_timestamp() {
    let mut track = AnimationTrack::new();
    track.add_keyframe(-10, 0i64);
    track.add_keyframe(10, 20i64);
    assert_eq!(track.interpolate_with_behavior(25, &EndBehavior::Loop), Some(15));
    // the wrapped time lands on the last keyframe, whose value the plain path gives
    assert_eq!(track.interpolate_with_behavior(10, &EndBehavior::Loop), Some(20));
}

#[test]
fn negative_query_time_keeps_sign_of_remainder() {
    let mut track = AnimationTrack::new();
    track.add_keyframe(-30, 0i64);
    track.add_keyframe(-10, 20i64);
    // -5 % 20 is -5 with the sign kept, which is past the last keyframe
    assert_eq!(track.interpolate_with_behavior(-5, &EndBehavior::Loop), None);
    assert_eq!(track.interpolate_with_behavior(-5, &EndBehavior::Stop), Some(20));
}

#[test]
fn largest_query_time() {
    let track = ramp();
    assert_eq!(track.interpolate_with_behavior(i64::MAX, &EndBehavior::Loop), Some(7));
    assert_eq!(track.interpolate_with_behavior(i64::MAX, &EndBehavior::Reverse), Some(7));
    assert_eq!(track.interpolate_with_behavior(i64::MAX, &EndBehavior::Stop), Some(10));
}

#[test]
fn widest_track_span() {
    let mut track = AnimationTrack::new();
    track.add_keyframe(i64::MIN, i64::MIN);
    track.add_keyframe(i64::MAX, i64::MAX);
    assert_eq!(track.interpolate(0), Some(0));
    assert_eq!(track.interpolate(i64::MIN), Some(i64::MIN));
    // the folded time is the query time itself, on the last keyframe
    assert_eq!(track.interpolate_with_behavior(i64::MAX, &EndBehavior::Reverse), Some(i64::MAX));
    assert_eq!(track.interpolate_with_behavior(i64::MAX, &EndBehavior::Stop), Some(i64::MAX));
    assert_eq!(track.interpolate_with_behavior(i64::MAX, &EndBehavior::Rebound), Some(i64::MIN));
}

#[test]
fn set_end_behavior_records_override() {
    let mut track = ramp();
    assert_eq!(track.own_end_behavior(), None);
    track.set_end_behavior(EndBehavior::Loop);
    assert_eq!(track.own_end_behavior(), Some(EndBehavior::Loop));
    assert_eq!(track.end_behavior, Some(EndBehavior::Loop));
    track.set_end_behavior(EndBehavior::UseTimelineDefault);
    assert_eq!(track.own_end_behavior(), None);
}

#[test]
fn integer_blend_values() {
    assert_eq!(<i64 as Animatable>::interpolate(&0, &10, 1, 3), 3);
    assert_eq!(<i64 as Animatable>::interpolate(&10, &0, 1, 3), 7);
    assert_eq!(<i64 as Animatable>::interpolate(&-10, &10, 3, 4), 5);
    assert_eq!(<i64 as Animatable>::interpolate(&4, &9, 0, 7), 4);
    assert_eq!(<i64 as Animatable>::interpolate(&4, &9, 7, 7), 9);
    // fractions above one extend past the end value
    assert_eq!(<i64 as Animatable>::interpolate(&0, &10, 3, 2), 15);
    assert_eq!(<i64 as Animatable>::interpolate(&10, &0, 3, 2), -5);
    assert_eq!(<i64 as Animatable>::interpolate(&0, &1, i64::MAX as u64, 1), i64::MAX);
    assert_eq!(<i64 as Animatable>::interpolate(&i64::MIN, &i64::MAX, 1, 2), -1);
    assert_eq!(<i64 as Animatable>::interpolate(&i64::MAX, &i64::MIN, 1, 2), 0);
    assert_eq!(
        <i64 as Animatable>::interpolate(&i64::MIN, &i64::MAX, u64::MAX, u64::MAX),
        i64::MAX
    );
}
