use crate::animatable::Animatable;
use crate::end_behavior::EndBehavior;
use crate::keyframe::Keyframe;
use vstd::prelude::*;

verus! {

/// Keyframe timestamps never decrease along the sequence.
pub open spec fn sorted_by_time<T>(s: Seq<Keyframe<T>>) -> bool {
    forall|i: int, j: int| 0 <= i <= j < s.len() ==> s[i].timestamp <= s[j].timestamp
}

/// How many keyframes lie at or before time `t`. On a sorted sequence these form a
/// prefix, so this is also the index of the first keyframe strictly after `t`.
pub open spec fn count_at_or_before<T>(s: Seq<Keyframe<T>>, t: int) -> nat
    decreases s.len(),
{
    if s.len() == 0 {
        0
    } else {
        count_at_or_before(s.drop_last(), t) + if s.last().timestamp <= t {
            1nat
        } else {
            0nat
        }
    }
}

/// The value at time `t` by blending the bracketing pair: the last keyframe at or
/// before `t` and the first keyframe after it. Exactly at the last keyframe's
/// timestamp, on a track that spans some time, the last keyframe's value. No value
/// otherwise: before the first keyframe, strictly after the last, or where all
/// keyframes share one timestamp.
pub open spec fn interpolated<T: Animatable>(s: Seq<Keyframe<T>>, t: int) -> Option<T> {
    let k = count_at_or_before(s, t) as int;
    if 0 < k < s.len() {
        let a = s[k - 1];
        let b = s[k];
        Some(
            T::blend(
                a.value,
                b.value,
                (t - a.timestamp) as nat,
                (b.timestamp - a.timestamp) as nat,
            ),
        )
    } else if s.len() > 0 && t == s.last().timestamp && s[0].timestamp < t {
        Some(s.last().value)
    } else {
        None
    }
}

/// Remainder of `t` by `m` that keeps the sign of `t` (Rust's `%`).
pub open spec fn rem_toward_zero(t: int, m: int) -> int {
    if t >= 0 {
        t % m
    } else {
        -((-t) % m)
    }
}

/// Time within a back-and-forth cycle of length `2 * d`, folded into the forward half.
pub open spec fn ping_pong_time(t: int, d: int) -> int {
    let c = rem_toward_zero(t, 2 * d);
    if c > d {
        2 * d - c
    } else {
        c
    }
}

/// The value at time `t` under end behavior `b`. At or after the last keyframe the
/// behavior decides; before it the plain interpolation applies.
/// (`UseTimelineDefault` is never evaluated: callers resolve it first.)
pub open spec fn resolved<T: Animatable>(s: Seq<Keyframe<T>>, t: int, b: EndBehavior) -> Option<T> {
    if s.len() == 0 {
        None
    } else if t >= s.last().timestamp {
        let d = s.last().timestamp - s[0].timestamp;
        match b {
            EndBehavior::Loop => if d > 0 {
                interpolated(s, rem_toward_zero(t, d))
            } else {
                Some(s.last().value)
            },
            EndBehavior::Reverse => if d > 0 {
                interpolated(s, ping_pong_time(t, d))
            } else {
                Some(s.last().value)
            },
            EndBehavior::Rebound => Some(s[0].value),
            _ => Some(s.last().value),
        }
    } else {
        interpolated(s, t)
    }
}

/// On a sequence split at `i` into keyframes at or before `t` and keyframes after it,
/// the count at or before `t` is `i`.
pub proof fn lemma_count_at_split<T>(s: Seq<Keyframe<T>>, t: int, i: int)
    requires
        0 <= i <= s.len(),
        forall|j: int| 0 <= j < i ==> s[j].timestamp <= t,
        forall|j: int| i <= j < s.len() ==> s[j].timestamp > t,
    ensures
        count_at_or_before(s, t) == i,
    decreases s.len(),
{
    if s.len() > 0 {
        let p = s.drop_last();
        if i == s.len() {
            lemma_count_at_split(p, t, i - 1);
        } else {
            lemma_count_at_split(p, t, i);
        }
    }
}

/// On a sorted sequence the count at or before `t` splits it as above.
pub proof fn lemma_count_splits<T>(s: Seq<Keyframe<T>>, t: int)
    requires
        sorted_by_time(s),
    ensures
        count_at_or_before(s, t) <= s.len(),
        forall|j: int| 0 <= j < count_at_or_before(s, t) ==> s[j].timestamp <= t,
        forall|j: int| count_at_or_before(s, t) <= j < s.len() ==> s[j].timestamp > t,
    decreases s.len(),
{
    if s.len() > 0 {
        let p = s.drop_last();
        lemma_count_splits(p, t);
        if s.last().timestamp > t {
            assert forall|j: int| 0 <= j < count_at_or_before(s, t) implies s[j].timestamp <= t by {
                assert(s[j] == p[j]);
            }
            assert forall|j: int| count_at_or_before(s, t) <= j < s.len() implies s[j].timestamp > t by {
                if j < s.len() - 1 {
                    assert(s[j] == p[j]);
                }
            }
        } else {
            assert(count_at_or_before(p, t) == p.len()) by {
                if count_at_or_before(p, t) < p.len() {
                    let j = count_at_or_before(p, t) as int;
                    assert(s[j].timestamp <= s.last().timestamp);
                    assert(s[j] == p[j]);
                }
            }
            assert forall|j: int| 0 <= j < count_at_or_before(s, t) implies s[j].timestamp <= t by {
                if j < s.len() - 1 {
                    assert(s[j] == p[j]);
                }
            }
        }
    }
}

/// Rust's `%` of `t` by a positive modulus, computed on magnitudes.
fn rem_toward_zero_exec(t: i64, m: u128) -> (r: i64)
    requires
        m > 0,
    ensures
        r == rem_toward_zero(t as int, m as int),
        t >= 0 ==> 0 <= r <= t,
        t < 0 ==> t <= r <= 0,
{
    if t >= 0 {
        let x: u128 = t as u128;
        proof {
            assert(x % m <= x) by (nonlinear_arith)
                requires
                    m > 0,
            ;
        }
        (x % m) as i64
    } else {
        let x: u128 = (-(t as i128)) as u128;
        proof {
            assert(x % m <= x) by (nonlinear_arith)
                requires
                    m > 0,
            ;
        }
        (-((x % m) as i128)) as i64
    }
}

/// An ordered sequence of keyframes for one animated quantity, with an optional
/// end behavior of its own.
pub struct AnimationTrack<T> {
    keyframes: Vec<Keyframe<T>>,
    pub end_behavior: Option<EndBehavior>,
}

impl<T> View for AnimationTrack<T> {
    type V = Seq<Keyframe<T>>;

    closed spec fn view(&self) -> Seq<Keyframe<T>> {
        self.keyframes@
    }
}

impl<T> AnimationTrack<T> {
    /// This track's own end behavior, if any.
    pub closed spec fn behavior_override(&self) -> Option<EndBehavior> {
        self.end_behavior
    }

    /// This track's own end behavior, if any.
    pub fn own_end_behavior(&self) -> (r: Option<EndBehavior>)
        ensures
            r == self.behavior_override(),
    {
        self.end_behavior
    }
}

impl<T: Animatable> AnimationTrack<T> {
    /// The keyframes are kept sorted by timestamp.
    pub open spec fn wf(&self) -> bool {
        sorted_by_time(self@)
    }

    /// An empty track with no end behavior of its own.
    pub fn new() -> (r: Self)
        ensures
            r@.len() == 0,
            r.behavior_override().is_none(),
            r.wf(),
    {
        AnimationTrack { keyframes: Vec::new(), end_behavior: None }
    }

    /// Sets this track's own end behavior; `UseTimelineDefault` removes it.
    pub fn set_end_behavior(&mut self, behavior: EndBehavior)
        ensures
            final(self)@ == old(self)@,
            final(self).behavior_override() == (if behavior == EndBehavior::UseTimelineDefault {
                None
            } else {
                Some(behavior)
            }),
    {
        self.end_behavior = match behavior {
            EndBehavior::UseTimelineDefault => None,
            other => Some(other),
        };
    }

    /// Index of the first keyframe strictly after `time`, by binary search.
    fn upper_bound(&self, time: i64) -> (k: usize)
        requires
            self.wf(),
        ensures
            k == count_at_or_before(self@, time as int),
            k <= self@.len(),
    {
        let mut lo: usize = 0;
        let mut hi: usize = self.keyframes.len();
        while lo < hi
            invariant
                0 <= lo <= hi <= self@.len(),
                self.wf(),
                forall|j: int| 0 <= j < lo ==> self@[j].timestamp <= time,
                forall|j: int| hi <= j < self@.len() ==> self@[j].timestamp > time,
            decreases hi - lo,
        {
            let mid: usize = lo + (hi - lo) / 2;
            if self.keyframes[mid].timestamp <= time {
                lo = mid + 1;
            } else {
                hi = mid;
            }
        }
        proof {
            lemma_count_at_split(self@, time as int, lo as int);
        }
        lo
    }

    /// Inserts a keyframe after every keyframe at or before its timestamp, so the
    /// sequence stays sorted and keyframes sharing a timestamp keep insertion order.
    pub fn add_keyframe(&mut self, timestamp: i64, value: T)
        requires
            old(self).wf(),
        ensures
            final(self).wf(),
            final(self)@ == old(self)@.insert(
                count_at_or_before(old(self)@, timestamp as int) as int,
                Keyframe { timestamp, value },
            ),
            final(self).behavior_override() == old(self).behavior_override(),
    {
        let k = self.upper_bound(timestamp);
        proof {
            lemma_count_splits(self@, timestamp as int);
        }
        self.keyframes.insert(k, Keyframe { timestamp, value });
    }

    /// Index of the end frame of the bracketing pair for `time`, if there is one.
    fn get_interpolation_frames(&self, time: i64) -> (r: Option<usize>)
        requires
            self.wf(),
        ensures
            ({
                let k = count_at_or_before(self@, time as int) as int;
                r == (if 0 < k < self@.len() {
                    Some(k as usize)
                } else {
                    None::<usize>
                })
            }),
    {
        let k = self.upper_bound(time);
        if 0 < k && k < self.keyframes.len() {
            Some(k)
        } else {
            None
        }
    }

    /// The value at `time` blended from the bracketing keyframes, or the last value
    /// exactly at the last keyframe of a track that spans some time; no value when
    /// the track is empty, `time` is before the first keyframe or after the last, or
    /// all keyframes share one timestamp.
    pub fn interpolate(&self, time: i64) -> (r: Option<T>)
        requires
            self.wf(),
        ensures
            r == interpolated(self@, time as int),
    {
        if self.keyframes.len() == 0 {
            return None;
        }
        match self.get_interpolation_frames(time) {
            None => {
                proof {
                    lemma_count_splits(self@, time as int);
                }
                let n = self.keyframes.len();
                if time == self.keyframes[n - 1].timestamp && self.keyframes[0].timestamp < time {
                    Some(self.value_at(n - 1))
                } else {
                    None
                }
            },
            Some(k) => {
                proof {
                    lemma_count_splits(self@, time as int);
                }
                let start = &self.keyframes[k - 1];
                let end = &self.keyframes[k];
                let num: u64 = (time as i128 - start.timestamp as i128) as u64;
                let den: u64 = (end.timestamp as i128 - start.timestamp as i128) as u64;
                proof {
                    T::lemma_can_blend_within(start.value, end.value, num as nat, den as nat);
                }
                Some(T::interpolate(&start.value, &end.value, num, den))
            },
        }
    }

    /// A copy of the value of keyframe `i`.
    fn value_at(&self, i: usize) -> (r: T)
        requires
            i < self@.len(),
        ensures
            r == self@[i as int].value,
    {
        let r = self.keyframes[i].value.clone();
        proof {
            T::lemma_clone_exact(self@[i as int].value, r);
        }
        r
    }

    /// The value at `time` under `end_behavior`: at or after the last keyframe the
    /// behavior decides (`Extrapolate` holds the last value like `Stop`); before it
    /// the plain interpolation applies.
    pub fn interpolate_with_behavior(&self, time: i64, end_behavior: &EndBehavior) -> (r: Option<T>)
        requires
            self.wf(),
            *end_behavior != EndBehavior::UseTimelineDefault,
        ensures
            r == resolved(self@, time as int, *end_behavior),
    {
        let n = self.keyframes.len();
        if n == 0 {
            return None;
        }
        let first = self.keyframes[0].timestamp;
        let last = self.keyframes[n - 1].timestamp;
        if time < last {
            return self.interpolate(time);
        }
        let duration: u128 = (last as i128 - first as i128) as u128;
        match end_behavior {
            EndBehavior::Loop => {
                if duration > 0 {
                    let looped_time = rem_toward_zero_exec(time, duration);
                    self.interpolate(looped_time)
                } else {
                    Some(self.value_at(n - 1))
                }
            },
            EndBehavior::Reverse => {
                if duration > 0 {
                    let cycle = rem_toward_zero_exec(time, 2 * duration);
                    let reverse_time: i64 = if cycle as i128 > duration as i128 {
                        (2 * duration as i128 - cycle as i128) as i64
                    } else {
                        cycle
                    };
                    self.interpolate(reverse_time)
                } else {
                    Some(self.value_at(n - 1))
                }
            },
            EndBehavior::Rebound => Some(self.value_at(0)),
            _ => Some(self.value_at(n - 1)),
        }
    }
}

} // verus!
