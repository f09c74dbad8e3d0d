pub mod animatable;
pub mod animation_timeline;
pub mod animation_track;
pub mod end_behavior;
pub mod keyframe;
pub mod laws;

pub use animatable::{Animatable, AnimatableProperties};
pub use animation_timeline::AnimationTimeline;
pub use animation_track::AnimationTrack;
pub use end_behavior::EndBehavior;
pub use keyframe::Keyframe;
