//! Mines: the explosion that a mine shows when the player touches it.

use vstd::prelude::*;

use crate::animation::{playable_clips, Animation, AnimationData, AnimationState, Repeat};
use crate::player::is_clip;
use crate::timer::millis;

verus! {

/// The one clip of an explosion: eight frames, played once.
pub fn explosion_clips() -> (clips: Vec<AnimationData>)
    ensures
        clips@.len() == 1,
        is_clip(clips@[0], 8, 70, AnimationState::Idle, 0, Repeat::OneShot),
        playable_clips(clips@),
{
    let explode = AnimationData {
        frames: 8,
        interval: millis(70),
        state: AnimationState::Idle,
        atlas_index: 0,
        repeat: Repeat::OneShot,
    };
    vec![explode]
}

/// The animation of an explosion: it starts on the first frame.
pub fn explosion_animation() -> (animation: Animation)
    ensures
        animation.wf(),
        animation@.clips.len() == 1,
        is_clip(animation@.clips[0], 8, 70, AnimationState::Idle, 0, Repeat::OneShot),
        animation@.current == 0,
        animation@.frame == 0,
        !animation@.finished,
        !animation@.timer.finished,
        animation@.timer.elapsed == 0,
        animation@.timer.duration == 70_000_000,
{
    Animation::new(explosion_clips())
}

} // verus!
