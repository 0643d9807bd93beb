//! The player character: what the keys ask of it, when a jump is heard, and
//! the clips of its sprite.

use vstd::prelude::*;

use crate::animation::{has_clip, playable_clips, Animation, AnimationData, AnimationState, Repeat};
use crate::timer::{duration_nanos, millis};

verus! {

/// The keys that steer the character, each held down or not.
#[derive(Clone, Copy, Debug, PartialEq, Eq, Structural)]
pub struct Keys {
    pub left: bool,
    pub right: bool,
    pub jump: bool,
}

/// What the keys ask of the character.
#[derive(Clone, Copy, Debug, PartialEq, Eq, Structural)]
pub struct Steering {
    /// -1 to the left, 1 to the right, 0 to stand.
    pub direction: i8,
    /// Whether the sprite is to look left or right from now on; `None`
    /// where it keeps looking where it looks.
    pub flip_x: Option<bool>,
    /// Whether the character is to jump.
    pub jump: bool,
}

/// The steering that the keys ask for: left and right cancel each other,
/// and the sprite turns only while the character moves.
pub open spec fn steering_of(keys: Keys) -> Steering {
    let direction: i8 = if keys.left == keys.right {
        0i8
    } else if keys.left {
        -1i8
    } else {
        1i8
    };
    Steering {
        direction,
        flip_x: if direction == 0 {
            None
        } else {
            Some(direction < 0)
        },
        jump: keys.jump,
    }
}

/// Reads the keys.
pub fn apply_controls(keys: Keys) -> (steering: Steering)
    ensures
        steering == steering_of(keys),
{
    let mut direction: i8 = 0;
    if keys.left {
        direction = direction - 1;
    }
    if keys.right {
        direction = direction + 1;
    }
    let flip_x = if direction != 0 {
        Some(direction < 0)
    } else {
        None
    };
    Steering { direction, flip_x, jump: keys.jump }
}

/// While the jump key is held: whether the jump is to be heard now, and
/// what to remember for the next time. A jump is heard once, when the key
/// is held while the character stands on the ground; it can be heard again
/// after the character has been in the air with the key held. `airborne` is
/// `None` where the controller cannot tell, which counts as in the air.
pub fn jump_sound_due(just_jumped: &mut bool, airborne: Option<bool>) -> (due: bool)
    ensures
        due == (airborne == Some(false) && !*old(just_jumped)),
        *final(just_jumped) == (airborne == Some(false)),
{
    let in_air = match airborne {
        Some(in_air) => in_air,
        None => true,
    };
    if !in_air {
        let due = !*just_jumped;
        *just_jumped = true;
        due
    } else {
        *just_jumped = false;
        false
    }
}

/// Whether the clip is the one described, with its interval in
/// milliseconds.
pub open spec fn is_clip(
    clip: AnimationData,
    frames: usize,
    interval_millis: nat,
    state: AnimationState,
    atlas_index: usize,
    repeat: Repeat,
) -> bool {
    &&& clip.frames == frames
    &&& duration_nanos(clip.interval) == interval_millis * 1_000_000
    &&& clip.state == state
    &&& clip.atlas_index == atlas_index
    &&& clip.repeat == repeat
}

/// The clips of the player's sprite, as its atlas holds them.
pub open spec fn are_player_clips(clips: Seq<AnimationData>) -> bool {
    &&& clips.len() == 5
    &&& is_clip(clips[0], 6, 80, AnimationState::Walking, 0, Repeat::Loop)
    &&& is_clip(clips[1], 4, 150, AnimationState::Idle, 6, Repeat::Loop)
    &&& is_clip(clips[2], 3, 150, AnimationState::Falling, 10, Repeat::Loop)
    &&& is_clip(clips[3], 3, 150, AnimationState::Jumping, 13, Repeat::Loop)
    &&& is_clip(clips[4], 3, 80, AnimationState::Dying, 16, Repeat::OneShot)
}

/// The clips of the player's sprite: one for each state.
pub fn player_clips() -> (clips: Vec<AnimationData>)
    ensures
        are_player_clips(clips@),
        playable_clips(clips@),
        forall|state: AnimationState| has_clip(clips@, state),
{
    let run = AnimationData {
        frames: 6,
        interval: millis(80),
        state: AnimationState::Walking,
        atlas_index: 0,
        repeat: Repeat::Loop,
    };
    let idle = AnimationData {
        frames: 4,
        interval: millis(150),
        state: AnimationState::Idle,
        atlas_index: 6,
        repeat: Repeat::Loop,
    };
    let fall = AnimationData {
        frames: 3,
        interval: millis(150),
        state: AnimationState::Falling,
        atlas_index: 10,
        repeat: Repeat::Loop,
    };
    let jump = AnimationData {
        frames: 3,
        interval: millis(150),
        state: AnimationState::Jumping,
        atlas_index: 13,
        repeat: Repeat::Loop,
    };
    let death = AnimationData {
        frames: 3,
        interval: millis(80),
        state: AnimationState::Dying,
        atlas_index: 16,
        repeat: Repeat::OneShot,
    };
    let clips = vec![run, idle, fall, jump, death];
    proof {
        assert forall|state: AnimationState| has_clip(clips@, state) by {
            match state {
                AnimationState::Walking => assert(clips@[0].state == state),
                AnimationState::Idle => assert(clips@[1].state == state),
                AnimationState::Falling => assert(clips@[2].state == state),
                AnimationState::Jumping => assert(clips@[3].state == state),
                AnimationState::Dying => assert(clips@[4].state == state),
            }
        }
    }
    clips
}

/// The animation of the player's sprite: it starts on the first frame of
/// the walking clip.
pub fn player_animation() -> (animation: Animation)
    ensures
        animation.wf(),
        are_player_clips(animation@.clips),
        forall|state: AnimationState| has_clip(animation@.clips, state),
        animation@.current == 0,
        animation@.frame == 0,
        !animation@.finished,
        !animation@.timer.finished,
        animation@.timer.elapsed == 0,
        animation@.timer.duration == 80_000_000,
{
    Animation::new(player_clips())
}

} // verus!
