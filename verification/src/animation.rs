//! Sprite animation: a set of clips, the clip that plays, the frame it is
//! at, and the timer that paces the frames.

use bevy::time::Timer;
use std::time::Duration;
use vstd::prelude::*;

use crate::timer::{
    duration_nanos, fresh, repeating_timer, ticked, timer_is_finished, timer_remaining, timer_runs,
    timer_tick, timer_view, TimerView,
};

verus! {

/// What the character is doing, as far as its sprite shows it.
#[derive(Clone, Copy, Debug, PartialEq, Eq, Structural)]
pub enum AnimationState {
    Walking,
    Idle,
    Falling,
    Jumping,
    Dying,
}

/// Whether a clip starts over after its last frame.
#[derive(Clone, Copy, Debug, PartialEq, Eq, Structural)]
pub enum Repeat {
    OneShot,
    Loop,
}

/// One clip: `frames` frames of the atlas from `atlas_index` on, each shown
/// for `interval`.
#[derive(Clone, Copy, Debug)]
pub struct AnimationData {
    pub frames: usize,
    pub interval: Duration,
    pub state: AnimationState,
    pub atlas_index: usize,
    pub repeat: Repeat,
}

impl AnimationData {
    /// A clip that can be played: a looping clip has a frame, and the atlas
    /// index of its last frame fits the machine word.
    pub open spec fn playable(self) -> bool {
        &&& self.repeat == Repeat::Loop ==> self.frames > 0
        &&& self.frames > 0 ==> self.atlas_index + self.frames - 1 <= usize::MAX
    }

    /// One more than the highest frame that the clip can be at.
    pub open spec fn frame_limit(self) -> int {
        if self.frames > 0 {
            self.frames as int
        } else {
            1
        }
    }
}

/// Clips that an animation can be made of: at least one, each playable.
pub open spec fn playable_clips(clips: Seq<AnimationData>) -> bool {
    clips.len() > 0 && forall|i: int| 0 <= i < clips.len() ==> (#[trigger] clips[i]).playable()
}

/// Decides `playable_clips`.
pub fn are_playable(clips: &Vec<AnimationData>) -> (playable: bool)
    ensures
        playable == playable_clips(clips@),
{
    if clips.len() == 0 {
        return false;
    }
    let mut index: usize = 0;
    while index < clips.len()
        invariant
            index <= clips.len(),
            forall|i: int| 0 <= i < index ==> (#[trigger] clips[i]).playable(),
        decreases clips.len() - index,
    {
        let clip = &clips[index];
        let looping_without_frames = clip.repeat == Repeat::Loop && clip.frames == 0;
        let last_frame_overflows = clip.frames > 0 && clip.atlas_index > usize::MAX - (clip.frames
            - 1);
        if looping_without_frames || last_frame_overflows {
            return false;
        }
        index = index + 1;
    }
    true
}

/// Whether one of the clips shows the state.
pub open spec fn has_clip(clips: Seq<AnimationData>, state: AnimationState) -> bool {
    exists|i: int| 0 <= i < clips.len() && (#[trigger] clips[i]).state == state
}

/// Whether `index` is the first clip that shows the state.
pub open spec fn is_first_clip(
    clips: Seq<AnimationData>,
    state: AnimationState,
    index: int,
) -> bool {
    &&& 0 <= index < clips.len()
    &&& clips[index].state == state
    &&& forall|i: int| 0 <= i < index ==> (#[trigger] clips[i]).state != state
}

/// The first clip that shows the state.
pub open spec fn first_clip(clips: Seq<AnimationData>, state: AnimationState) -> int {
    choose|index: int| is_first_clip(clips, state, index)
}

/// What an animation is, mathematically.
pub ghost struct AnimationView {
    pub timer: TimerView,
    pub frame: int,
    pub current: int,
    pub clips: Seq<AnimationData>,
    pub finished: bool,
}

impl AnimationView {
    /// The clip that plays.
    pub open spec fn clip(self) -> AnimationData {
        self.clips[self.current]
    }

    /// The clips are playable, one of them plays, and the frame is one of
    /// its frames.
    pub open spec fn wf(self) -> bool {
        &&& playable_clips(self.clips)
        &&& 0 <= self.current < self.clips.len()
        &&& 0 <= self.frame < self.clip().frame_limit()
    }

    /// The animation one frame on. A looping clip starts over after its last
    /// frame; a clip that plays once stays at its last frame and is finished.
    pub open spec fn advanced(self) -> AnimationView {
        if self.clip().repeat == Repeat::Loop {
            AnimationView { frame: (self.frame + 1) % (self.clip().frames as int), ..self }
        } else if self.frame + 1 >= self.clip().frames {
            AnimationView { finished: true, ..self }
        } else {
            AnimationView { frame: self.frame + 1, ..self }
        }
    }

    /// The animation after `delta` nanoseconds: the timer ticks, and where
    /// that finishes it the animation moves one frame on.
    pub open spec fn stepped(self, delta: nat) -> AnimationView {
        let waited = AnimationView { timer: ticked(self.timer, delta), ..self };
        if waited.timer.finished {
            waited.advanced()
        } else {
            waited
        }
    }

    /// The animation after a change to the first clip that shows `state`:
    /// the clip starts at frame 0 with a new timer, which is then ticked by
    /// its whole interval, so that the clip moves one frame on at once. An
    /// animation that shows `state` already stays as it is.
    pub open spec fn switched(self, state: AnimationState) -> AnimationView {
        if self.clip().state == state {
            self
        } else {
            let current = first_clip(self.clips, state);
            let interval = duration_nanos(self.clips[current].interval);
            AnimationView {
                timer: fresh(interval),
                frame: 0,
                current,
                clips: self.clips,
                finished: false,
            }.stepped(interval)
        }
    }
}

/// The animation of one sprite.
pub struct Animation {
    timer: Timer,
    frame: usize,
    current: usize,
    animations: Vec<AnimationData>,
    finished: bool,
}

impl View for Animation {
    type V = AnimationView;

    closed spec fn view(&self) -> AnimationView {
        AnimationView {
            timer: timer_view(self.timer),
            frame: self.frame as int,
            current: self.current as int,
            clips: self.animations@,
            finished: self.finished,
        }
    }
}

impl Animation {
    /// The animation can be played: its view is well formed and its timer
    /// runs.
    pub closed spec fn wf(&self) -> bool {
        self@.wf() && timer_runs(self.timer)
    }

    /// An animation of the given clips, which plays the first of them from
    /// its first frame.
    pub fn new(animations: Vec<AnimationData>) -> (animation: Animation)
        requires
            playable_clips(animations@),
        ensures
            animation.wf(),
            animation@ == (AnimationView {
                timer: fresh(duration_nanos(animations@[0].interval)),
                frame: 0,
                current: 0,
                clips: animations@,
                finished: false,
            }),
    {
        Animation {
            timer: repeating_timer(animations[0].interval),
            frame: 0,
            current: 0,
            animations,
            finished: false,
        }
    }

    /// Lets `delta` go by.
    pub fn update_timer(&mut self, delta: Duration)
        requires
            old(self).wf(),
        ensures
            final(self).wf(),
            final(self)@ == old(self)@.stepped(duration_nanos(delta)),
    {
        timer_tick(&mut self.timer, delta);
        if !timer_is_finished(&self.timer) {
            return ;
        }
        let clip = &self.animations[self.current];
        if clip.repeat == Repeat::Loop {
            self.frame = (self.frame + 1) % clip.frames;
        } else if self.frame + 1 >= clip.frames {
            self.finished = true;
        } else {
            self.frame += 1;
        }
    }

    /// Changes to the first clip that shows `state`, unless the animation
    /// shows `state` already.
    pub fn update_state(&mut self, state: AnimationState)
        requires
            old(self).wf(),
            old(self)@.clip().state == state || has_clip(old(self)@.clips, state),
        ensures
            final(self).wf(),
            final(self)@ == old(self)@.switched(state),
    {
        if self.state() != state {
            let mut index: usize = 0;
            while self.animations[index].state != state
                invariant
                    self.animations@ == old(self).animations@,
                    has_clip(self.animations@, state),
                    0 <= index < self.animations.len(),
                    forall|i: int|
                        0 <= i < index ==> (#[trigger] self.animations[i]).state != state,
                decreases self.animations.len() - index,
            {
                index = index + 1;
            }
            assert(is_first_clip(self@.clips, state, index as int));
            assert(first_clip(self@.clips, state) == index) by {
                let chosen = first_clip(self@.clips, state);
                assert(is_first_clip(self@.clips, state, chosen));
            }
            self.current = index;
            self.finished = false;
            self.timer = repeating_timer(self.animations[self.current].interval);
            self.frame = 0;
            let remaining = timer_remaining(&self.timer);
            self.update_timer(remaining);
        }
    }

    /// Whether one of the clips shows the state, so that the animation can
    /// change to it.
    pub fn shows(&self, state: AnimationState) -> (found: bool)
        ensures
            found == has_clip(self@.clips, state),
    {
        let mut index: usize = 0;
        while index < self.animations.len()
            invariant
                index <= self.animations.len(),
                forall|i: int| 0 <= i < index ==> (#[trigger] self.animations[i]).state != state,
            decreases self.animations.len() - index,
        {
            if self.animations[index].state == state {
                return true;
            }
            index = index + 1;
        }
        false
    }

    /// Whether the last tick moved the animation one frame on.
    pub fn changed(&self) -> (changed: bool)
        ensures
            changed == self@.timer.finished,
    {
        timer_is_finished(&self.timer)
    }

    /// Whether a clip that plays once has reached its end.
    pub fn is_finished(&self) -> (finished: bool)
        ensures
            finished == self@.finished,
    {
        self.finished
    }

    /// The state that the clip that plays shows.
    pub fn state(&self) -> (state: AnimationState)
        requires
            self.wf(),
        ensures
            state == self@.clip().state,
    {
        self.animations[self.current].state
    }

    /// The atlas index of the frame that shows.
    pub fn get_atlas_index(&self) -> (index: usize)
        requires
            self.wf(),
        ensures
            index == self@.clip().atlas_index + self@.frame,
    {
        self.animations[self.current].atlas_index + self.frame
    }
}

/// How far a jump has come, as the character controller tells it.
#[derive(Clone, Copy, Debug, PartialEq, Eq, Structural)]
pub enum JumpPhase {
    NoJump,
    StartingJump,
    SlowDownTooFastSlopeJump,
    MaintainingJump,
    StoppedMaintainingJump,
    FallSection,
}

/// What the character controller tells of the character's motion.
#[derive(Clone, Copy, Debug, PartialEq, Eq, Structural)]
pub enum Motion {
    /// A jump is the action under way.
    Jump(JumpPhase),
    /// No action is under way, and the controller has no walk basis yet.
    NoBasis,
    /// No action is under way, and the character stands on nothing.
    Airborne,
    /// No action is under way, and the character stands on something;
    /// `moving` tells whether it runs fast enough to show it.
    Grounded { moving: bool },
}

/// The state that the sprite is to show, or `None` where it is to stay as
/// it is. A dead character is dying whatever it does. A jump shows as
/// jumping until it falls, and not at all before it has begun.
pub open spec fn shown_state(dead: bool, motion: Motion) -> Option<AnimationState> {
    if dead {
        Some(AnimationState::Dying)
    } else {
        match motion {
            Motion::Jump(JumpPhase::NoJump) => None,
            Motion::Jump(JumpPhase::FallSection) => Some(AnimationState::Falling),
            Motion::Jump(_) => Some(AnimationState::Jumping),
            Motion::NoBasis => None,
            Motion::Airborne => Some(AnimationState::Falling),
            Motion::Grounded { moving } => if moving {
                Some(AnimationState::Walking)
            } else {
                Some(AnimationState::Idle)
            },
        }
    }
}

/// Decides `shown_state`.
pub fn state_to_show(dead: bool, motion: Motion) -> (state: Option<AnimationState>)
    ensures
        state == shown_state(dead, motion),
{
    if dead {
        return Some(AnimationState::Dying);
    }
    match motion {
        Motion::Jump(phase) => match phase {
            JumpPhase::NoJump => None,
            JumpPhase::StartingJump => Some(AnimationState::Jumping),
            JumpPhase::SlowDownTooFastSlopeJump => Some(AnimationState::Jumping),
            JumpPhase::MaintainingJump => Some(AnimationState::Jumping),
            JumpPhase::StoppedMaintainingJump => Some(AnimationState::Jumping),
            JumpPhase::FallSection => Some(AnimationState::Falling),
        },
        Motion::NoBasis => None,
        Motion::Airborne => Some(AnimationState::Falling),
        Motion::Grounded { moving } => {
            if moving {
                Some(AnimationState::Walking)
            } else {
                Some(AnimationState::Idle)
            }
        },
    }
}

/// Brings the animation of the character in line with what the character
/// does.
pub fn handle_animating(animation: &mut Animation, dead: bool, motion: Motion)
    requires
        old(animation).wf(),
        match shown_state(dead, motion) {
            Some(state) => old(animation)@.clip().state == state || has_clip(
                old(animation)@.clips,
                state,
            ),
            None => true,
        },
    ensures
        final(animation).wf(),
        final(animation)@ == match shown_state(dead, motion) {
            Some(state) => old(animation)@.switched(state),
            None => old(animation)@,
        },
{
    if let Some(state) = state_to_show(dead, motion) {
        animation.update_state(state);
    }
}

/// The atlas index that the sprite is to show: that of the animation's
/// frame where the last tick moved the animation on, else the one it shows.
pub fn update_animation_atlas(animation: &Animation, shown: usize) -> (index: usize)
    requires
        animation.wf(),
    ensures
        index == if animation@.timer.finished {
            animation@.clip().atlas_index + animation@.frame
        } else {
            shown as int
        },
{
    if animation.changed() {
        animation.get_atlas_index()
    } else {
        shown
    }
}

} // verus!
