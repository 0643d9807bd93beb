use std::time::Duration;

use platformer_core::animation::{
    are_playable, handle_animating, state_to_show, update_animation_atlas, Animation,
    AnimationData, AnimationState, JumpPhase, Motion, Repeat,
};
use platformer_core::mine::{explosion_animation, explosion_clips};
use platformer_core::player::{player_animation, player_clips};

fn clip(
    frames: usize,
    millis: u64,
    state: AnimationState,
    atlas_index: usize,
    repeat: Repeat,
) -> AnimationData {
    AnimationData { frames, interval: Duration::from_millis(millis), state, atlas_index, repeat }
}

fn ms(millis: u64) -> Duration {
    Duration::from_millis(millis)
}

#[test]
fn new_animation_plays_the_first_clip_from_its_first_frame() {
    let animation = Animation::new(vec![
        clip(4, 100, AnimationState::Idle, 6, Repeat::Loop),
        clip(6, 80, AnimationState::Walking, 0, Repeat::Loop),
    ]);
    assert!(animation.state() == AnimationState::Idle);
    assert_eq!(animation.get_atlas_index(), 6);
    assert!(!animation.changed());
    assert!(!animation.is_finished());
}

#[test]
fn frame_moves_on_when_the_interval_has_gone_by() {
    let mut animation = Animation::new(vec![clip(4, 100, AnimationState::Idle, 6, Repeat::Loop)]);
    animation.update_timer(ms(40));
    assert!(!animation.changed());
    assert_eq!(animation.get_atlas_index(), 6);
    animation.update_timer(ms(59));
    assert!(!animation.changed());
    assert_eq!(animation.get_atlas_index(), 6);
    animation.update_timer(ms(1));
    assert!(animation.changed());
    assert_eq!(animation.get_atlas_index(), 7);
    animation.update_timer(ms(10));
    assert!(!animation.changed());
    assert_eq!(animation.get_atlas_index(), 7);
}

#[test]
fn time_left_over_counts_towards_the_next_frame() {
    let mut animation = Animation::new(vec![clip(4, 100, AnimationState::Idle, 0, Repeat::Loop)]);
    animation.update_timer(ms(130));
    assert_eq!(animation.get_atlas_index(), 1);
    animation.update_timer(ms(69));
    assert!(!animation.changed());
    animation.update_timer(ms(1));
    assert!(animation.changed());
    assert_eq!(animation.get_atlas_index(), 2);
}

#[test]
fn one_tick_moves_one_frame_however_long_it_is() {
    let mut animation = Animation::new(vec![clip(6, 80, AnimationState::Walking, 0, Repeat::Loop)]);
    animation.update_timer(ms(800));
    assert!(animation.changed());
    assert_eq!(animation.get_atlas_index(), 1);
}

#[test]
fn looping_clip_starts_over_after_its_last_frame() {
    let mut animation = Animation::new(vec![clip(3, 50, AnimationState::Falling, 10, Repeat::Loop)]);
    let mut seen = Vec::new();
    for _ in 0..7 {
        animation.update_timer(ms(50));
        seen.push(animation.get_atlas_index());
    }
    assert_eq!(seen, vec![11, 12, 10, 11, 12, 10, 11]);
    assert!(!animation.is_finished());
}

#[test]
fn one_shot_clip_stays_on_its_last_frame_and_is_finished() {
    let mut animation = explosion_animation();
    for frame in 1..8 {
        animation.update_timer(ms(70));
        assert_eq!(animation.get_atlas_index(), frame);
        assert!(!animation.is_finished());
    }
    animation.update_timer(ms(70));
    assert_eq!(animation.get_atlas_index(), 7);
    assert!(animation.is_finished());
    animation.update_timer(ms(70));
    assert_eq!(animation.get_atlas_index(), 7);
    assert!(animation.is_finished());
}

#[test]
fn one_shot_clip_without_frames_finishes_on_the_first_frame_change() {
    let mut animation = Animation::new(vec![clip(0, 20, AnimationState::Dying, 3, Repeat::OneShot)]);
    animation.update_timer(ms(19));
    assert!(!animation.is_finished());
    animation.update_timer(ms(1));
    assert!(animation.is_finished());
    assert_eq!(animation.get_atlas_index(), 3);
}

#[test]
fn clip_without_interval_moves_on_at_every_tick() {
    let mut animation = Animation::new(vec![clip(3, 0, AnimationState::Idle, 0, Repeat::Loop)]);
    animation.update_timer(ms(0));
    assert!(animation.changed());
    assert_eq!(animation.get_atlas_index(), 1);
    animation.update_timer(ms(5));
    assert_eq!(animation.get_atlas_index(), 2);
}

#[test]
fn change_of_state_starts_the_clip_and_moves_it_one_frame_on() {
    let mut animation = player_animation();
    assert!(animation.state() == AnimationState::Walking);
    animation.update_timer(ms(80));
    animation.update_timer(ms(80));
    assert_eq!(animation.get_atlas_index(), 2);
    animation.update_state(AnimationState::Idle);
    assert!(animation.state() == AnimationState::Idle);
    assert!(animation.changed());
    assert_eq!(animation.get_atlas_index(), 7);
    animation.update_timer(ms(149));
    assert!(!animation.changed());
    animation.update_timer(ms(1));
    assert!(animation.changed());
    assert_eq!(animation.get_atlas_index(), 8);
}

#[test]
fn change_to_the_state_that_shows_changes_nothing() {
    let mut animation = player_animation();
    animation.update_timer(ms(80));
    animation.update_timer(ms(30));
    assert_eq!(animation.get_atlas_index(), 1);
    assert!(!animation.changed());
    animation.update_state(AnimationState::Walking);
    assert_eq!(animation.get_atlas_index(), 1);
    assert!(!animation.changed());
    animation.update_timer(ms(50));
    assert!(animation.changed());
    assert_eq!(animation.get_atlas_index(), 2);
}

#[test]
fn change_of_state_clears_finished_and_takes_the_first_clip_of_that_state() {
    let mut animation = Animation::new(vec![
        clip(1, 10, AnimationState::Dying, 20, Repeat::OneShot),
        clip(2, 10, AnimationState::Idle, 30, Repeat::Loop),
        clip(5, 10, AnimationState::Idle, 40, Repeat::Loop),
    ]);
    animation.update_timer(ms(10));
    assert!(animation.is_finished());
    animation.update_state(AnimationState::Idle);
    assert!(!animation.is_finished());
    assert_eq!(animation.get_atlas_index(), 31);
    animation.update_state(AnimationState::Dying);
    assert!(animation.is_finished());
    assert_eq!(animation.get_atlas_index(), 20);
}

#[test]
fn dying_clip_of_the_player_plays_once() {
    let mut animation = player_animation();
    animation.update_state(AnimationState::Dying);
    assert_eq!(animation.get_atlas_index(), 17);
    assert!(!animation.is_finished());
    animation.update_timer(ms(80));
    assert_eq!(animation.get_atlas_index(), 18);
    assert!(!animation.is_finished());
    animation.update_timer(ms(80));
    assert_eq!(animation.get_atlas_index(), 18);
    assert!(animation.is_finished());
}

#[test]
fn player_clips_are_the_rows_of_the_atlas() {
    let clips = player_clips();
    let expected = [
        (6, 80, AnimationState::Walking, 0, Repeat::Loop),
        (4, 150, AnimationState::Idle, 6, Repeat::Loop),
        (3, 150, AnimationState::Falling, 10, Repeat::Loop),
        (3, 150, AnimationState::Jumping, 13, Repeat::Loop),
        (3, 80, AnimationState::Dying, 16, Repeat::OneShot),
    ];
    assert_eq!(clips.len(), expected.len());
    for (clip, (frames, millis, state, atlas_index, repeat)) in clips.iter().zip(expected) {
        assert_eq!(clip.frames, frames);
        assert_eq!(clip.interval, Duration::from_millis(millis));
        assert!(clip.state == state);
        assert_eq!(clip.atlas_index, atlas_index);
        assert!(clip.repeat == repeat);
    }
}

#[test]
fn explosion_has_one_clip_of_eight_frames() {
    let clips = explosion_clips();
    assert_eq!(clips.len(), 1);
    assert_eq!(clips[0].frames, 8);
    assert_eq!(clips[0].interval, Duration::from_millis(70));
    assert!(clips[0].state == AnimationState::Idle);
    assert_eq!(clips[0].atlas_index, 0);
    assert!(clips[0].repeat == Repeat::OneShot);
    let animation = explosion_animation();
    assert_eq!(animation.get_atlas_index(), 0);
    assert!(!animation.is_finished());
}

#[test]
fn dead_character_is_dying_whatever_it_does() {
    for motion in [
        Motion::Jump(JumpPhase::NoJump),
        Motion::Jump(JumpPhase::MaintainingJump),
        Motion::NoBasis,
        Motion::Airborne,
        Motion::Grounded { moving: true },
    ] {
        assert_eq!(state_to_show(true, motion), Some(AnimationState::Dying));
    }
}

#[test]
fn living_character_shows_what_it_does() {
    let cases = [
        (Motion::Jump(JumpPhase::NoJump), None),
        (Motion::Jump(JumpPhase::StartingJump), Some(AnimationState::Jumping)),
        (Motion::Jump(JumpPhase::SlowDownTooFastSlopeJump), Some(AnimationState::Jumping)),
        (Motion::Jump(JumpPhase::MaintainingJump), Some(AnimationState::Jumping)),
        (Motion::Jump(JumpPhase::StoppedMaintainingJump), Some(AnimationState::Jumping)),
        (Motion::Jump(JumpPhase::FallSection), Some(AnimationState::Falling)),
        (Motion::NoBasis, None),
        (Motion::Airborne, Some(AnimationState::Falling)),
        (Motion::Grounded { moving: true }, Some(AnimationState::Walking)),
        (Motion::Grounded { moving: false }, Some(AnimationState::Idle)),
    ];
    for (motion, expected) in cases {
        assert_eq!(state_to_show(false, motion), expected);
    }
}

#[test]
fn handle_animating_switches_the_clip_or_leaves_it() {
    let mut animation = player_animation();
    handle_animating(&mut animation, false, Motion::Grounded { moving: false });
    assert!(animation.state() == AnimationState::Idle);
    assert_eq!(animation.get_atlas_index(), 7);
    handle_animating(&mut animation, false, Motion::NoBasis);
    assert!(animation.state() == AnimationState::Idle);
    assert_eq!(animation.get_atlas_index(), 7);
    handle_animating(&mut animation, false, Motion::Jump(JumpPhase::NoJump));
    assert!(animation.state() == AnimationState::Idle);
    handle_animating(&mut animation, false, Motion::Jump(JumpPhase::StartingJump));
    assert!(animation.state() == AnimationState::Jumping);
    assert_eq!(animation.get_atlas_index(), 14);
    handle_animating(&mut animation, false, Motion::Jump(JumpPhase::FallSection));
    assert!(animation.state() == AnimationState::Falling);
    handle_animating(&mut animation, true, Motion::Grounded { moving: true });
    assert!(animation.state() == AnimationState::Dying);
    assert_eq!(animation.get_atlas_index(), 17);
}

#[test]
fn atlas_follows_the_animation_only_when_it_changed() {
    let mut animation = player_animation();
    assert_eq!(update_animation_atlas(&animation, 42), 42);
    animation.update_timer(ms(80));
    assert_eq!(update_animation_atlas(&animation, 42), 1);
    animation.update_timer(ms(1));
    assert_eq!(update_animation_atlas(&animation, 1), 1);
    assert_eq!(update_animation_atlas(&animation, 42), 42);
}

#[test]
fn animation_tells_which_states_it_can_show() {
    let animation = Animation::new(vec![
        clip(4, 100, AnimationState::Idle, 6, Repeat::Loop),
        clip(6, 80, AnimationState::Walking, 0, Repeat::Loop),
    ]);
    assert!(animation.shows(AnimationState::Idle));
    assert!(animation.shows(AnimationState::Walking));
    assert!(!animation.shows(AnimationState::Dying));
    let player = player_animation();
    for state in [
        AnimationState::Walking,
        AnimationState::Idle,
        AnimationState::Falling,
        AnimationState::Jumping,
        AnimationState::Dying,
    ] {
        assert!(player.shows(state));
    }
    assert!(!explosion_animation().shows(AnimationState::Dying));
}

#[test]
fn clips_are_playable_unless_they_loop_over_nothing_or_leave_the_atlas() {
    assert!(!are_playable(&Vec::new()));
    assert!(are_playable(&player_clips()));
    assert!(are_playable(&explosion_clips()));
    assert!(are_playable(&vec![clip(0, 10, AnimationState::Idle, usize::MAX, Repeat::OneShot)]));
    assert!(!are_playable(&vec![clip(0, 10, AnimationState::Idle, 0, Repeat::Loop)]));
    assert!(are_playable(&vec![clip(1, 10, AnimationState::Idle, usize::MAX, Repeat::Loop)]));
    assert!(!are_playable(&vec![clip(2, 10, AnimationState::Idle, usize::MAX, Repeat::Loop)]));
    assert!(!are_playable(&vec![
        clip(2, 10, AnimationState::Idle, 0, Repeat::Loop),
        clip(3, 10, AnimationState::Dying, usize::MAX - 1, Repeat::OneShot),
    ]));
}

#[test]
fn longest_tick_moves_one_frame_and_the_timer_goes_on() {
    let mut animation = Animation::new(vec![clip(4, 100, AnimationState::Idle, 0, Repeat::Loop)]);
    animation.update_timer(ms(60));
    animation.update_timer(Duration::MAX);
    assert!(animation.changed());
    assert_eq!(animation.get_atlas_index(), 1);
    animation.update_timer(Duration::MAX);
    assert!(animation.changed());
    assert_eq!(animation.get_atlas_index(), 2);
    // The longest duration is 18446744073709551615.999999999 s, which leaves 99.999999 ms
    // after the whole intervals are taken out: one nanosecond short of the next frame.
    animation.update_timer(Duration::from_nanos(1));
    assert!(animation.changed());
    assert_eq!(animation.get_atlas_index(), 3);
    animation.update_timer(Duration::from_nanos(99_999_999));
    assert!(!animation.changed());
    assert_eq!(animation.get_atlas_index(), 3);
    animation.update_timer(Duration::from_nanos(1));
    assert!(animation.changed());
    assert_eq!(animation.get_atlas_index(), 0);
}

#[test]
fn time_left_over_is_cut_to_sixty_four_bits_of_nanoseconds() {
    // An interval of 2^65 ns, and a first tick of 3 * 2^64 + 5 ns: what is left after one
    // interval is 2^64 + 5 ns, of which the timer keeps 5 ns.
    let interval = Duration::new(36_893_488_147, 419_103_232);
    let clips = vec![AnimationData {
        frames: 4,
        interval,
        state: AnimationState::Idle,
        atlas_index: 0,
        repeat: Repeat::Loop,
    }];
    let mut animation = Animation::new(clips);
    animation.update_timer(Duration::new(55_340_232_221, 128_654_853));
    assert!(animation.changed());
    assert_eq!(animation.get_atlas_index(), 1);
    animation.update_timer(Duration::new(36_893_488_147, 419_103_226));
    assert!(!animation.changed());
    assert_eq!(animation.get_atlas_index(), 1);
    animation.update_timer(Duration::from_nanos(1));
    assert!(animation.changed());
    assert_eq!(animation.get_atlas_index(), 2);
}
