use codex_tui::empty_state_animation::{
    ComposerState, EmptyStateAnimation, MotionMode, MouseButton, MouseEvent, MouseEventKind,
    OpacityRule, Presentation, SequenceTimes, FRAME_INTERVAL,
};
use codex_tui::layout::Rect;
use codex_tui::session::{Greeting, GreetingSlots};
use codex_tui::startup_draft_layout::{OwnedStartupLayout, StartupDraftSessionAction};

const SECOND: u64 = 1_000_000_000;
const NANOS: u128 = 1_000_000_000;

#[test]
fn composer_sits_at_the_bottom_and_banner_at_the_top() {
    let layout = OwnedStartupLayout::new(StartupDraftSessionAction::New, false);
    let area = Rect::new(0, 2, 80, 20);
    assert_eq!(layout.bottom_area(area, 5), Rect { x: 0, y: 17, width: 80, height: 5 });
    assert_eq!(layout.bottom_area(area, 50), area);
    let frame = layout.plan(area, 4, 5);
    assert_eq!(frame.header, Rect { x: 0, y: 2, width: 80, height: 4 });
    assert_eq!(frame.decoration, Some(Rect { x: 0, y: 6, width: 80, height: 11 }));
    assert!(frame.offer_composer);
    assert!(frame.message.is_none());
}

#[test]
fn resumed_session_shows_a_status_line_when_there_is_room() {
    let layout = OwnedStartupLayout::new(StartupDraftSessionAction::Resume, false);
    let area = Rect::new(0, 0, 40, 10);
    let frame = layout.plan(area, 3, 4);
    assert_eq!(frame.decoration, None);
    assert!(!frame.offer_composer);
    assert_eq!(frame.message, Some(("  Resuming session…", Rect { x: 0, y: 3, width: 40, height: 1 })));
    let full = layout.plan(area, 30, 4);
    assert_eq!(full.header.height, 6);
    assert!(full.message.is_none());
    let fork = OwnedStartupLayout::new(StartupDraftSessionAction::Fork, true).plan(area, 1, 1);
    assert_eq!(fork.message.unwrap().0, "  Forking session…");
}

#[test]
fn desired_height_saturates() {
    let layout = OwnedStartupLayout::new(StartupDraftSessionAction::New, true);
    assert_eq!(layout.desired_height(3, 4), 7);
    assert_eq!(layout.desired_height(usize::MAX, 4), u16::MAX);
    assert!(!layout.plan(Rect::new(0, 0, 10, 10), 1, 1).offer_composer);
}

fn times() -> SequenceTimes {
    SequenceTimes {
        spin_duration: 10 * NANOS,
        static_fade: NANOS,
        settled_spin: 5 * NANOS,
        max_columns: 60,
        max_rows: 30,
    }
}

fn greeting(s: &str) -> Greeting {
    Greeting { phrase: s.to_string() }
}

fn animation(slots: &mut GreetingSlots) -> EmptyStateAnimation {
    let slot = slots.add();
    EmptyStateAnimation::new(times(), slot)
}

#[test]
fn hidden_or_ineligible_animation_draws_nothing() {
    let mut slots = GreetingSlots::new();
    let mut a = animation(&mut slots);
    let screen = Rect::new(0, 0, 100, 40);
    assert!(a.frame(Rect::new(0, 0, 20, 10), screen, Presentation::Animated, 0).is_none());
    a.start_fresh(&mut slots, greeting("Hi"));
    assert!(a.is_eligible());
    assert!(a.frame(Rect::new(0, 0, 20, 10), screen, Presentation::Hidden, 0).is_none());
    assert!(a.frame(Rect::new(0, 0, 61, 10), screen, Presentation::Animated, 0).is_none());
    assert!(a.frame(Rect::new(90, 0, 20, 10), screen, Presentation::Animated, 0).is_none());
    assert_eq!(a.last_frame, None);
}

#[test]
fn visible_time_advances_only_between_drawn_frames() {
    let mut slots = GreetingSlots::new();
    let mut a = animation(&mut slots);
    a.start_fresh(&mut slots, greeting("Hi"));
    let screen = Rect::new(0, 0, 100, 40);
    let area = Rect::new(0, 0, 20, 10);
    let first = a.frame(area, screen, Presentation::Animated, 100).unwrap();
    assert!(first.restart_fade);
    assert_eq!(a.fade_elapsed, NANOS);
    assert_eq!(first.next_frame, Some(FRAME_INTERVAL));
    let second = a.frame(area, screen, Presentation::Animated, 100 + 2 * SECOND).unwrap();
    assert!(!second.restart_fade);
    assert_eq!(a.spin_elapsed, 2 * NANOS);
    assert_eq!(second.phase_elapsed, 2 * NANOS);
    a.pause_clock();
    a.frame(area, screen, Presentation::Animated, 100 + 50 * SECOND).unwrap();
    assert_eq!(a.spin_elapsed, 2 * NANOS);
    let done = a.frame(area, screen, Presentation::Animated, 100 + 59 * SECOND).unwrap();
    assert_eq!(done.phase_elapsed, 10 * NANOS);
    assert_eq!(done.opacity, OpacityRule::Full);
    assert_eq!(done.next_frame, None);
}

#[test]
fn click_on_the_stage_replays() {
    let mut slots = GreetingSlots::new();
    let mut a = animation(&mut slots);
    a.start_fresh(&mut slots, greeting("Hi"));
    let screen = Rect::new(0, 0, 64, 40);
    let shown = a.first_screen(screen, screen, Some(ComposerState::Empty), MotionMode::Full, 0);
    let stage = shown.stage.unwrap();
    assert_eq!(stage, Rect { x: 2, y: 9, width: 60, height: 21 });
    assert!(shown.settled);
    let miss = MouseEvent { kind: MouseEventKind::Down(MouseButton::Left), column: 0, row: 0, no_modifiers: true };
    assert!(!a.handle_mouse(miss, &mut slots, greeting("Other")));
    let hit = MouseEvent { column: 10, row: 12, ..miss };
    assert!(!a.handle_mouse(MouseEvent { no_modifiers: false, ..hit }, &mut slots, greeting("Other")));
    assert!(a.handle_mouse(hit, &mut slots, greeting("Other")));
    assert!(a.replaying);
    assert_eq!(a.spin_elapsed, 5 * NANOS);
    assert_eq!(slots.get(a.greeting).unwrap().phrase, "Hi");
    let replay = a.first_screen(screen, screen, Some(ComposerState::Empty), MotionMode::Full, 0);
    assert_eq!(replay.next_frame, Some(FRAME_INTERVAL));
    assert!(!replay.settled);
    let reduced = a.first_screen(screen, screen, Some(ComposerState::Empty), MotionMode::Reduced, 0);
    assert_eq!(reduced.stage, None);
    assert!(!a.replaying);
    let draft = a.first_screen(screen, screen, Some(ComposerState::Draft), MotionMode::Full, 0);
    assert_eq!(draft.stage, None);
}

#[test]
fn continuing_keeps_the_live_greeting() {
    let mut slots = GreetingSlots::new();
    let mut live = animation(&mut slots);
    slots.set(live.greeting, greeting("Live"));
    let mut provisional = animation(&mut slots);
    provisional.start_fresh(&mut slots, greeting("Provisional"));
    provisional.spin_elapsed = 3;
    let live_slot = live.greeting;
    live.continue_from(&mut provisional, &mut slots, greeting("Unused"));
    assert_eq!(live.greeting, live_slot);
    assert_eq!(slots.get(live.greeting).unwrap().phrase, "Live");
    assert_eq!(live.spin_elapsed, 3);
    assert!(live.is_eligible());
    assert!(!provisional.is_eligible());
    assert!(slots.get(provisional.greeting).is_none());
    let mut fresh = animation(&mut slots);
    let mut idle = animation(&mut slots);
    fresh.continue_from(&mut idle, &mut slots, greeting("Chosen"));
    assert_eq!(slots.get(fresh.greeting).unwrap().phrase, "Chosen");
    fresh.dismiss();
    assert!(!fresh.is_eligible());
}

#[test]
fn an_area_of_the_desired_height_fits_banner_and_composer() {
    let layout = OwnedStartupLayout::new(StartupDraftSessionAction::New, false);
    let height = layout.desired_height(5, 3);
    let frame = layout.plan(Rect::new(0, 4, 30, height), 5, 3);
    assert_eq!(frame.header, Rect { x: 0, y: 4, width: 30, height: 5 });
    assert_eq!(frame.bottom, Rect { x: 0, y: 9, width: 30, height: 3 });
    assert_eq!(frame.decoration, Some(Rect { x: 0, y: 9, width: 30, height: 0 }));
}

#[test]
fn hidden_time_is_not_counted() {
    let mut slots = GreetingSlots::new();
    let mut a = animation(&mut slots);
    a.start_fresh(&mut slots, greeting("Hi"));
    let screen = Rect::new(0, 0, 100, 40);
    let area = Rect::new(0, 0, 20, 10);
    a.frame(area, screen, Presentation::Animated, 0).unwrap();
    a.frame(area, screen, Presentation::Animated, SECOND).unwrap();
    assert_eq!((a.spin_elapsed, a.fade_elapsed), (NANOS, 2 * NANOS));
    assert!(a.frame(area, screen, Presentation::Hidden, 3 * SECOND).is_none());
    a.frame(area, screen, Presentation::Animated, 9 * SECOND).unwrap();
    assert_eq!((a.spin_elapsed, a.fade_elapsed), (NANOS, 2 * NANOS));
    a.frame(area, screen, Presentation::Animated, 9 * SECOND + 500).unwrap();
    assert_eq!(a.spin_elapsed, NANOS + 500);
}

#[test]
fn faded_logo_holds_its_pose() {
    let mut slots = GreetingSlots::new();
    let mut a = animation(&mut slots);
    a.start_fresh(&mut slots, greeting("Hi"));
    let screen = Rect::new(0, 0, 100, 40);
    let area = Rect::new(0, 0, 20, 10);
    a.frame(area, screen, Presentation::Animated, 0).unwrap();
    a.frame(area, screen, Presentation::Animated, SECOND).unwrap();
    let fading = a.frame(area, screen, Presentation::Faded, 2 * SECOND).unwrap();
    assert!(fading.restart_fade);
    assert_eq!(fading.opacity, OpacityRule::StaticFade { elapsed: 0 });
    let later = a.frame(area, screen, Presentation::Faded, 7 * SECOND).unwrap();
    assert_eq!(a.spin_elapsed, NANOS);
    assert_eq!(later.opacity, OpacityRule::StaticFade { elapsed: 5 * NANOS });
    assert_eq!(later.next_frame, None);
}

#[test]
fn next_frame_is_recorded_and_the_session_kept() {
    let mut layout = OwnedStartupLayout::new(StartupDraftSessionAction::Fork, true);
    assert_eq!(layout.next_frame, None);
    layout.set_next_frame(Some(FRAME_INTERVAL));
    assert_eq!(layout.next_frame, Some(FRAME_INTERVAL));
    assert_eq!(layout.session_action, StartupDraftSessionAction::Fork);
    assert!(layout.submission_pending);
}

#[test]
fn finished_replay_settles_on_the_first_screen() {
    let mut slots = GreetingSlots::new();
    let mut a = animation(&mut slots);
    a.start_fresh(&mut slots, greeting("Hi"));
    let screen = Rect::new(0, 0, 64, 40);
    let stage = a.first_screen(screen, screen, Some(ComposerState::Empty), MotionMode::Full, 0).stage.unwrap();
    let hit = MouseEvent { kind: MouseEventKind::Down(MouseButton::Left), column: stage.x, row: stage.y, no_modifiers: true };
    assert!(a.handle_mouse(hit, &mut slots, greeting("Other")));
    let first = a.first_screen(screen, screen, Some(ComposerState::Empty), MotionMode::Full, 0);
    assert_eq!(first.replay.unwrap().phase_elapsed, 5 * NANOS);
    a.first_screen(screen, screen, Some(ComposerState::Empty), MotionMode::Full, 3 * SECOND);
    assert_eq!(a.spin_elapsed, 8 * NANOS);
    let done = a.first_screen(screen, screen, Some(ComposerState::Empty), MotionMode::Full, 20 * SECOND);
    let step = done.replay.unwrap();
    assert_eq!(step.opacity, OpacityRule::ReplayFade { since_finish: 15 * NANOS });
    assert_eq!(step.next_frame, None);
    assert!(done.settled);
    assert_eq!(done.next_frame, None);
    assert!(!a.replaying);
    assert_eq!(a.stage, Some(stage));
}

#[test]
fn clocks_count_past_the_nanosecond_range_of_u64() {
    let mut slots = GreetingSlots::new();
    let mut a = animation(&mut slots);
    a.start_fresh(&mut slots, greeting("Hi"));
    let screen = Rect::new(0, 0, 100, 40);
    let area = Rect::new(0, 0, 20, 10);
    a.frame(area, screen, Presentation::Animated, 0).unwrap();
    a.spin_elapsed = u128::from(u64::MAX);
    a.fade_elapsed = u128::from(u64::MAX);
    a.frame(area, screen, Presentation::Animated, 10).unwrap();
    assert_eq!(a.spin_elapsed, u128::from(u64::MAX) + 10);
    assert_eq!(a.fade_elapsed, u128::from(u64::MAX) + 10);
}
