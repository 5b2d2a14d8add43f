//! The blossom welcome animation's clock and placement: when it may draw, how its visible
//! time advances, when it asks for another frame, and where it stands on the first screen.
//! Visible time pauses while hidden. Fresh conversations start settled and can replay on a
//! click. Times are in nanoseconds; colors and opacity are painted by the caller from the
//! frame steps returned here.

use vstd::prelude::*;
use crate::layout::{Rect, min_u16, rect_contains, rect_intersection, rect_new, sat_sub_u16};
use crate::session::{Greeting, GreetingSlot, GreetingSlots, bound_greeting, choose_into};

verus! {

/// The pause between two animation frames: 50 milliseconds.
pub const FRAME_INTERVAL: u64 = 50_000_000;

/// The longest time a clock can hold, `Duration::MAX`, in nanoseconds.
pub const DURATION_MAX: u128 = 18_446_744_073_709_551_615_999_999_999;

/// Rows of the first-screen stage per `max_columns` columns.
pub const STAGE_ROWS: u16 = 21;

/// The fewest rows the first-screen stage may have.
pub const MIN_STAGE_ROWS: u16 = 14;

/// How the surrounding screen presents the animation.
#[derive(PartialEq, Eq, Structural, Clone, Copy, Debug)]
pub enum Presentation {
    Hidden,
    Animated,
    Faded,
}

/// Whether the composer holds a draft.
#[derive(PartialEq, Eq, Structural, Clone, Copy, Debug)]
pub enum ComposerState {
    Empty,
    Draft,
}

/// The user's motion preference.
#[derive(PartialEq, Eq, Structural, Clone, Copy, Debug)]
pub enum MotionMode {
    Full,
    Reduced,
}

#[derive(PartialEq, Eq, Structural, Clone, Copy, Debug)]
pub enum MouseButton {
    Left,
    Right,
    Middle,
}

#[derive(PartialEq, Eq, Structural, Clone, Copy, Debug)]
pub enum MouseEventKind {
    Down(MouseButton),
    Up(MouseButton),
    Drag(MouseButton),
    Moved,
    ScrollDown,
    ScrollUp,
    ScrollLeft,
    ScrollRight,
}

/// A mouse event: its kind, its cell, and whether no modifier key was held.
#[derive(PartialEq, Eq, Structural, Clone, Copy, Debug)]
pub struct MouseEvent {
    pub kind: MouseEventKind,
    pub column: u16,
    pub row: u16,
    pub no_modifiers: bool,
}

/// The durations of the logo sequence and the renderer's size limits.
#[derive(PartialEq, Eq, Structural, Clone, Copy, Debug)]
pub struct SequenceTimes {
    /// How long the logo spins before it settles.
    pub spin_duration: u128,
    /// How long the logo takes to fade to or from its static pose.
    pub static_fade: u128,
    /// The spin time of the settled pose a replay starts from.
    pub settled_spin: u128,
    /// The widest stage the renderer draws.
    pub max_columns: u16,
    /// The tallest stage the renderer draws.
    pub max_rows: u16,
}

/// The renderer's stage geometry fits in `u16` arithmetic.
pub open spec fn times_wf(t: SequenceTimes) -> bool {
    t.max_columns > 0 && t.max_columns * 21 <= u16::MAX
}

/// The animation's state.
#[derive(Debug)]
pub struct EmptyStateAnimation {
    pub times: SequenceTimes,
    pub eligible: bool,
    /// Chosen once for a fresh thread; never for a resumed or forked one.
    pub greeting: GreetingSlot,
    pub spin_elapsed: u128,
    pub last_frame: Option<u64>,
    pub fade_elapsed: u128,
    pub static_mark: Option<bool>,
    pub stage: Option<Rect>,
    pub replaying: bool,
}

/// How the opacity of a frame is found.
#[derive(PartialEq, Eq, Structural, Clone, Copy, Debug)]
pub enum OpacityRule {
    /// A finished replay fades back to the static pose, this long after it finished.
    ReplayFade { since_finish: u128 },
    /// Fully opaque.
    Full,
    /// Fading towards the static pose from where the fade started, this long into it.
    StaticFade { elapsed: u128 },
}

/// What one drawn frame paints.
#[derive(PartialEq, Eq, Structural, Clone, Copy, Debug)]
pub struct FrameStep {
    /// The fade restarts from the current opacity.
    pub restart_fade: bool,
    /// The spin time the pose is drawn at.
    pub phase_elapsed: u128,
    pub opacity: OpacityRule,
    /// While spinning unfaded, the opacity eases in from where the fade started over this
    /// much of the fade.
    pub blend_in: Option<u128>,
    /// When to draw the next frame.
    pub next_frame: Option<u64>,
}

/// Where the first screen draws the logo, and what it draws there.
#[derive(PartialEq, Eq, Structural, Clone, Copy, Debug)]
pub struct FirstScreen {
    pub stage: Option<Rect>,
    /// The replay frame drawn on the stage, if any.
    pub replay: Option<FrameStep>,
    /// The settled pose is drawn on the stage.
    pub settled: bool,
    pub next_frame: Option<u64>,
}

pub open spec fn sat_sub_u64(a: u64, b: u64) -> u64 {
    if a >= b {
        (a - b) as u64
    } else {
        0
    }
}

/// The state's fields other than those a step names stay as they were.
pub open spec fn same_except_clock(a: EmptyStateAnimation, b: EmptyStateAnimation) -> bool {
    &&& a.times == b.times
    &&& a.eligible == b.eligible
    &&& a.greeting == b.greeting
    &&& a.stage == b.stage
    &&& a.replaying == b.replaying
}

/// The animation may draw into `area` of a buffer covering `buffer_area`.
pub open spec fn drawable(
    s: EmptyStateAnimation,
    area: Rect,
    buffer_area: Rect,
    presentation: Presentation,
) -> bool {
    &&& s.eligible
    &&& presentation != Presentation::Hidden
    &&& !(area.width == 0 || area.height == 0)
    &&& area.width <= s.times.max_columns
    &&& area.height <= s.times.max_rows
    &&& rect_intersection(area, buffer_area) == area
}

/// The visible time that passed since the last drawn frame, if one was drawn.
pub open spec fn since_last(s: EmptyStateAnimation, now: u64) -> u64 {
    match s.last_frame {
        Some(p) => sat_sub_u64(now, p),
        None => 0,
    }
}

/// The sequence's durations can be added as durations.
pub open spec fn times_fit(t: SequenceTimes) -> bool {
    &&& t.spin_duration + t.static_fade <= DURATION_MAX
    &&& t.settled_spin <= DURATION_MAX
}

/// A frame drawn into `area` at `now` keeps the clocks within a duration: the time since
/// the last frame, added to the fade and (when not faded) to the spin, fits.
pub open spec fn frame_fits(
    s: EmptyStateAnimation,
    area: Rect,
    buffer_area: Rect,
    presentation: Presentation,
    now: u64,
) -> bool {
    let static_mark = presentation == Presentation::Faded;
    drawable(s, area, buffer_area, presentation) && s.static_mark == Some(static_mark) ==> {
        &&& s.fade_elapsed + since_last(s, now) <= DURATION_MAX
        &&& !static_mark ==> s.spin_elapsed + since_last(s, now) <= DURATION_MAX
    }
}

/// The fade time after a drawn frame in presentation `static_mark`.
pub open spec fn next_fade(s: EmptyStateAnimation, static_mark: bool, now: u64) -> u128 {
    if s.static_mark != Some(static_mark) {
        if s.static_mark is None {
            s.times.static_fade
        } else {
            0
        }
    } else if s.last_frame is Some {
        (s.fade_elapsed + since_last(s, now)) as u128
    } else {
        s.fade_elapsed
    }
}

/// The spin time after a drawn frame: it advances only while the logo is not faded.
pub open spec fn next_spin(s: EmptyStateAnimation, static_mark: bool, now: u64) -> u128 {
    if s.static_mark == Some(static_mark) && s.last_frame is Some && !static_mark {
        (s.spin_elapsed + since_last(s, now)) as u128
    } else {
        s.spin_elapsed
    }
}

/// What a drawn frame paints, for a state whose clock already advanced to `spin` and
/// `fade`.
pub open spec fn step_spec(
    times: SequenceTimes,
    replaying: bool,
    restart_fade: bool,
    static_mark: bool,
    spin: u128,
    fade: u128,
) -> FrameStep {
    let finished = spin >= times.spin_duration;
    let settling = !finished && static_mark && fade < times.static_fade;
    FrameStep {
        restart_fade,
        phase_elapsed: if finished {
            times.spin_duration
        } else {
            spin
        },
        opacity: if finished && replaying {
            OpacityRule::ReplayFade { since_finish: (spin - times.spin_duration) as u128 }
        } else if finished {
            OpacityRule::Full
        } else if static_mark {
            OpacityRule::StaticFade { elapsed: fade }
        } else {
            OpacityRule::Full
        },
        blend_in: if !static_mark && !finished {
            Some(fade)
        } else {
            None
        },
        next_frame: if (!finished && (!static_mark || settling)) || (replaying && spin
            < times.spin_duration + times.static_fade) {
            Some(FRAME_INTERVAL)
        } else {
            None
        },
    }
}

/// The state after a frame drawn into `area` at `now`, or refused there.
pub open spec fn after_frame(
    s: EmptyStateAnimation,
    area: Rect,
    buffer_area: Rect,
    presentation: Presentation,
    now: u64,
) -> EmptyStateAnimation {
    if drawable(s, area, buffer_area, presentation) {
        let static_mark = presentation == Presentation::Faded;
        EmptyStateAnimation {
            spin_elapsed: next_spin(s, static_mark, now),
            last_frame: Some(now),
            fade_elapsed: next_fade(s, static_mark, now),
            static_mark: Some(static_mark),
            ..s
        }
    } else {
        EmptyStateAnimation { last_frame: None, ..s }
    }
}

/// A new animation: not eligible, its clock at zero, with greeting slot `greeting`.
pub open spec fn fresh(times: SequenceTimes, greeting: GreetingSlot) -> EmptyStateAnimation {
    EmptyStateAnimation {
        times,
        eligible: false,
        greeting,
        spin_elapsed: 0,
        last_frame: None,
        fade_elapsed: 0,
        static_mark: None,
        stage: None,
        replaying: false,
    }
}

/// The state of a fresh start: eligible, its clock at zero, no stage and no replay.
pub open spec fn started(s: EmptyStateAnimation) -> EmptyStateAnimation {
    EmptyStateAnimation {
        eligible: true,
        spin_elapsed: 0,
        last_frame: None,
        fade_elapsed: 0,
        static_mark: None,
        stage: None,
        replaying: false,
        ..s
    }
}

/// The state with the stage and any replay forgotten and the clock paused.
pub open spec fn cancelled(s: EmptyStateAnimation) -> EmptyStateAnimation {
    EmptyStateAnimation { stage: None, replaying: false, last_frame: None, ..s }
}

/// What a frame drawn into `area` at `now` paints, or none when it may not draw.
pub open spec fn frame_step(
    s: EmptyStateAnimation,
    area: Rect,
    buffer_area: Rect,
    presentation: Presentation,
    now: u64,
) -> Option<FrameStep> {
    if drawable(s, area, buffer_area, presentation) {
        let static_mark = presentation == Presentation::Faded;
        Some(
            step_spec(
                s.times,
                s.replaying,
                s.static_mark != Some(static_mark),
                static_mark,
                next_spin(s, static_mark, now),
                next_fade(s, static_mark, now),
            ),
        )
    } else {
        None
    }
}

/// The stage's width on a screen `screen_width` columns wide.
pub open spec fn stage_width(times: SequenceTimes, screen_width: u16) -> u16 {
    min_u16(sat_sub_u16(screen_width, 4), times.max_columns)
}

/// The stage's height for a stage `width` columns wide.
pub open spec fn stage_height(times: SequenceTimes, width: u16) -> u16 {
    ((width * STAGE_ROWS) as int / times.max_columns as int) as u16
}

/// The stage, centered on the screen.
pub open spec fn stage_spec(times: SequenceTimes, screen: Rect) -> Rect {
    let width = stage_width(times, screen.width);
    let height = stage_height(times, width);
    rect_new(
        (screen.x + (screen.width - width) / 2) as u16,
        (screen.y + (screen.height - height) / 2) as u16,
        width,
        height,
    )
}

/// The first screen shows the logo: full motion, an empty composer, and room for a stage
/// of at least `MIN_STAGE_ROWS` rows inside `available`.
pub open spec fn first_screen_shows(
    times: SequenceTimes,
    available: Rect,
    screen: Rect,
    composer: Option<ComposerState>,
    motion: MotionMode,
) -> bool {
    let width = stage_width(times, screen.width);
    let height = stage_height(times, width);
    &&& motion != MotionMode::Reduced
    &&& composer == Some(ComposerState::Empty)
    &&& height >= MIN_STAGE_ROWS
    &&& height <= screen.height
    &&& rect_intersection(stage_spec(times, screen), available) == stage_spec(times, screen)
}

impl EmptyStateAnimation {
    /// An animation that is not eligible to draw, with its own greeting slot `greeting`.
    pub fn new(times: SequenceTimes, greeting: GreetingSlot) -> (r: Self)
        ensures
            r == fresh(times, greeting),
    {
        EmptyStateAnimation {
            times,
            eligible: false,
            greeting,
            spin_elapsed: 0,
            last_frame: None,
            fade_elapsed: 0,
            static_mark: None,
            stage: None,
            replaying: false,
        }
    }

    pub fn is_eligible(&self) -> (r: bool)
        ensures
            r == self.eligible,
    {
        self.eligible
    }

    /// Stop visible time at the last painted frame, including when no hidden frame was drawn.
    /// Resume (after process suspension) may call this after the interruption; phase is retained.
    pub fn pause_clock(&mut self)
        ensures
            *final(self) == (EmptyStateAnimation { last_frame: None, ..*old(self) }),
    {
        self.last_frame = None;
    }

    /// Forget the stage and any replay, and pause the clock.
    pub fn cancel_replay(&mut self)
        ensures
            *final(self) == cancelled(*old(self)),
    {
        self.stage = None;
        self.replaying = false;
        self.pause_clock();
    }

    /// Begin a fresh conversation's animation from its start; the thread's greeting is
    /// chosen once (`choice`, when its slot holds none yet) and then kept.
    pub fn start_fresh(&mut self, slots: &mut GreetingSlots, choice: Greeting)
        ensures
            *final(self) == started(*old(self)),
            final(slots)@ == choose_into(old(slots)@, old(self).greeting, choice.phrase@),
    {
        self.cancel_replay();
        self.eligible = true;
        slots.set(self.greeting, choice);
        self.spin_elapsed = 0;
        self.last_frame = None;
        self.fade_elapsed = 0;
        self.static_mark = None;
    }

    /// The animation is no longer shown.
    pub fn dismiss(&mut self)
        ensures
            *final(self) == (EmptyStateAnimation { eligible: false, ..cancelled(*old(self)) }),
    {
        self.eligible = false;
        self.cancel_replay();
    }

    /// Keep the provisional pose and phrase in headers already bound to the live thread:
    /// take over `source`'s animation (started fresh with `choice` when it was not
    /// eligible), keep this animation's greeting slot, and choose into it the greeting
    /// `source`'s slot holds unless it holds one already. `source` is reset with a new slot.
    pub fn continue_from(&mut self, source: &mut Self, slots: &mut GreetingSlots, choice: Greeting)
        ensures
            ({
                let added = old(slots)@.push(None);
                let prepared = if old(source).eligible {
                    added
                } else {
                    choose_into(added, old(source).greeting, choice.phrase@)
                };
                let taken = bound_greeting(prepared, Some(old(source).greeting));
                &&& *final(source) == fresh(old(source).times, GreetingSlot { id: old(slots)@.len() as usize })
                &&& *final(self) == (EmptyStateAnimation {
                    greeting: old(self).greeting,
                    ..if old(source).eligible {
                        *old(source)
                    } else {
                        started(*old(source))
                    }
                })
                &&& final(slots)@ == match taken {
                    Some(g) => choose_into(prepared, old(self).greeting, g),
                    None => prepared,
                }
            }),
    {
        let slot = slots.add();
        let mut previous = EmptyStateAnimation::new(source.times, slot);
        std::mem::swap(&mut previous, source);
        if !previous.is_eligible() {
            previous.start_fresh(slots, choice);
        }
        if let Some(greeting) = slots.get(previous.greeting) {
            slots.set(self.greeting, greeting);
        }
        previous.greeting = self.greeting;
        *self = previous;
    }

    /// Replay only on the drawn blossom; unrelated gestures keep their normal owner.
    pub fn handle_mouse(
        &mut self,
        mouse: MouseEvent,
        slots: &mut GreetingSlots,
        choice: Greeting,
    ) -> (r: bool)
        ensures
            r == (mouse.kind == MouseEventKind::Down(MouseButton::Left) && mouse.no_modifiers
                && match old(self).stage {
                Some(stage) => rect_contains(stage, mouse.column, mouse.row),
                None => false,
            }),
            r ==> {
                &&& *final(self) == (EmptyStateAnimation {
                    spin_elapsed: old(self).times.settled_spin,
                    static_mark: Some(true),
                    replaying: true,
                    ..started(*old(self))
                })
                &&& final(slots)@ == choose_into(old(slots)@, old(self).greeting, choice.phrase@)
            },
            !r ==> *final(self) == *old(self) && final(slots)@ == old(slots)@,
    {
        let inside = match self.stage {
            Some(stage) => stage.contains(mouse.column, mouse.row),
            None => false,
        } && mouse.no_modifiers;
        match mouse.kind {
            MouseEventKind::Down(MouseButton::Left) => {
                if inside {
                    self.start_fresh(slots, choice);
                    self.spin_elapsed = self.times.settled_spin;
                    self.static_mark = Some(true);
                    self.replaying = true;
                    true
                } else {
                    false
                }
            },
            _ => false,
        }
    }

    /// Advance the clock for a frame drawn into `area` at time `now` and say what it
    /// paints; `None` when nothing may be drawn, and then the clock pauses.
    pub fn frame(
        &mut self,
        area: Rect,
        buffer_area: Rect,
        presentation: Presentation,
        now: u64,
    ) -> (r: Option<FrameStep>)
        requires
            times_fit(old(self).times),
            frame_fits(*old(self), area, buffer_area, presentation, now),
        ensures
            *final(self) == after_frame(*old(self), area, buffer_area, presentation, now),
            r == frame_step(*old(self), area, buffer_area, presentation, now),
            r is Some && final(self).spin_elapsed < old(self).times.spin_duration && (presentation
                == Presentation::Animated || final(self).fade_elapsed < old(self).times.static_fade)
                ==> r->Some_0.next_frame == Some(FRAME_INTERVAL),
            !drawable(*old(self), area, buffer_area, presentation) ==> {
                &&& r is None
                &&& final(self).last_frame is None
                &&& same_except_clock(*old(self), *final(self))
                &&& final(self).spin_elapsed == old(self).spin_elapsed
                &&& final(self).fade_elapsed == old(self).fade_elapsed
                &&& final(self).static_mark == old(self).static_mark
            },
            drawable(*old(self), area, buffer_area, presentation) ==> {
                let static_mark = presentation == Presentation::Faded;
                let spin = next_spin(*old(self), static_mark, now);
                let fade = next_fade(*old(self), static_mark, now);
                &&& same_except_clock(*old(self), *final(self))
                &&& final(self).last_frame == Some(now)
                &&& final(self).static_mark == Some(static_mark)
                &&& final(self).spin_elapsed == spin
                &&& final(self).fade_elapsed == fade
                &&& r == Some(
                    step_spec(
                        old(self).times,
                        old(self).replaying,
                        old(self).static_mark != Some(static_mark),
                        static_mark,
                        spin,
                        fade,
                    ),
                )
            },
    {
        let max_columns = self.times.max_columns;
        let max_rows = self.times.max_rows;
        if !self.eligible || presentation == Presentation::Hidden || area.is_empty() || area.width
            > max_columns || area.height > max_rows || area.intersection(buffer_area) != area {
            self.pause_clock();
            return None;
        }
        let static_mark = presentation == Presentation::Faded;
        let previous = self.last_frame;
        self.last_frame = Some(now);
        let restart_fade = match self.static_mark {
            Some(m) => m != static_mark,
            None => true,
        };
        if restart_fade {
            self.fade_elapsed = if self.static_mark.is_none() {
                self.times.static_fade
            } else {
                0
            };
        } else if let Some(previous) = previous {
            let elapsed = now.saturating_sub(previous) as u128;
            self.fade_elapsed = self.fade_elapsed + elapsed;
            if !static_mark {
                self.spin_elapsed = self.spin_elapsed + elapsed;
            }
        }
        self.static_mark = Some(static_mark);
        let spin = self.spin_elapsed;
        let fade = self.fade_elapsed;
        let spin_duration = self.times.spin_duration;
        let static_fade = self.times.static_fade;
        let finished = spin >= spin_duration;
        let settling = !finished && static_mark && fade < static_fade;
        let opacity = if finished && self.replaying {
            OpacityRule::ReplayFade { since_finish: spin - spin_duration }
        } else if finished {
            OpacityRule::Full
        } else if static_mark {
            OpacityRule::StaticFade { elapsed: fade }
        } else {
            OpacityRule::Full
        };
        let replay_running = self.replaying && spin < spin_duration + static_fade;
        let next_frame = if (!finished && (!static_mark || settling)) || replay_running {
            Some(FRAME_INTERVAL)
        } else {
            None
        };
        Some(
            FrameStep {
                restart_fade,
                phase_elapsed: if finished {
                    spin_duration
                } else {
                    spin
                },
                opacity,
                blend_in: if !static_mark && !finished {
                    Some(fade)
                } else {
                    None
                },
                next_frame,
            },
        )
    }

    /// Draw only in space the caller has cleared and owns: the stage centered on `screen`
    /// when the first screen shows the logo, a replay frame while one runs, and the settled
    /// pose otherwise. The centered blossom returns on clear, without restarting or
    /// scheduling animation.
    pub fn first_screen(
        &mut self,
        available: Rect,
        screen: Rect,
        composer: Option<ComposerState>,
        motion: MotionMode,
        now: u64,
    ) -> (r: FirstScreen)
        requires
            times_wf(old(self).times),
            times_fit(old(self).times),
            screen.x + screen.width <= u16::MAX,
            screen.y + screen.height <= u16::MAX,
            old(self).replaying && first_screen_shows(
                old(self).times,
                available,
                screen,
                composer,
                motion,
            ) ==> frame_fits(
                *old(self),
                stage_spec(old(self).times, screen),
                screen,
                Presentation::Animated,
                now,
            ),
        ensures
            r.stage matches Some(st) ==> st.height >= MIN_STAGE_ROWS && rect_intersection(
                st,
                available,
            ) == st,
            r.stage == final(self).stage,
            !first_screen_shows(old(self).times, available, screen, composer, motion) ==> {
                &&& r == (FirstScreen { stage: None, replay: None, settled: false, next_frame: None })
                &&& *final(self) == cancelled(*old(self))
            },
            first_screen_shows(old(self).times, available, screen, composer, motion) ==> {
                let stage = stage_spec(old(self).times, screen);
                let staged = EmptyStateAnimation { stage: Some(stage), ..*old(self) };
                let step = frame_step(staged, stage, screen, Presentation::Animated, now);
                let drawn = after_frame(staged, stage, screen, Presentation::Animated, now);
                if !old(self).replaying {
                    &&& r == (FirstScreen {
                        stage: Some(stage),
                        replay: None,
                        settled: true,
                        next_frame: None,
                    })
                    &&& *final(self) == staged
                } else if step is Some && step->Some_0.next_frame is Some {
                    &&& r == (FirstScreen {
                        stage: Some(stage),
                        replay: step,
                        settled: false,
                        next_frame: step->Some_0.next_frame,
                    })
                    &&& *final(self) == drawn
                } else {
                    &&& r == (FirstScreen {
                        stage: Some(stage),
                        replay: step,
                        settled: true,
                        next_frame: None,
                    })
                    &&& *final(self) == (EmptyStateAnimation { replaying: false, ..drawn })
                }
            },
    {
        let times = self.times;
        let edge = if screen.width >= 4 {
            screen.width - 4
        } else {
            0
        };
        let width = if edge <= times.max_columns {
            edge
        } else {
            times.max_columns
        };
        assert(width * 21 <= u16::MAX) by (nonlinear_arith)
            requires
                width <= times.max_columns,
                times.max_columns * 21 <= u16::MAX,
        ;
        let height = width * STAGE_ROWS / times.max_columns;
        if motion == MotionMode::Reduced || composer != Some(ComposerState::Empty) || height
            < MIN_STAGE_ROWS || height > screen.height {
            self.cancel_replay();
            return FirstScreen { stage: None, replay: None, settled: false, next_frame: None };
        }
        let stage = Rect::new(
            screen.x + (screen.width - width) / 2,
            screen.y + (screen.height - height) / 2,
            width,
            height,
        );
        if stage.intersection(available) != stage {
            self.cancel_replay();
            return FirstScreen { stage: None, replay: None, settled: false, next_frame: None };
        }
        self.stage = Some(stage);
        let mut replay: Option<FrameStep> = None;
        if self.replaying {
            let step = self.frame(stage, screen, Presentation::Animated, now);
            if let Some(s) = step {
                if let Some(delay) = s.next_frame {
                    return FirstScreen {
                        stage: Some(stage),
                        replay: step,
                        settled: false,
                        next_frame: Some(delay),
                    };
                }
            }
            replay = step;
            self.replaying = false;
        }
        FirstScreen { stage: Some(stage), replay, settled: true, next_frame: None }
    }
}

} // verus!
