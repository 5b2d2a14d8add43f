//! Laws of the welcome animation's clock, over the state that `EmptyStateAnimation::frame`
//! leaves behind.

use vstd::prelude::*;
use crate::empty_state_animation::{
    ComposerState, EmptyStateAnimation, FRAME_INTERVAL, MIN_STAGE_ROWS, MotionMode, Presentation,
    SequenceTimes, after_frame, drawable, first_screen_shows, frame_fits, frame_step, stage_spec,
};
use crate::layout::{Rect, rect_intersection};

verus! {

/// Visible time pauses while hidden: after a frame that may not draw, the next frame drawn
/// in the presentation the logo was last drawn in takes up the spin and the fade exactly
/// where they stood, however much time went by.
pub proof fn law_hidden_time_does_not_count(
    s: EmptyStateAnimation,
    hidden_area: Rect,
    hidden_buffer: Rect,
    hidden_presentation: Presentation,
    hidden_at: u64,
    area: Rect,
    buffer_area: Rect,
    presentation: Presentation,
    now: u64,
)
    requires
        !drawable(s, hidden_area, hidden_buffer, hidden_presentation),
        s.static_mark == Some(presentation == Presentation::Faded),
    ensures
        ({
            let paused = after_frame(s, hidden_area, hidden_buffer, hidden_presentation, hidden_at);
            let shown = after_frame(paused, area, buffer_area, presentation, now);
            &&& shown.spin_elapsed == s.spin_elapsed
            &&& shown.fade_elapsed == s.fade_elapsed
        }),
{
}

/// While the logo is shown animated, its spin advances by exactly the time between two
/// drawn frames.
pub proof fn law_shown_time_counts(
    s: EmptyStateAnimation,
    area: Rect,
    buffer_area: Rect,
    first: u64,
    second: u64,
)
    requires
        drawable(s, area, buffer_area, Presentation::Animated),
        first <= second,
        frame_fits(
            after_frame(s, area, buffer_area, Presentation::Animated, first),
            area,
            buffer_area,
            Presentation::Animated,
            second,
        ),
    ensures
        ({
            let drawn = after_frame(s, area, buffer_area, Presentation::Animated, first);
            let next = after_frame(drawn, area, buffer_area, Presentation::Animated, second);
            next.spin_elapsed == drawn.spin_elapsed + (second - first)
        }),
{
}

/// A faded logo holds its pose: a frame in the faded presentation never advances the spin.
pub proof fn law_faded_holds_pose(
    s: EmptyStateAnimation,
    area: Rect,
    buffer_area: Rect,
    now: u64,
)
    ensures
        after_frame(s, area, buffer_area, Presentation::Faded, now).spin_elapsed == s.spin_elapsed,
{
}

/// A logo that is still spinning is drawn again after `FRAME_INTERVAL`: a frame in the
/// animated presentation whose spin has not reached the sequence's length asks for the
/// next frame.
pub proof fn law_spinning_logo_keeps_drawing(
    s: EmptyStateAnimation,
    area: Rect,
    buffer_area: Rect,
    now: u64,
)
    ensures
        ({
            let r = frame_step(s, area, buffer_area, Presentation::Animated, now);
            let t = after_frame(s, area, buffer_area, Presentation::Animated, now);
            r is Some && t.spin_elapsed < s.times.spin_duration ==> r->Some_0.next_frame == Some(
                FRAME_INTERVAL,
            )
        }),
{
}

/// A logo fading to its static pose keeps being drawn while it settles: a frame in the
/// faded presentation, with the spin unfinished and the fade after the frame still short
/// of `static_fade`, asks for the next frame after `FRAME_INTERVAL`.
pub proof fn law_settling_logo_keeps_drawing(
    s: EmptyStateAnimation,
    area: Rect,
    buffer_area: Rect,
    now: u64,
)
    ensures
        ({
            let r = frame_step(s, area, buffer_area, Presentation::Faded, now);
            let t = after_frame(s, area, buffer_area, Presentation::Faded, now);
            r is Some && t.spin_elapsed < s.times.spin_duration && t.fade_elapsed
                < s.times.static_fade ==> r->Some_0.next_frame == Some(FRAME_INTERVAL)
        }),
{
}

/// A finished logo that is not replaying asks for no more frames, and a drawn pose never
/// goes past the end of the spin: the phase is the spin time, capped at the sequence's
/// length.
pub proof fn law_finished_logo_rests(
    s: EmptyStateAnimation,
    area: Rect,
    buffer_area: Rect,
    presentation: Presentation,
    now: u64,
)
    ensures
        ({
            let r = frame_step(s, area, buffer_area, presentation, now);
            let t = after_frame(s, area, buffer_area, presentation, now);
            &&& r is Some && t.spin_elapsed >= s.times.spin_duration && !s.replaying
                ==> r->Some_0.next_frame is None
            &&& r is Some ==> r->Some_0.phase_elapsed == if t.spin_elapsed
                < s.times.spin_duration {
                t.spin_elapsed
            } else {
                s.times.spin_duration
            }
        }),
{
}

/// A frame is drawn exactly when the animation may draw there, and a drawn frame records
/// its time.
pub proof fn law_frame_drawn_when_drawable(
    s: EmptyStateAnimation,
    area: Rect,
    buffer_area: Rect,
    presentation: Presentation,
    now: u64,
)
    ensures
        frame_step(s, area, buffer_area, presentation, now) is Some <==> drawable(
            s,
            area,
            buffer_area,
            presentation,
        ),
        frame_step(s, area, buffer_area, presentation, now) is Some ==> after_frame(
            s,
            area,
            buffer_area,
            presentation,
            now,
        ).last_frame == Some(now),
{
}

/// The first screen draws the logo only on a stage of at least `MIN_STAGE_ROWS` rows that
/// lies inside the available area, and only for full motion and an empty composer.
pub proof fn law_first_screen_stage_is_tall_enough(
    times: SequenceTimes,
    available: Rect,
    screen: Rect,
    composer: Option<ComposerState>,
    motion: MotionMode,
)
    requires
        screen.x + screen.width <= u16::MAX,
        screen.y + screen.height <= u16::MAX,
    ensures
        first_screen_shows(times, available, screen, composer, motion) ==> {
            let stage = stage_spec(times, screen);
            &&& stage.height >= MIN_STAGE_ROWS
            &&& rect_intersection(stage, available) == stage
            &&& motion == MotionMode::Full
            &&& composer == Some(ComposerState::Empty)
        },
{
}

} // verus!
