//! First-frame owned layout: the banner stays at the top and the normal composer at the bottom.
//! Measurement, paint, and cursor placement use the same bottom rectangle, including both footers.
//! Only a new conversation paints decoration in the unused area, so it cannot enter scrollback.

use vstd::prelude::*;
use crate::layout::{Rect, min_u16, rect_bottom, sat_add_u16, sat_sub_u16};

verus! {

/// What the startup draft is doing with the conversation.
#[derive(PartialEq, Eq, Structural, Clone, Copy, Debug)]
pub enum StartupDraftSessionAction {
    New,
    NewFromCommandCenter,
    Resume,
    Fork,
}

/// The layout of the first frame while a session starts.
#[derive(Debug)]
pub struct OwnedStartupLayout {
    pub session_action: StartupDraftSessionAction,
    pub submission_pending: bool,
    /// How long until the decoration asked to be painted again, in nanoseconds.
    pub next_frame: Option<u64>,
}

/// What one frame paints where.
#[derive(Debug)]
pub struct StartupFrame {
    /// The banner, at the top.
    pub header: Rect,
    /// The composer and its footers, at the bottom.
    pub bottom: Rect,
    /// The unused area a new conversation decorates.
    pub decoration: Option<Rect>,
    /// Whether the decoration is offered the empty composer.
    pub offer_composer: bool,
    /// The dimmed status line under the banner, and where it goes.
    pub message: Option<(&'static str, Rect)>,
}

/// `n` as a `u16`, or `u16::MAX` when it does not fit.
pub open spec fn clamp_u16(n: usize) -> u16 {
    if n > u16::MAX {
        u16::MAX
    } else {
        n as u16
    }
}

/// The bottom rectangle: the composer's height, at most the area's, at the area's bottom.
pub open spec fn bottom_area_spec(area: Rect, bottom_height: u16) -> Rect {
    let height = min_u16(bottom_height, area.height);
    Rect { y: sat_sub_u16(rect_bottom(area), height), height, ..area }
}

/// The banner's rectangle: its lines, at most up to the bottom rectangle.
pub open spec fn header_area_spec(area: Rect, bottom: Rect, header_lines: usize) -> Rect {
    Rect { height: min_u16(clamp_u16(header_lines), sat_sub_u16(bottom.y, area.y)), ..area }
}

/// The status line a resumed or forked session shows.
pub open spec fn message_spec(action: StartupDraftSessionAction) -> Option<Seq<char>> {
    match action {
        StartupDraftSessionAction::Resume => Some("  Resuming session\u{2026}"@),
        StartupDraftSessionAction::Fork => Some("  Forking session\u{2026}"@),
        _ => None,
    }
}

pub open spec fn is_new(action: StartupDraftSessionAction) -> bool {
    action == StartupDraftSessionAction::New || action == StartupDraftSessionAction::NewFromCommandCenter
}

impl OwnedStartupLayout {
    pub fn new(session_action: StartupDraftSessionAction, submission_pending: bool) -> (r: Self)
        ensures
            r.session_action == session_action,
            r.submission_pending == submission_pending,
            r.next_frame is None,
    {
        OwnedStartupLayout { session_action, submission_pending, next_frame: None }
    }

    /// The rectangle of the composer, whose desired height at `area`'s width is
    /// `bottom_height`.
    pub fn bottom_area(&self, area: Rect, bottom_height: u16) -> (r: Rect)
        ensures
            r == bottom_area_spec(area, bottom_height),
    {
        let height = if bottom_height <= area.height {
            bottom_height
        } else {
            area.height
        };
        Rect { y: area.bottom().saturating_sub(height), height, ..area }
    }

    /// What the frame in `area` paints where, for a banner of `header_lines` lines and a
    /// composer of desired height `bottom_height`.
    pub fn plan(&self, area: Rect, header_lines: usize, bottom_height: u16) -> (r: StartupFrame)
        ensures
            r.bottom == bottom_area_spec(area, bottom_height),
            r.header == header_area_spec(area, r.bottom, header_lines),
            r.decoration == if is_new(self.session_action) {
                Some(
                    Rect {
                        y: rect_bottom(r.header),
                        height: sat_sub_u16(r.bottom.y, rect_bottom(r.header)),
                        ..area
                    },
                )
            } else {
                None
            },
            r.offer_composer == (is_new(self.session_action) && !self.submission_pending),
            match r.message {
                Some((text, at)) => message_spec(self.session_action) == Some(text@)
                    && rect_bottom(r.header) < r.bottom.y && at == (Rect {
                    y: rect_bottom(r.header),
                    height: 1,
                    ..area
                }),
                None => message_spec(self.session_action) is None || rect_bottom(r.header)
                    >= r.bottom.y,
            },
    {
        let bottom = self.bottom_area(area, bottom_height);
        let lines: u16 = if header_lines > 65535 {
            u16::MAX
        } else {
            header_lines as u16
        };
        let room = bottom.y.saturating_sub(area.y);
        let header = Rect {
            height: if lines <= room {
                lines
            } else {
                room
            },
            ..area
        };
        let new = self.session_action == StartupDraftSessionAction::New || self.session_action
            == StartupDraftSessionAction::NewFromCommandCenter;
        let decoration = if new {
            Some(
                Rect {
                    y: header.bottom(),
                    height: bottom.y.saturating_sub(header.bottom()),
                    ..area
                },
            )
        } else {
            None
        };
        let text: Option<&'static str> = match self.session_action {
            StartupDraftSessionAction::Resume => Some("  Resuming session\u{2026}"),
            StartupDraftSessionAction::Fork => Some("  Forking session\u{2026}"),
            _ => None,
        };
        let message = match text {
            Some(t) => if header.bottom() < bottom.y {
                Some((t, Rect { y: header.bottom(), height: 1, ..area }))
            } else {
                None
            },
            None => None,
        };
        StartupFrame {
            header,
            bottom,
            decoration,
            offer_composer: new && !self.submission_pending,
            message,
        }
    }

    /// The height the layout wants: the banner's lines and the composer's height, at most
    /// `u16::MAX`.
    pub fn desired_height(&self, header_lines: usize, bottom_height: u16) -> (r: u16)
        ensures
            r == sat_add_u16(clamp_u16(header_lines), bottom_height),
    {
        let lines: u16 = if header_lines > 65535 {
            u16::MAX
        } else {
            header_lines as u16
        };
        lines.saturating_add(bottom_height)
    }

    /// Records when the decoration wants to be painted again.
    pub fn set_next_frame(&mut self, next_frame: Option<u64>)
        ensures
            final(self).next_frame == next_frame,
            final(self).session_action == old(self).session_action,
            final(self).submission_pending == old(self).submission_pending,
    {
        self.next_frame = next_frame;
    }
}


/// The banner stays at the top and the composer at the bottom: for an area within the
/// screen's coordinates, the banner starts at the area's top, the composer ends at the
/// area's bottom, and a new conversation's decoration fills exactly the rows between them.
pub proof fn law_frame_tiles_area(area: Rect, header_lines: usize, bottom_height: u16)
    requires
        area.y + area.height <= u16::MAX,
    ensures
        ({
            let bottom = bottom_area_spec(area, bottom_height);
            let header = header_area_spec(area, bottom, header_lines);
            let decoration = Rect {
                y: rect_bottom(header),
                height: sat_sub_u16(bottom.y, rect_bottom(header)),
                ..area
            };
            &&& header.y == area.y
            &&& rect_bottom(bottom) == rect_bottom(area)
            &&& rect_bottom(header) <= bottom.y
            &&& decoration.y == rect_bottom(header)
            &&& rect_bottom(decoration) == bottom.y
        }),
{
}

/// Measurement and layout agree: an area at least as tall as the desired height gives
/// the banner all of its lines and the composer all of its desired height.
pub proof fn law_desired_height_fits(area: Rect, header_lines: usize, bottom_height: u16)
    requires
        area.y + area.height <= u16::MAX,
        clamp_u16(header_lines) + bottom_height <= u16::MAX,
        area.height >= sat_add_u16(clamp_u16(header_lines), bottom_height),
    ensures
        ({
            let bottom = bottom_area_spec(area, bottom_height);
            &&& bottom.height == bottom_height
            &&& header_area_spec(area, bottom, header_lines).height == clamp_u16(header_lines)
        }),
{
}

} // verus!
