//! The loop of the nested backend: what happens from one frame to the next.

use crate::shell::{CursorImage, SpitfireState};
use vstd::math::max;
use vstd::prelude::*;

verus! {

/// Refresh rate of the nested output, in thousandths of a Hertz.
pub const REFRESH: i32 = 60_000;

/// Frames that are drawn from scratch after the buffers were reset.
pub const FULL_REDRAWS: u8 = 4;

/// State of the loop.
#[derive(Debug, Clone, Copy, PartialEq, Eq, Structural)]
pub struct FrameLoop {
    pub running: bool,
    /// Frames that are still drawn from scratch, plus one.
    pub full_redraw: u8,
}

impl Default for FrameLoop {
    fn default() -> (l: FrameLoop)
        ensures
            l == (FrameLoop { running: true, full_redraw: 0 }),
    {
        FrameLoop { running: true, full_redraw: 0 }
    }
}

/// How drawing a frame came out.
#[derive(Debug, Clone, Copy, PartialEq, Eq, Structural)]
pub enum FrameResult {
    /// The frame was drawn; `damage` tells whether anything on it changed.
    Drawn { damage: bool },
    /// The graphics context is gone.
    ContextLost,
    /// Drawing failed for now.
    Failed,
}

/// What follows a frame.
#[derive(Debug, Clone, Copy, PartialEq, Eq, Structural)]
pub struct FrameOutcome {
    /// The frame is put on the screen.
    pub submit: bool,
    /// Clients are told when it is shown.
    pub present: bool,
    /// Clients are told to draw their next frame.
    pub post_repaint: bool,
}

/// What is drawn besides the windows.
#[derive(Debug, Clone, Copy, PartialEq, Eq, Structural)]
pub struct FramePlan {
    /// The cursor of the surrounding session is shown.
    pub cursor_visible: bool,
    /// The bar is drawn.
    pub bar: bool,
    /// Blurred backdrops are drawn.
    pub blur: bool,
    /// The surface of the screen locker that is shown.
    pub locked_surface: Option<u64>,
}

/// A step of the work between two frames.
#[derive(Debug, Clone, Copy, PartialEq, Eq, Structural)]
pub enum Housekeeping {
    /// Lay out the active workspace.
    ArrangeTiling,
    /// Forget windows that are gone.
    RefreshSpace,
    /// Bring the list of open windows up to date.
    SyncToplevels,
    /// Forget popups that are gone.
    CleanupPopups,
    /// Send what is waiting to be sent to clients.
    FlushClients,
}

impl FrameLoop {
    /// The buffers of the output hold nothing of use any more.
    pub fn reset_buffers(&mut self)
        ensures
            *final(self) == (FrameLoop { full_redraw: FULL_REDRAWS, ..*old(self) }),
    {
        self.full_redraw = FULL_REDRAWS;
    }

    /// The surrounding session may have asked the compositor to exit.
    pub fn events_dispatched(&mut self, exit: bool)
        ensures
            *final(self) == (FrameLoop { running: old(self).running && !exit, ..*old(self) }),
    {
        if exit {
            self.running = false;
        }
    }

    /// Starts a frame: how old the contents of the buffer are that is drawn to,
    /// zero meaning that all of it is drawn. `buffer_age` is what the backend
    /// knows.
    pub fn begin_frame(&mut self, buffer_age: Option<usize>) -> (age: usize)
        ensures
            final(self).running == old(self).running,
            final(self).full_redraw == max(old(self).full_redraw - 1, 0),
            age == (if old(self).full_redraw > 1 {
                0
            } else {
                match buffer_age {
                    Some(age) => age,
                    None => 0,
                }
            }),
    {
        if self.full_redraw > 0 {
            self.full_redraw = self.full_redraw - 1;
        }
        if self.full_redraw > 0 {
            0
        } else {
            match buffer_age {
                Some(age) => age,
                None => 0,
            }
        }
    }

    /// Takes note of how drawing a frame came out.
    pub fn end_frame(&mut self, result: FrameResult) -> (outcome: FrameOutcome)
        ensures
            final(self).full_redraw == old(self).full_redraw,
            final(self).running == (old(self).running && !(result is ContextLost)),
            outcome == (match result {
                FrameResult::Drawn { damage } => FrameOutcome {
                    submit: damage,
                    present: damage,
                    post_repaint: true,
                },
                _ => FrameOutcome { submit: false, present: false, post_repaint: false },
            }),
    {
        match result {
            FrameResult::Drawn { damage } => FrameOutcome {
                submit: damage,
                present: damage,
                post_repaint: true,
            },
            FrameResult::ContextLost => {
                self.running = false;
                FrameOutcome { submit: false, present: false, post_repaint: false }
            },
            FrameResult::Failed => FrameOutcome {
                submit: false,
                present: false,
                post_repaint: false,
            },
        }
    }

    /// The work between two frames, after the requests of clients have been
    /// dealt with; the loop ends when that failed.
    pub fn between_frames(&mut self, dispatched: bool) -> (work: Vec<Housekeeping>)
        ensures
            *final(self) == (FrameLoop { running: old(self).running && dispatched, ..*old(self) }),
            work@ == (if dispatched {
                seq![
                    Housekeeping::ArrangeTiling,
                    Housekeeping::RefreshSpace,
                    Housekeeping::SyncToplevels,
                    Housekeeping::CleanupPopups,
                    Housekeeping::FlushClients,
                ]
            } else {
                Seq::<Housekeeping>::empty()
            }),
    {
        let mut work: Vec<Housekeeping> = Vec::new();
        if !dispatched {
            self.running = false;
            return work;
        }
        work.push(Housekeeping::ArrangeTiling);
        work.push(Housekeeping::RefreshSpace);
        work.push(Housekeeping::SyncToplevels);
        work.push(Housekeeping::CleanupPopups);
        work.push(Housekeeping::FlushClients);
        assert(work@ =~= seq![
            Housekeeping::ArrangeTiling,
            Housekeeping::RefreshSpace,
            Housekeeping::SyncToplevels,
            Housekeeping::CleanupPopups,
            Housekeeping::FlushClients,
        ]);
        work
    }
}

/// How old the contents of the buffer count when backdrops are blurred: their
/// contents are new with every frame, so everything is drawn.
pub fn age_with_backdrops(age: usize, backdrops: usize) -> (r: usize)
    ensures
        r == (if backdrops == 0 {
            age
        } else {
            0
        }),
{
    if backdrops == 0 {
        age
    } else {
        0
    }
}

impl SpitfireState {
    /// What is drawn besides the windows. A cursor surface that is gone gives
    /// way to the cursor of the theme. While the session is locked neither the
    /// bar nor a blurred backdrop is drawn.
    pub fn plan_frame(&mut self, cursor_alive: bool) -> (plan: FramePlan)
        ensures
            final(self).cursor == (if old(self).cursor is Surface && !cursor_alive {
                CursorImage::Named
            } else {
                old(self).cursor
            }),
            final(self).desktop == old(self).desktop,
            final(self).anims == old(self).anims,
            final(self).pending_initial_focus == old(self).pending_initial_focus,
            final(self).locked == old(self).locked,
            final(self).lock_surfaces == old(self).lock_surfaces,
            final(self).dnd_icon == old(self).dnd_icon,
            plan == (FramePlan {
                cursor_visible: !(final(self).cursor is Surface),
                bar: !old(self).locked,
                blur: !old(self).locked,
                locked_surface: if old(self).locked && old(self).lock_surfaces@.len() > 0 {
                    Some(old(self).lock_surfaces@[0])
                } else {
                    None
                },
            }),
    {
        let mut visible: bool = true;
        if let CursorImage::Surface { .. } = self.cursor {
            if cursor_alive {
                visible = false;
            } else {
                self.cursor = CursorImage::Named;
            }
        }
        FramePlan {
            cursor_visible: visible,
            bar: !self.locked,
            blur: !self.locked,
            locked_surface: self.locked_surface(),
        }
    }
}

} // verus!
