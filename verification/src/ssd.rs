//! The header bar that the compositor draws above windows whose clients draw
//! no decorations of their own.

use crate::geometry::Rect;
use crate::tiling::HEADER_BAR_HEIGHT;
use vstd::math::max;
use vstd::prelude::*;

verus! {

/// Color of the header bar.
pub const BG_COLOR: u32 = 0x414868;

/// Color of the close button.
pub const CLOSE_COLOR: u32 = 0xf7768e;

/// Color of the close button under the pointer.
pub const CLOSE_COLOR_HOVER: u32 = 0xdb4b4b;

/// Height of the close button, which fills the header bar.
pub const BUTTON_HEIGHT: u32 = 11;

/// Width of the close button.
pub const BUTTON_WIDTH: u32 = 11;

/// Distance of the close button from the right end of the header bar.
pub const BUTTON_RIGHT_MARGIN: u32 = 5;

/// A rectangle of one color.
#[derive(Debug, Clone, Copy, PartialEq, Eq, Structural)]
pub struct Fill {
    pub w: u32,
    pub h: u32,
    /// Color as red, green and blue.
    pub color: u32,
}

/// What a press on the header bar asks for.
#[derive(Debug, Clone, Copy, PartialEq, Eq, Structural)]
pub enum HeaderAction {
    Nothing,
    /// Ask the window to close.
    Close,
    /// Start to move the window.
    Move,
}

/// The header bar of a window.
#[derive(Debug, Clone, Copy, PartialEq, Eq, Structural)]
pub struct HeaderBar {
    /// The column of the header bar that the pointer is on, if it is on it.
    pub pointer: Option<i64>,
    pub width: u32,
    /// The close button was last drawn as being under the pointer.
    pub close_button_hover: bool,
    pub background: Fill,
    pub close_button: Fill,
}

/// `a - b`, or zero when that is negative.
pub open spec fn minus(a: int, b: int) -> int {
    max(a - b, 0)
}

/// Whether the pointer is on the close button of a header bar of some width.
pub open spec fn close_hover(pointer: Option<i64>, width: u32) -> bool {
    pointer matches Some(x) && minus(width as int, (BUTTON_WIDTH + BUTTON_RIGHT_MARGIN) as int) <= x
        < minus(width as int, BUTTON_RIGHT_MARGIN as int)
}

fn is_close_hover(pointer: Option<i64>, width: u32) -> (r: bool)
    ensures
        r == close_hover(pointer, width),
{
    match pointer {
        Some(x) => {
            let min_x: u32 = if width > BUTTON_WIDTH + BUTTON_RIGHT_MARGIN {
                width - (BUTTON_WIDTH + BUTTON_RIGHT_MARGIN)
            } else {
                0
            };
            let max_x: u32 = if width > BUTTON_RIGHT_MARGIN {
                width - BUTTON_RIGHT_MARGIN
            } else {
                0
            };
            x >= min_x as i64 && x < max_x as i64
        },
        None => false,
    }
}

/// A header bar that has never been drawn.
pub open spec fn fresh_header() -> HeaderBar {
    HeaderBar {
        pointer: None,
        width: 0,
        close_button_hover: false,
        background: Fill { w: 0, h: 0, color: 0 },
        close_button: Fill { w: 0, h: 0, color: 0 },
    }
}

impl Default for HeaderBar {
    fn default() -> (h: HeaderBar)
        ensures
            h == fresh_header(),
    {
        HeaderBar {
            pointer: None,
            width: 0,
            close_button_hover: false,
            background: Fill { w: 0, h: 0, color: 0 },
            close_button: Fill { w: 0, h: 0, color: 0 },
        }
    }
}

/// A header bar after it has been drawn with some width. The background is
/// drawn every time, the close button only when the width or its look changes.
pub open spec fn redrawn(bar: HeaderBar, width: u32) -> HeaderBar {
    if width == 0 {
        HeaderBar { width: 0, ..bar }
    } else {
        let hover = close_hover(bar.pointer, width);
        let stale = width != bar.width || hover != bar.close_button_hover;
        HeaderBar {
            pointer: bar.pointer,
            width,
            close_button_hover: hover,
            background: Fill { w: width, h: HEADER_BAR_HEIGHT as u32, color: BG_COLOR },
            close_button: if stale {
                Fill {
                    w: BUTTON_WIDTH,
                    h: BUTTON_HEIGHT,
                    color: if hover {
                        CLOSE_COLOR_HOVER
                    } else {
                        CLOSE_COLOR
                    },
                }
            } else {
                bar.close_button
            },
        }
    }
}

impl HeaderBar {
    /// The pointer is on a column of the header bar.
    pub fn pointer_enter(&mut self, x: i64)
        ensures
            *final(self) == (HeaderBar { pointer: Some(x), ..*old(self) }),
    {
        self.pointer = Some(x);
    }

    /// The pointer has left the header bar.
    pub fn pointer_leave(&mut self)
        ensures
            *final(self) == (HeaderBar { pointer: None, ..*old(self) }),
    {
        self.pointer = None;
    }

    /// What a click does: on the close button it closes the window, elsewhere
    /// on the header bar it starts to move it.
    pub fn clicked(&self) -> (r: HeaderAction)
        ensures
            r == (if close_hover(self.pointer, self.width) {
                HeaderAction::Close
            } else if self.pointer is Some {
                HeaderAction::Move
            } else {
                HeaderAction::Nothing
            }),
    {
        if is_close_hover(self.pointer, self.width) {
            HeaderAction::Close
        } else if self.pointer.is_some() {
            HeaderAction::Move
        } else {
            HeaderAction::Nothing
        }
    }

    /// What a finger that comes down does: anywhere but on the close button it
    /// starts to move the window.
    pub fn touch_down(&self) -> (r: HeaderAction)
        ensures
            r == (if !close_hover(self.pointer, self.width) && self.pointer is Some {
                HeaderAction::Move
            } else {
                HeaderAction::Nothing
            }),
    {
        if !is_close_hover(self.pointer, self.width) && self.pointer.is_some() {
            HeaderAction::Move
        } else {
            HeaderAction::Nothing
        }
    }

    /// What a finger that is lifted does: on the close button it closes the
    /// window.
    pub fn touch_up(&self) -> (r: HeaderAction)
        ensures
            r == (if close_hover(self.pointer, self.width) {
                HeaderAction::Close
            } else {
                HeaderAction::Nothing
            }),
    {
        if is_close_hover(self.pointer, self.width) {
            HeaderAction::Close
        } else {
            HeaderAction::Nothing
        }
    }

    /// Draws the header bar with a width.
    pub fn redraw(&mut self, width: u32)
        ensures
            *final(self) == redrawn(*old(self), width),
    {
        if width == 0 {
            self.width = 0;
            return;
        }
        self.background = Fill { w: width, h: HEADER_BAR_HEIGHT as u32, color: BG_COLOR };
        let mut needs_redraw_buttons: bool = false;
        if width != self.width {
            needs_redraw_buttons = true;
            self.width = width;
        }
        let hover: bool = is_close_hover(self.pointer, width);
        if hover && (needs_redraw_buttons || !self.close_button_hover) {
            self.close_button = Fill {
                w: BUTTON_WIDTH,
                h: BUTTON_HEIGHT,
                color: CLOSE_COLOR_HOVER,
            };
            self.close_button_hover = true;
        } else if !hover && (needs_redraw_buttons || self.close_button_hover) {
            self.close_button = Fill { w: BUTTON_WIDTH, h: BUTTON_HEIGHT, color: CLOSE_COLOR };
            self.close_button_hover = false;
        }
    }

    /// Column where the close button starts.
    pub fn button_column(&self) -> (x: i64)
        ensures
            x == minus(self.width as int, BUTTON_RIGHT_MARGIN as int) - BUTTON_WIDTH,
    {
        let end: u32 = if self.width > BUTTON_RIGHT_MARGIN {
            self.width - BUTTON_RIGHT_MARGIN
        } else {
            0
        };
        end as i64 - BUTTON_WIDTH as i64
    }
}

/// On a header bar with room for the close button, the pointer is on the
/// button exactly where the button is drawn.
pub proof fn button_reacts_where_it_is_drawn(bar: HeaderBar, x: i64)
    requires
        bar.width >= BUTTON_WIDTH + BUTTON_RIGHT_MARGIN,
    ensures
        ({
            let start = minus(bar.width as int, BUTTON_RIGHT_MARGIN as int) - BUTTON_WIDTH;
            close_hover(Some(x), bar.width) == (start <= x < start + BUTTON_WIDTH)
        }),
{
}

/// Drawing a header bar again with the same width changes nothing.
pub proof fn redraw_is_idempotent(bar: HeaderBar, width: u32)
    ensures
        redrawn(redrawn(bar, width), width) == redrawn(bar, width),
{
}

/// The opaque fill that is drawn right behind a window's content, so that what
/// is translucent in it does not show other windows: as large as the content and
/// in the color of the header bar. A window whose background is blurred has none.
pub fn window_backdrop(content: Rect, blurred: bool) -> (r: Option<(Rect, u32)>)
    ensures
        r == (if blurred {
            None
        } else {
            Some((content, BG_COLOR))
        }),
{
    if blurred {
        None
    } else {
        Some((content, BG_COLOR))
    }
}

/// How the compositor decorates a window.
#[derive(Debug, Clone, Copy, PartialEq, Eq, Structural)]
pub struct WindowState {
    /// The compositor draws the header bar.
    pub is_ssd: bool,
    pub header_bar: HeaderBar,
}

impl Default for WindowState {
    fn default() -> (s: WindowState)
        ensures
            s == (WindowState { is_ssd: false, header_bar: fresh_header() }),
    {
        WindowState { is_ssd: false, header_bar: HeaderBar::default() }
    }
}

/// A window and its decoration, which it gets when it is first asked for.
#[derive(Debug, Clone, Copy, PartialEq, Eq, Structural)]
pub struct WindowElement {
    pub id: u64,
    pub decoration: Option<WindowState>,
}

impl WindowElement {
    /// The decoration as it is, or undecorated when there is none yet.
    pub open spec fn is_decorated(self) -> bool {
        self.decoration matches Some(state) && state.is_ssd
    }

    /// The decoration, created when there is none yet.
    pub fn decoration_state(&mut self) -> (s: WindowState)
        ensures
            final(self).id == old(self).id,
            final(self).decoration == Some(s),
            old(self).decoration is Some ==> *final(self) == *old(self),
            old(self).decoration is None ==> s == (WindowState {
                is_ssd: false,
                header_bar: fresh_header(),
            }),
    {
        match self.decoration {
            Some(state) => state,
            None => {
                let state = WindowState::default();
                self.decoration = Some(state);
                state
            },
        }
    }

    /// Turns the header bar on or off.
    pub fn set_ssd(&mut self, ssd: bool)
        ensures
            final(self).id == old(self).id,
            final(self).is_decorated() == ssd,
            final(self).decoration == Some(
                WindowState {
                    is_ssd: ssd,
                    header_bar: match old(self).decoration {
                        Some(state) => state.header_bar,
                        None => fresh_header(),
                    },
                },
            ),
    {
        let state: WindowState = self.decoration_state();
        self.decoration = Some(WindowState { is_ssd: ssd, header_bar: state.header_bar });
    }
}

/// The pointer is on the close button where it is at least the margin and at
/// most the margin and the button away from the right end of the header bar.
pub proof fn close_button_is_at_the_right_end(width: u32, x: i64)
    ensures
        close_hover(Some(x), width) <==> 0 <= x && BUTTON_RIGHT_MARGIN < width - x
            <= BUTTON_RIGHT_MARGIN + BUTTON_WIDTH,
        !close_hover(None, width),
{
}

/// Whether the close button looks as it was last drawn to look.
pub open spec fn shows_its_state(bar: HeaderBar) -> bool {
    bar.close_button.w == BUTTON_WIDTH && bar.close_button.h == BUTTON_HEIGHT
        && bar.close_button.color == (if bar.close_button_hover {
        CLOSE_COLOR_HOVER
    } else {
        CLOSE_COLOR
    })
}

/// A drawn header bar is as wide as asked for, and its close button is
/// highlighted if and only if the pointer is on it, whatever was drawn before.
pub proof fn drawn_header_bar_shows_the_pointer(bar: HeaderBar, width: u32)
    requires
        width > 0,
        bar.width == 0 || shows_its_state(bar),
    ensures
        ({
            let drawn = redrawn(bar, width);
            &&& drawn.width == width
            &&& drawn.pointer == bar.pointer
            &&& drawn.background.w == width
            &&& drawn.background.h == HEADER_BAR_HEIGHT
            &&& drawn.background.color == BG_COLOR
            &&& shows_its_state(drawn)
            &&& drawn.close_button_hover <==> close_hover(bar.pointer, width)
            &&& drawn.close_button.color == CLOSE_COLOR_HOVER <==> close_hover(bar.pointer, width)
        }),
{
}

/// A header bar that has never been drawn has no width and nothing to show, and
/// the pointer is not on it.
pub proof fn fresh_header_shows_nothing()
    ensures
        fresh_header().pointer is None,
        fresh_header().width == 0,
        !fresh_header().close_button_hover,
        fresh_header().background.w == 0 && fresh_header().background.h == 0,
        fresh_header().close_button.w == 0 && fresh_header().close_button.h == 0,
{
}

} // verus!
