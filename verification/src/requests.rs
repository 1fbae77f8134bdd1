//! Decisions on requests of clients that touch no state of the desktop.

use crate::action::Action;
use crate::border::MappedWindow;
use crate::geometry::{Point, Rect};
use crate::text;
use vstd::prelude::*;

verus! {

/// Tokens for activation are good for this many seconds.
pub const ACTIVATION_SECONDS: u64 = 10;

/// How a token for activation was asked for.
#[derive(Debug, Clone, Copy, PartialEq, Eq, Structural)]
pub struct TokenRequest {
    /// The token comes with the serial of an input event.
    pub has_serial: bool,
    /// The event was on the compositor's own seat.
    pub own_seat: bool,
    /// The event is no older than the moment at which the keyboard focus last
    /// moved to a client; false when it never did.
    pub recent: bool,
}

/// Whether a token for activation is granted: only to a client that had input
/// since the focus last moved.
pub fn token_created(request: &TokenRequest) -> (granted: bool)
    ensures
        granted == (request.has_serial && request.own_seat && request.recent),
{
    request.has_serial && request.own_seat && request.recent
}

/// A window asks to come to the front with a token of the given age.
pub fn request_activation(age_seconds: u64, window: Option<u64>) -> (r: Option<Action>)
    ensures
        r == (match window {
            Some(window) => if age_seconds < ACTIVATION_SECONDS {
                Some(Action::Raise { window })
            } else {
                None
            },
            None => None,
        }),
{
    if age_seconds < ACTIVATION_SECONDS {
        match window {
            Some(window) => Some(Action::Raise { window }),
            None => None,
        }
    } else {
        None
    }
}

/// Who draws the decorations of a window.
#[derive(Debug, Clone, Copy, PartialEq, Eq, Structural)]
pub enum DecorationMode {
    ClientSide,
    ServerSide,
}

/// The answer to a request about decorations.
#[derive(Debug, Clone, Copy, PartialEq, Eq, Structural)]
pub struct DecorationReply {
    pub mode: DecorationMode,
    /// The client is told at once.
    pub send: bool,
}

/// A new window starts with decorations of its own.
pub fn new_decoration() -> (r: DecorationReply)
    ensures
        r == (DecorationReply { mode: DecorationMode::ClientSide, send: false }),
{
    DecorationReply { mode: DecorationMode::ClientSide, send: false }
}

/// A client asks for a mode. Server-side decorations are granted; whatever else
/// is asked for, the client draws its own. A window that has had its first
/// configure is told at once.
pub fn request_mode(server_side: bool, configured: bool) -> (r: DecorationReply)
    ensures
        r == (DecorationReply {
            mode: if server_side {
                DecorationMode::ServerSide
            } else {
                DecorationMode::ClientSide
            },
            send: configured,
        }),
{
    DecorationReply {
        mode: if server_side { DecorationMode::ServerSide } else { DecorationMode::ClientSide },
        send: configured,
    }
}

/// A client no longer asks for a mode: it draws its own decorations.
pub fn unset_mode(configured: bool) -> (r: DecorationReply)
    ensures
        r == (DecorationReply { mode: DecorationMode::ClientSide, send: configured }),
{
    request_mode(false, configured)
}

/// Whether a window has a surface and where it is, for the first window with
/// that surface.
pub open spec fn surface_geometry(windows: Seq<MappedWindow>, surface: u64) -> Rect
    decreases windows.len(),
{
    if windows.len() == 0 {
        Rect { x: 0, y: 0, w: 0, h: 0 }
    } else if windows[0].id == surface {
        windows[0].geometry
    } else {
        surface_geometry(windows.drop_first(), surface)
    }
}

/// The geometry of the window with a surface, by which windows are listed
/// here; an empty one at the origin when there is none.
pub fn parent_geometry(windows: &[MappedWindow], surface: u64) -> (r: Rect)
    ensures
        r == surface_geometry(windows@, surface),
{
    let mut i: usize = 0;
    assert(windows@.skip(0) =~= windows@);
    while i < windows.len()
        invariant
            i <= windows@.len(),
            surface_geometry(windows@, surface) == surface_geometry(
                windows@.skip(i as int),
                surface,
            ),
        decreases windows@.len() - i,
    {
        if windows[i].id == surface {
            return windows[i].geometry;
        }
        assert(windows@.skip(i as int).drop_first() =~= windows@.skip(i + 1));
        i = i + 1;
    }
    Rect { x: 0, y: 0, w: 0, h: 0 }
}

/// The point that a client's hint about the cursor is relative to. Only hints
/// for a constraint that is active are followed.
pub fn cursor_hint_origin(active: bool, windows: &[MappedWindow], surface: u64) -> (r: Option<Point>)
    ensures
        r == (if active {
            Some(
                Point {
                    x: surface_geometry(windows@, surface).x,
                    y: surface_geometry(windows@, surface).y,
                },
            )
        } else {
            None
        }),
{
    if active {
        let geo: Rect = parent_geometry(windows, surface);
        Some(Point { x: geo.x, y: geo.y })
    } else {
        None
    }
}

/// Whether a new constraint on the pointer takes effect at once: only on the
/// surface that the pointer is on.
pub fn new_constraint(pointer_focus: Option<u64>, surface: u64) -> (activate: bool)
    ensures
        activate == (pointer_focus == Some(surface)),
{
    match pointer_focus {
        Some(focus) => focus == surface,
        None => false,
    }
}

/// Whether a client may set up a security context: one that is in a context
/// itself may not. `None` stands for a client that the compositor started
/// itself.
pub fn may_create_context(in_context: Option<bool>) -> (r: bool)
    ensures
        r == (in_context != Some(true)),
{
    match in_context {
        Some(inside) => !inside,
        None => true,
    }
}

/// What the compositor runs on.
#[derive(Debug, Clone, Copy, PartialEq, Eq, Structural)]
pub enum BackendKind {
    /// A window in another session.
    Winit,
    /// The hardware itself.
    Udev,
}

/// The backend that the first argument of the program selects; none for an
/// argument that is not known. Without an argument the nested backend is used.
pub fn select_backend(arg: Option<&str>) -> (r: Option<BackendKind>)
    ensures
        r == (match arg {
            None => Some(BackendKind::Winit),
            Some(a) => if a@ == "--winit"@ {
                Some(BackendKind::Winit)
            } else if a@ == "--udev"@ {
                Some(BackendKind::Udev)
            } else {
                None
            },
        }),
{
    match arg {
        None => Some(BackendKind::Winit),
        Some(a) => if text::same_str(a, "--winit") {
            Some(BackendKind::Winit)
        } else if text::same_str(a, "--udev") {
            Some(BackendKind::Udev)
        } else {
            None
        },
    }
}

/// The geometry of a surface is that of the first window that has it.
pub proof fn first_window_with_the_surface_counts(
    windows: Seq<MappedWindow>,
    surface: u64,
    i: int,
)
    requires
        0 <= i < windows.len(),
        windows[i].id == surface,
        forall|j: int| 0 <= j < i ==> (#[trigger] windows[j]).id != surface,
    ensures
        surface_geometry(windows, surface) == windows[i].geometry,
    decreases i,
{
    if i > 0 {
        assert(windows[0].id != surface);
        let rest = windows.drop_first();
        assert forall|j: int| 0 <= j < i - 1 implies (#[trigger] rest[j]).id != surface by {
            assert(windows[j + 1].id != surface);
        }
        first_window_with_the_surface_counts(rest, surface, i - 1);
    }
}

/// A surface that no window has is nowhere: empty, at the origin.
pub proof fn unknown_surfaces_are_nowhere(windows: Seq<MappedWindow>, surface: u64)
    requires
        forall|j: int| 0 <= j < windows.len() ==> (#[trigger] windows[j]).id != surface,
    ensures
        surface_geometry(windows, surface) == (Rect { x: 0, y: 0, w: 0, h: 0 }),
    decreases windows.len(),
{
    if windows.len() > 0 {
        assert(windows[0].id != surface);
        let rest = windows.drop_first();
        assert forall|j: int| 0 <= j < rest.len() implies (#[trigger] rest[j]).id != surface by {
            assert(windows[j + 1].id != surface);
        }
        unknown_surfaces_are_nowhere(rest, surface);
    }
}

} // verus!
