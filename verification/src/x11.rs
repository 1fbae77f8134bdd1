//! Duties of a window manager towards X11 clients: what their requests do.
//!
//! Every request yields the steps that the compositor carries out for the
//! window that the request is about.

use crate::binary32;
use crate::binary64;
use crate::desktop;
use crate::desktop::Desktop;
use crate::fullscreen::FullscreenSurface;
use crate::geometry::{Point, Rect, Size};
use crate::outputs;
use crate::outputs::{NewPlace, OutputFacts};
use crate::scratchpad;
use vstd::prelude::*;

verus! {

/// What a window says that it is.
#[derive(Debug, Clone, Copy, PartialEq, Eq, Structural)]
pub enum WindowKind {
    Menu,
    DropdownMenu,
    PopupMenu,
    Tooltip,
    Notification,
    /// A dialog, a toolbar, a splash screen or an ordinary window.
    Other,
}

/// An X11 window as its client has set it up.
#[derive(Debug, Clone, Copy, PartialEq, Eq, Structural)]
pub struct X11Facts {
    /// The client wants no window manager for this window.
    pub override_redirect: bool,
    /// The window belongs to another one.
    pub transient: bool,
    pub kind: Option<WindowKind>,
    /// Where the client has the window.
    pub geometry: Rect,
}

/// A step for the compositor, about the window of the request.
#[derive(Debug, Clone, Copy, PartialEq, Eq, Structural)]
pub enum X11Step {
    /// Tell the X server whether the window is mapped.
    SetMapped { mapped: bool },
    /// Map the window at a place, on top of the others.
    Show { at: Point, activate: bool },
    /// Take the window off the screen.
    Unmap,
    /// Tell the client its place and size.
    Configure { to: Rect },
    /// Tell the client the place and size that the window has on the screen.
    ConfigureAsShown,
    SetMaximized { maximized: bool },
    SetFullscreen { fullscreen: bool },
    /// Draw no header bar above the window.
    Undecorate,
    /// Bring the floating windows to the front.
    RaiseFloating,
    /// Draw an output anew from scratch.
    ResetBuffers { output: u64 },
}

/// Whether a window places itself: it belongs to another one, or it is a menu,
/// a tooltip or a notification.
pub open spec fn positioned_by_client(facts: X11Facts) -> bool {
    facts.transient || facts.kind == Some(WindowKind::Menu) || facts.kind == Some(
        WindowKind::DropdownMenu,
    ) || facts.kind == Some(WindowKind::PopupMenu) || facts.kind == Some(WindowKind::Tooltip)
        || facts.kind == Some(WindowKind::Notification)
}

/// Whether a window places itself.
pub fn is_positioned_by_client(facts: &X11Facts) -> (r: bool)
    ensures
        r == positioned_by_client(*facts),
{
    facts.transient || match facts.kind {
        Some(WindowKind::Menu) => true,
        Some(WindowKind::DropdownMenu) => true,
        Some(WindowKind::PopupMenu) => true,
        Some(WindowKind::Tooltip) => true,
        Some(WindowKind::Notification) => true,
        Some(WindowKind::Other) => false,
        None => false,
    }
}

/// A client wants to map a window. One that places itself is mapped where it
/// is; any other one gets a place and joins the active tiling order, and never
/// has a header bar.
pub fn map_window_request(
    desktop: &mut Desktop,
    window: u64,
    facts: &X11Facts,
    outputs: &[OutputFacts],
    pointer: Point,
    alive: &[u64],
) -> (steps: Vec<X11Step>)
    requires
        old(desktop).wf(),
        !positioned_by_client(*facts) ==> outputs::has_room(
            outputs::spec_placement_area(outputs@, pointer),
        ),
        forall|i: int| 0 <= i < outputs@.len() ==> outputs::zone_fits(#[trigger] outputs@[i]),
    ensures
        final(desktop).wf(),
        positioned_by_client(*facts) ==> *final(desktop) == *old(desktop) && steps@ == seq![
            X11Step::SetMapped { mapped: true },
            X11Step::Show {
                at: Point { x: facts.geometry.x, y: facts.geometry.y },
                activate: true,
            },
        ],
        !positioned_by_client(*facts) ==> {
            let area = outputs::spec_placement_area(outputs@, pointer);
            let at = steps@[1]->at;
            &&& desktop::joined(*old(desktop), *final(desktop), window, alive@)
            &&& old(desktop).same_but_workspaces(*final(desktop))
            &&& final(desktop).slide == old(desktop).slide
            &&& steps@ == seq![
                X11Step::SetMapped { mapped: true },
                X11Step::Show { at, activate: true },
                X11Step::ConfigureAsShown,
                X11Step::Undecorate,
            ]
            &&& area.x <= at.x < area.x + binary32::spec_two_thirds(area.w)
            &&& area.y <= at.y < area.y + binary32::spec_two_thirds(area.h)
        },
{
    let mut steps: Vec<X11Step> = Vec::new();
    steps.push(X11Step::SetMapped { mapped: true });
    if is_positioned_by_client(facts) {
        steps.push(
            X11Step::Show {
                at: Point { x: facts.geometry.x, y: facts.geometry.y },
                activate: true,
            },
        );
        assert(steps@ =~= seq![
            X11Step::SetMapped { mapped: true },
            X11Step::Show {
                at: Point { x: facts.geometry.x, y: facts.geometry.y },
                activate: true,
            },
        ]);
        return steps;
    }
    let place: NewPlace = outputs::place_new_window(outputs, pointer);
    steps.push(X11Step::Show { at: place.at, activate: true });
    desktop.join_active(window, alive);
    steps.push(X11Step::ConfigureAsShown);
    steps.push(X11Step::Undecorate);
    assert(steps@ =~= seq![
        X11Step::SetMapped { mapped: true },
        X11Step::Show { at: place.at, activate: true },
        X11Step::ConfigureAsShown,
        X11Step::Undecorate,
    ]);
    steps
}

/// A window that no window manager handles has been mapped: it is shown where
/// it is.
pub fn mapped_override_redirect_window(facts: &X11Facts) -> (step: X11Step)
    ensures
        step == (X11Step::Show {
            at: Point { x: facts.geometry.x, y: facts.geometry.y },
            activate: true,
        }),
{
    X11Step::Show { at: Point { x: facts.geometry.x, y: facts.geometry.y }, activate: true }
}

/// A window has been unmapped. If it was on the screen, as `shown`, it leaves
/// the screen and every tiling order.
pub fn unmapped_window(
    desktop: &mut Desktop,
    shown: Option<u64>,
    override_redirect: bool,
) -> (steps: Vec<X11Step>)
    requires
        old(desktop).wf(),
    ensures
        final(desktop).wf(),
        old(desktop).same_but_workspaces(*final(desktop)),
        final(desktop).slide == old(desktop).slide,
        shown matches Some(w) ==> scratchpad::stashed(
            old(desktop).workspaces,
            final(desktop).workspaces,
            w,
        ),
        shown is None ==> *final(desktop) == *old(desktop),
        steps@ == (if shown is Some {
            seq![X11Step::Unmap]
        } else {
            Seq::<X11Step>::empty()
        }) + (if override_redirect {
            Seq::<X11Step>::empty()
        } else {
            seq![X11Step::SetMapped { mapped: false }]
        }),
{
    let mut steps: Vec<X11Step> = Vec::new();
    if let Some(w) = shown {
        steps.push(X11Step::Unmap);
        desktop.remove_everywhere(w);
    }
    if !override_redirect {
        steps.push(X11Step::SetMapped { mapped: false });
    }
    assert(steps@ =~= (if shown is Some {
        seq![X11Step::Unmap]
    } else {
        Seq::<X11Step>::empty()
    }) + (if override_redirect {
        Seq::<X11Step>::empty()
    } else {
        seq![X11Step::SetMapped { mapped: false }]
    }));
    steps
}

/// A client asks for another size. Windows that place themselves are left to
/// the X server; any other one may change its size and stays where it is.
pub fn configure_request(facts: &X11Facts, w: Option<u32>, h: Option<u32>) -> (r: Option<Rect>)
    ensures
        r == (if facts.override_redirect || positioned_by_client(*facts) {
            None
        } else {
            Some(
                Rect {
                    x: facts.geometry.x,
                    y: facts.geometry.y,
                    w: match w {
                        Some(w) => w as i32,
                        None => facts.geometry.w,
                    },
                    h: match h {
                        Some(h) => h as i32,
                        None => facts.geometry.h,
                    },
                },
            )
        }),
{
    if facts.override_redirect || is_positioned_by_client(facts) {
        return None;
    }
    let mut geo: Rect = facts.geometry;
    if let Some(w) = w {
        geo.w = w as i32;
    }
    if let Some(h) = h {
        geo.h = h as i32;
    }
    Some(geo)
}

/// A window has been moved by the X server. `location` is where it is mapped,
/// if it is on the screen. A window that is there already is left alone, so
/// that it does not come to the front.
pub fn configure_notify(location: Option<Option<Point>>, geometry: Rect) -> (steps: Vec<X11Step>)
    ensures
        steps@ == (if location matches Some(at) && at != Some(
            Point { x: geometry.x, y: geometry.y },
        ) {
            seq![
                X11Step::Show { at: Point { x: geometry.x, y: geometry.y }, activate: false },
                X11Step::RaiseFloating,
            ]
        } else {
            Seq::<X11Step>::empty()
        }),
{
    let mut steps: Vec<X11Step> = Vec::new();
    if let Some(at) = location {
        let same: bool = match at {
            Some(p) => p.x == geometry.x && p.y == geometry.y,
            None => false,
        };
        if !same {
            steps.push(
                X11Step::Show { at: Point { x: geometry.x, y: geometry.y }, activate: false },
            );
            steps.push(X11Step::RaiseFloating);
            assert(steps@ =~= seq![
                X11Step::Show { at: Point { x: geometry.x, y: geometry.y }, activate: false },
                X11Step::RaiseFloating,
            ]);
        }
    }
    steps
}

/// The place and size that a window had before it was maximized.
#[derive(Debug, Clone, Copy, PartialEq, Eq, Structural)]
pub struct OldGeometry {
    pub saved: Option<Rect>,
}

impl Default for OldGeometry {
    fn default() -> (o: OldGeometry)
        ensures
            o.saved is None,
    {
        OldGeometry { saved: None }
    }
}

impl OldGeometry {
    /// Remembers a place and size.
    pub fn save(&mut self, geo: Rect)
        ensures
            final(self).saved == Some(geo),
    {
        self.saved = Some(geo);
    }

    /// Gives back what was remembered, once.
    pub fn restore(&mut self) -> (r: Option<Rect>)
        ensures
            r == old(self).saved,
            final(self).saved is None,
    {
        let was: Option<Rect> = self.saved;
        self.saved = None;
        was
    }
}

/// The output of a window: the first one that it is on, or else the first one
/// there is.
pub open spec fn output_of(first_of_window: Option<u64>, outputs: Seq<OutputFacts>) -> u64 {
    match first_of_window {
        Some(id) => id,
        None => outputs[0].id,
    }
}

fn find_output(first_of_window: Option<u64>, outputs: &[OutputFacts]) -> (id: u64)
    requires
        first_of_window is Some || outputs@.len() > 0,
    ensures
        id == output_of(first_of_window, outputs@),
{
    match first_of_window {
        Some(id) => id,
        None => outputs[0].id,
    }
}

/// Maximizes a window that is on the screen, as `shown`: it fills the output,
/// and where it was is remembered. Nothing happens to a window that is not on
/// the screen.
pub fn maximize_request_x11(
    old_geometry: &mut OldGeometry,
    shown: Option<Rect>,
    first_of_window: Option<u64>,
    outputs: &[OutputFacts],
) -> (steps: Vec<X11Step>)
    requires
        shown is Some ==> first_of_window is Some || outputs@.len() > 0,
        shown is Some ==> outputs::spec_geometry_of(
            outputs@,
            output_of(first_of_window, outputs@),
        ) is Some,
    ensures
        shown is None ==> steps@.len() == 0 && *final(old_geometry) == *old(old_geometry),
        shown matches Some(bbox) ==> {
            let to = outputs::spec_geometry_of(
                outputs@,
                output_of(first_of_window, outputs@),
            )->0;
            &&& final(old_geometry).saved == Some(bbox)
            &&& steps@ == seq![
                X11Step::SetMaximized { maximized: true },
                X11Step::Configure { to },
                X11Step::Show { at: Point { x: to.x, y: to.y }, activate: false },
            ]
        },
{
    let mut steps: Vec<X11Step> = Vec::new();
    let bbox: Rect = match shown {
        Some(bbox) => bbox,
        None => return steps,
    };
    let id: u64 = find_output(first_of_window, outputs);
    let ghost wanted = outputs::spec_geometry_of(outputs@, id)->0;
    old_geometry.save(bbox);
    if let Some(to) = outputs::geometry_of(outputs, id) {
        steps.push(X11Step::SetMaximized { maximized: true });
        steps.push(X11Step::Configure { to });
        steps.push(X11Step::Show { at: Point { x: to.x, y: to.y }, activate: false });
    }
    assert(steps@ =~= seq![
        X11Step::SetMaximized { maximized: true },
        X11Step::Configure { to: wanted },
        X11Step::Show { at: Point { x: wanted.x, y: wanted.y }, activate: false },
    ]);
    steps
}

/// The steps that bring a window back to where it was.
pub open spec fn unmaximize_steps(saved: Option<Rect>) -> Seq<X11Step> {
    let first = seq![X11Step::SetMaximized { maximized: false }];
    match saved {
        Some(geo) => first + seq![
            X11Step::Configure { to: geo },
            X11Step::Show { at: Point { x: geo.x, y: geo.y }, activate: false },
        ],
        None => first,
    }
}

/// Ends the maximized state of a window: it goes back to where it was, if that
/// is known. Nothing happens to a window that is not on the screen.
pub fn unmaximize_request(shown: bool, old_geometry: &mut OldGeometry) -> (steps: Vec<X11Step>)
    ensures
        shown ==> steps@ == unmaximize_steps(old(old_geometry).saved),
        shown ==> final(old_geometry).saved is None,
        !shown ==> steps@.len() == 0 && *final(old_geometry) == *old(old_geometry),
{
    let mut steps: Vec<X11Step> = Vec::new();
    if !shown {
        return steps;
    }
    steps.push(X11Step::SetMaximized { maximized: false });
    if let Some(geo) = old_geometry.restore() {
        steps.push(X11Step::Configure { to: geo });
        steps.push(X11Step::Show { at: Point { x: geo.x, y: geo.y }, activate: false });
    }
    assert(steps@ =~= unmaximize_steps(old(old_geometry).saved));
    steps
}

/// Maximizing a window and ending that again brings it back to where it was.
pub proof fn maximize_there_and_back(after: OldGeometry, bbox: Rect)
    requires
        after.saved == Some(bbox),
    ensures
        unmaximize_steps(after.saved) == seq![
            X11Step::SetMaximized { maximized: false },
            X11Step::Configure { to: bbox },
            X11Step::Show { at: Point { x: bbox.x, y: bbox.y }, activate: false },
        ],
{
    assert(unmaximize_steps(after.saved) =~= seq![
        X11Step::SetMaximized { maximized: false },
        X11Step::Configure { to: bbox },
        X11Step::Show { at: Point { x: bbox.x, y: bbox.y }, activate: false },
    ]);
}

/// The fullscreen window of an output.
#[derive(Debug, Clone, Copy, PartialEq, Eq, Structural)]
pub struct OutputFullscreen {
    pub output: u64,
    pub surface: FullscreenSurface,
}

/// Whether the entry at `i` is the first one of an output.
pub open spec fn slot_of(list: Seq<OutputFullscreen>, output: u64, i: int) -> bool {
    &&& 0 <= i < list.len()
    &&& list[i].output == output
    &&& forall|j: int| 0 <= j < i ==> (#[trigger] list[j]).output != output
}

/// The list after a window became the fullscreen one of an output.
pub open spec fn with_fullscreen(
    list: Seq<OutputFullscreen>,
    output: u64,
    window: u64,
) -> Seq<OutputFullscreen> {
    let entry = OutputFullscreen { output, surface: FullscreenSurface { window: Some(window) } };
    if exists|i: int| slot_of(list, output, i) {
        list.update(choose|i: int| slot_of(list, output, i), entry)
    } else {
        list.push(entry)
    }
}

/// Makes a window that is on the screen, as `shown`, the fullscreen window of
/// its output. Nothing happens to a window that is not on the screen.
pub fn fullscreen_request(
    list: &mut Vec<OutputFullscreen>,
    shown: Option<u64>,
    first_of_window: Option<u64>,
    outputs: &[OutputFacts],
) -> (steps: Vec<X11Step>)
    requires
        shown is Some ==> first_of_window is Some || outputs@.len() > 0,
        shown is Some ==> outputs::spec_geometry_of(
            outputs@,
            output_of(first_of_window, outputs@),
        ) is Some,
    ensures
        shown is None ==> steps@.len() == 0 && final(list)@ == old(list)@,
        shown matches Some(window) ==> {
            let output = output_of(first_of_window, outputs@);
            &&& final(list)@ == with_fullscreen(old(list)@, output, window)
            &&& steps@ == seq![
                X11Step::SetFullscreen { fullscreen: true },
                X11Step::Undecorate,
                X11Step::Configure { to: outputs::spec_geometry_of(outputs@, output)->0 },
            ]
        },
{
    let mut steps: Vec<X11Step> = Vec::new();
    let window: u64 = match shown {
        Some(window) => window,
        None => return steps,
    };
    let output: u64 = find_output(first_of_window, outputs);
    let ghost wanted = outputs::spec_geometry_of(outputs@, output)->0;
    steps.push(X11Step::SetFullscreen { fullscreen: true });
    steps.push(X11Step::Undecorate);
    if let Some(to) = outputs::geometry_of(outputs, output) {
        steps.push(X11Step::Configure { to });
    }
    assert(steps@ =~= seq![
        X11Step::SetFullscreen { fullscreen: true },
        X11Step::Undecorate,
        X11Step::Configure { to: wanted },
    ]);
    set_fullscreen(list, output, window);
    steps
}

fn set_fullscreen(list: &mut Vec<OutputFullscreen>, output: u64, window: u64)
    ensures
        final(list)@ == with_fullscreen(old(list)@, output, window),
{
    let entry = OutputFullscreen { output, surface: FullscreenSurface { window: Some(window) } };
    let mut i: usize = 0;
    let ghost all = list@;
    while i < list.len()
        invariant
            i <= list@.len(),
            list@ == all,
            all == old(list)@,
            entry == (OutputFullscreen {
                output,
                surface: FullscreenSurface { window: Some(window) },
            }),
            forall|j: int| 0 <= j < i ==> (#[trigger] all[j]).output != output,
        decreases list@.len() - i,
    {
        if list[i].output == output {
            proof {
                assert(slot_of(all, output, i as int));
                let k = choose|k: int| slot_of(all, output, k);
                assert(k == i);
            }
            list.set(i, entry);
            return;
        }
        i = i + 1;
    }
    list.push(entry);
}

/// Whether the entry at `i` is the first one that shows a window as
/// fullscreen.
pub open spec fn shows_fullscreen(
    list: Seq<OutputFullscreen>,
    window: u64,
    alive: Seq<u64>,
    i: int,
) -> bool {
    &&& 0 <= i < list.len()
    &&& list[i].surface.current(alive) == Some(window)
    &&& forall|j: int| 0 <= j < i ==> (#[trigger] list[j]).surface.current(alive) != Some(window)
}

/// An entry after it has been looked at: a window that is gone is forgotten.
pub open spec fn refreshed(entry: OutputFullscreen, alive: Seq<u64>) -> OutputFullscreen {
    OutputFullscreen {
        output: entry.output,
        surface: FullscreenSurface { window: entry.surface.current(alive) },
    }
}

/// Ends the fullscreen state of a window that is on the screen, as `shown`. If
/// it was the fullscreen window of an output, that output is drawn anew. Nothing
/// happens to a window that is not on the screen.
///
/// The outputs are looked at one after the other until the window is found, and
/// those that were looked at forget windows that are gone.
pub fn unfullscreen_request(
    list: &mut Vec<OutputFullscreen>,
    shown: Option<u64>,
    alive: &[u64],
) -> (steps: Vec<X11Step>)
    ensures
        final(list)@.len() == old(list)@.len(),
        shown is None ==> steps@.len() == 0 && final(list)@ == old(list)@,
        shown matches Some(window) ==> {
            let begin = seq![X11Step::SetFullscreen { fullscreen: false }, X11Step::Undecorate];
            let was = old(list)@;
            &&& forall|i: int|
                shows_fullscreen(was, window, alive@, i) ==> {
                    &&& final(list)@[i] == (OutputFullscreen {
                        output: was[i].output,
                        surface: FullscreenSurface { window: None },
                    })
                    &&& forall|j: int|
                        0 <= j < i ==> #[trigger] final(list)@[j] == refreshed(was[j], alive@)
                    &&& forall|j: int| i < j < was.len() ==> #[trigger] final(list)@[j] == was[j]
                    &&& steps@ == begin + seq![
                        X11Step::ConfigureAsShown,
                        X11Step::ResetBuffers { output: (#[trigger] was[i]).output },
                    ]
                }
            &&& (forall|i: int| !shows_fullscreen(was, window, alive@, i)) ==> {
                &&& forall|j: int|
                    0 <= j < was.len() ==> #[trigger] final(list)@[j] == refreshed(was[j], alive@)
                &&& steps@ == begin
            }
        },
{
    let mut steps: Vec<X11Step> = Vec::new();
    let window: u64 = match shown {
        Some(window) => window,
        None => return steps,
    };
    steps.push(X11Step::SetFullscreen { fullscreen: false });
    steps.push(X11Step::Undecorate);
    let ghost begin = seq![X11Step::SetFullscreen { fullscreen: false }, X11Step::Undecorate];
    let ghost was = list@;
    let mut i: usize = 0;
    while i < list.len()
        invariant
            i <= list@.len(),
            was == old(list)@,
            list@.len() == was.len(),
            begin == seq![X11Step::SetFullscreen { fullscreen: false }, X11Step::Undecorate],
            steps@ == begin,
            shown == Some(window),
            forall|j: int|
                0 <= j < i ==> (#[trigger] was[j]).surface.current(alive@) != Some(window),
            forall|j: int| 0 <= j < i ==> #[trigger] list@[j] == refreshed(was[j], alive@),
            forall|j: int| i <= j < was.len() ==> #[trigger] list@[j] == was[j],
        decreases list@.len() - i,
    {
        let mut surface: FullscreenSurface = list[i].surface;
        let output: u64 = list[i].output;
        let found: Option<u64> = surface.get(alive);
        if found == Some(window) {
            surface.clear();
            list.set(i, OutputFullscreen { output, surface });
            steps.push(X11Step::ConfigureAsShown);
            steps.push(X11Step::ResetBuffers { output });
            proof {
                assert(shows_fullscreen(was, window, alive@, i as int));
                assert forall|k: int| shows_fullscreen(was, window, alive@, k) implies k == i by {}
                assert(steps@ =~= begin + seq![
                    X11Step::ConfigureAsShown,
                    X11Step::ResetBuffers { output },
                ]);
            }
            return steps;
        }
        list.set(i, OutputFullscreen { output, surface });
        i = i + 1;
    }
    assert forall|k: int| !shows_fullscreen(was, window, alive@, k) by {
        if 0 <= k < was.len() {
            assert(was[k].surface.current(alive@) != Some(window));
        }
    }
    steps
}

/// What starts to move a window, and where: the pixel that the finger touched
/// first, or the one that the pointer is on.
#[derive(Debug, Clone, Copy, PartialEq, Eq, Structural)]
pub enum MoveSource {
    Touch { at: Point },
    Pointer { at: Point },
}

/// The start of a move.
#[derive(Debug, Clone, Copy, PartialEq, Eq, Structural)]
pub struct MoveStart {
    pub source: MoveSource,
    /// Where the window is taken to be when the move starts.
    pub location: Point,
    /// Whether the maximized state ends.
    pub unmaximize: bool,
    /// Place and size that the client is told, if any.
    pub configure: Option<Rect>,
}

/// The input that moves a window: a finger that is down, or else a pointer
/// button that is held.
pub open spec fn move_source(touch: Option<Point>, pointer: Option<Point>) -> Option<MoveSource> {
    match (touch, pointer) {
        (Some(at), _) => Some(MoveSource::Touch { at }),
        (None, Some(at)) => Some(MoveSource::Pointer { at }),
        (None, None) => None,
    }
}

/// The start of a move of a window at `location`. A maximized window gets its
/// old size back, with its corner where the input is.
pub open spec fn move_start(
    source: MoveSource,
    location: Point,
    maximized: bool,
    saved: Option<Rect>,
) -> MoveStart {
    let at = match source {
        MoveSource::Touch { at } => at,
        MoveSource::Pointer { at } => at,
    };
    MoveStart {
        source,
        location: if maximized {
            at
        } else {
            location
        },
        unmaximize: maximized,
        configure: if maximized && saved is Some {
            Some(Rect { x: at.x, y: at.y, w: saved->0.w, h: saved->0.h })
        } else {
            None
        },
    }
}

/// A client asks to move a window; `location` is where it is mapped, if it is on
/// the screen. `touch` and `pointer` tell where a finger or a held pointer button
/// started and is. Nothing happens without one of them, or to a window that is
/// not on the screen.
pub fn move_request_x11(
    touch: Option<Point>,
    pointer: Option<Point>,
    location: Option<Point>,
    maximized: bool,
    old_geometry: &mut OldGeometry,
) -> (r: Option<MoveStart>)
    ensures
        r == (match (move_source(touch, pointer), location) {
            (Some(source), Some(at)) => Some(
                move_start(source, at, maximized, old(old_geometry).saved),
            ),
            _ => None,
        }),
        final(old_geometry).saved == (if maximized && r is Some {
            None
        } else {
            old(old_geometry).saved
        }),
{
    let location: Point = match location {
        Some(location) => location,
        None => return None,
    };
    let (source, at): (MoveSource, Point) = match touch {
        Some(at) => (MoveSource::Touch { at }, at),
        None => match pointer {
            Some(at) => (MoveSource::Pointer { at }, at),
            None => return None,
        },
    };
    let mut start = MoveStart { source, location, unmaximize: false, configure: None };
    if maximized {
        start.unmaximize = true;
        start.location = at;
        if let Some(geo) = old_geometry.restore() {
            start.configure = Some(Rect { x: at.x, y: at.y, w: geo.w, h: geo.h });
        }
    }
    Some(start)
}

/// Whether X11 clients may read the selection: only those of the window
/// manager whose window has the keyboard focus.
pub fn allow_selection_access(focused_xwm: Option<u64>, xwm: u64) -> (r: bool)
    ensures
        r == (focused_xwm == Some(xwm)),
{
    match focused_xwm {
        Some(id) => id == xwm,
        None => false,
    }
}

/// The edge or corner of a window that an interactive resize drags.
#[derive(Debug, Clone, Copy, PartialEq, Eq, Structural)]
pub enum ResizeEdge {
    Top,
    Bottom,
    Left,
    Right,
    TopLeft,
    TopRight,
    BottomLeft,
    BottomRight,
}

/// What an interactive resize starts from.
#[derive(Debug, Clone, Copy, PartialEq, Eq, Structural)]
pub struct ResizeData {
    pub edges: ResizeEdge,
    pub initial_window_location: Point,
    pub initial_window_size: Size,
}

/// Progress of an interactive resize.
#[derive(Debug, Clone, Copy, PartialEq, Eq, Structural)]
pub enum ResizeState {
    NotResizing,
    Resizing(ResizeData),
    /// The client has been told the last size and has yet to draw it.
    WaitingForCommit(ResizeData),
}

/// A client asks to resize a window that is in the state `before`. A window that
/// is on the screen starts from its place and size, given as `shown`; any other
/// window stays as it is.
pub fn resize_request(
    before: ResizeState,
    edges: ResizeEdge,
    shown: Option<(Point, Size)>,
) -> (r: ResizeState)
    ensures
        r == (match shown {
            Some((location, size)) => ResizeState::Resizing(
                ResizeData {
                    edges,
                    initial_window_location: location,
                    initial_window_size: size,
                },
            ),
            None => before,
        }),
{
    match shown {
        Some((location, size)) => ResizeState::Resizing(
            ResizeData { edges, initial_window_location: location, initial_window_size: size },
        ),
        None => before,
    }
}

impl ResizeEdge {
    /// Whether the left edge is dragged.
    pub open spec fn left(self) -> bool {
        self is Left || self is TopLeft || self is BottomLeft
    }

    /// Whether the right edge is dragged.
    pub open spec fn right(self) -> bool {
        self is Right || self is TopRight || self is BottomRight
    }

    /// Whether the top edge is dragged.
    pub open spec fn top(self) -> bool {
        self is Top || self is TopLeft || self is TopRight
    }

    /// Whether the bottom edge is dragged.
    pub open spec fn bottom(self) -> bool {
        self is Bottom || self is BottomLeft || self is BottomRight
    }
}

/// A length after one of its ends, `near` or `far`, has been dragged; never
/// below one.
pub open spec fn dragged_length(length: i32, moved: i32, near: bool, far: bool) -> i32 {
    let wanted = if near {
        length - moved
    } else if far {
        length + moved
    } else {
        length as int
    };
    if wanted < 1 {
        1
    } else {
        binary64::saturate_i32(wanted)
    }
}

/// Where a length starts after it has become `new`, when its far end stays.
pub open spec fn dragged_start(start: i32, length: i32, new: i32, near: bool) -> i32 {
    if near {
        binary64::saturate_i32(start + length - new)
    } else {
        start
    }
}

fn clamp_i32(v: i64) -> (r: i32)
    ensures
        r == binary64::saturate_i32(v as int),
{
    if v < i32::MIN as i64 {
        i32::MIN
    } else if v > i32::MAX as i64 {
        i32::MAX
    } else {
        v as i32
    }
}

fn drag_length(length: i32, moved: i32, near: bool, far: bool) -> (r: i32)
    ensures
        r == dragged_length(length, moved, near, far),
{
    let wanted: i64 = if near {
        length as i64 - moved as i64
    } else if far {
        length as i64 + moved as i64
    } else {
        length as i64
    };
    if wanted < 1 {
        1
    } else {
        clamp_i32(wanted)
    }
}

impl ResizeData {
    /// The window after the pointer has moved by `moved`.
    pub open spec fn spec_dragged(self, moved: Point) -> Rect {
        let at = self.initial_window_location;
        let was = self.initial_window_size;
        let w = dragged_length(was.w, moved.x, self.edges.left(), self.edges.right());
        let h = dragged_length(was.h, moved.y, self.edges.top(), self.edges.bottom());
        Rect {
            x: dragged_start(at.x, was.w, w, self.edges.left()),
            y: dragged_start(at.y, was.h, h, self.edges.top()),
            w,
            h,
        }
    }

    /// The window after the pointer has moved by `moved`: the dragged edges
    /// follow it, the others stay.
    pub fn dragged(&self, moved: Point) -> (r: Rect)
        ensures
            r == self.spec_dragged(moved),
    {
        let left: bool = matches!(
            self.edges,
            ResizeEdge::Left | ResizeEdge::TopLeft | ResizeEdge::BottomLeft
        );
        let right: bool = matches!(
            self.edges,
            ResizeEdge::Right | ResizeEdge::TopRight | ResizeEdge::BottomRight
        );
        let top: bool = matches!(
            self.edges,
            ResizeEdge::Top | ResizeEdge::TopLeft | ResizeEdge::TopRight
        );
        let bottom: bool = matches!(
            self.edges,
            ResizeEdge::Bottom | ResizeEdge::BottomLeft | ResizeEdge::BottomRight
        );
        let at: Point = self.initial_window_location;
        let was: Size = self.initial_window_size;
        let w: i32 = drag_length(was.w, moved.x, left, right);
        let h: i32 = drag_length(was.h, moved.y, top, bottom);
        let x: i32 = if left { clamp_i32(at.x as i64 + was.w as i64 - w as i64) } else { at.x };
        let y: i32 = if top { clamp_i32(at.y as i64 + was.h as i64 - h as i64) } else { at.y };
        Rect { x, y, w, h }
    }
}

/// Dragging an edge leaves the opposite one where it is.
pub proof fn opposite_edge_stays(data: ResizeData, moved: Point)
    requires
        i32::MIN <= data.initial_window_location.x + data.initial_window_size.w
            - data.spec_dragged(moved).w <= i32::MAX,
        i32::MIN <= data.initial_window_location.y + data.initial_window_size.h
            - data.spec_dragged(moved).h <= i32::MAX,
    ensures
        ({
            let at = data.initial_window_location;
            let was = data.initial_window_size;
            let r = data.spec_dragged(moved);
            &&& data.edges.left() ==> r.x + r.w == at.x + was.w
            &&& !data.edges.left() ==> r.x == at.x
            &&& data.edges.top() ==> r.y + r.h == at.y + was.h
            &&& !data.edges.top() ==> r.y == at.y
            &&& !data.edges.left() && !data.edges.right() && was.w >= 1 ==> r.w == was.w
            &&& !data.edges.top() && !data.edges.bottom() && was.h >= 1 ==> r.h == was.h
        }),
{
}

/// The dragged edges of a window follow the pointer by as much as it moves, and
/// the others stay where they are, as long as the window does not vanish.
pub proof fn dragged_edges_follow_the_pointer(data: ResizeData, moved: Point)
    ensures
        ({
            let at = data.initial_window_location;
            let was = data.initial_window_size;
            let r = data.spec_dragged(moved);
            let left = data.edges is Left || data.edges is TopLeft || data.edges is BottomLeft;
            let right = data.edges is Right || data.edges is TopRight || data.edges is BottomRight;
            let top = data.edges is Top || data.edges is TopLeft || data.edges is TopRight;
            let bottom = data.edges is Bottom || data.edges is BottomLeft
                || data.edges is BottomRight;
            &&& r.w >= 1 && r.h >= 1
            &&& right && 1 <= was.w + moved.x <= i32::MAX ==> r.x == at.x && r.x + r.w == at.x
                + was.w + moved.x
            &&& left && 1 <= was.w - moved.x <= i32::MAX && i32::MIN <= at.x + moved.x <= i32::MAX
                ==> r.x == at.x + moved.x && r.x + r.w == at.x + was.w
            &&& !left && !right && was.w >= 1 ==> r.x == at.x && r.w == was.w
            &&& bottom && 1 <= was.h + moved.y <= i32::MAX ==> r.y == at.y && r.y + r.h == at.y
                + was.h + moved.y
            &&& top && 1 <= was.h - moved.y <= i32::MAX && i32::MIN <= at.y + moved.y <= i32::MAX
                ==> r.y == at.y + moved.y && r.y + r.h == at.y + was.h
            &&& !top && !bottom && was.h >= 1 ==> r.y == at.y && r.h == was.h
        }),
{
}

/// A window that has been dragged as small as it gets stays one pixel large, at
/// the edge that is not dragged.
pub proof fn dragged_window_never_vanishes(data: ResizeData, moved: Point)
    requires
        data.initial_window_size.w >= 1,
        i32::MIN <= data.initial_window_location.x + data.initial_window_size.w - 1 <= i32::MAX,
    ensures
        ({
            let at = data.initial_window_location;
            let was = data.initial_window_size;
            let r = data.spec_dragged(moved);
            &&& data.edges is Right && was.w + moved.x <= 1 ==> r.w == 1 && r.x == at.x
            &&& data.edges is Left && was.w - moved.x <= 1 ==> r.w == 1 && r.x + 1 == at.x + was.w
        }),
{
}

/// A window is placed by the compositor if and only if it belongs to no other one
/// and is not of a kind that pops up.
pub proof fn popups_place_themselves(facts: X11Facts)
    ensures
        !positioned_by_client(facts) <==> !facts.transient && (facts.kind is None
            || facts.kind->0 is Other),
{
}

/// A maximized window that is not known from before only loses that state.
pub proof fn unmaximizing_changes_nothing_else(saved: Option<Rect>)
    ensures
        unmaximize_steps(saved)[0] == (X11Step::SetMaximized { maximized: false }),
        saved is None ==> unmaximize_steps(saved).len() == 1,
        saved is Some ==> unmaximize_steps(saved).len() == 3,
{
}

/// A window is on the first output that it is known to be on, or else on the
/// first one.
pub proof fn windows_are_on_their_output(id: u64, outputs: Seq<OutputFacts>)
    requires
        outputs.len() > 0,
    ensures
        output_of(Some(id), outputs) == id,
        output_of(None, outputs) == outputs[0].id,
{
}

/// A window that becomes fullscreen replaces the one of its output; the other
/// outputs keep theirs.
pub proof fn fullscreen_replaces_on_its_output(
    list: Seq<OutputFullscreen>,
    output: u64,
    window: u64,
    i: int,
)
    ensures
        ({
            let after = with_fullscreen(list, output, window);
            &&& slot_of(after, output, i) ==> after[i].surface.window == Some(window)
            &&& exists|k: int| slot_of(after, output, k)
            &&& 0 <= i < list.len() && list[i].output != output ==> after[i] == list[i]
            &&& slot_of(list, output, i) ==> after.len() == list.len()
            &&& (forall|k: int| !slot_of(list, output, k)) ==> after.len() == list.len() + 1
        }),
{
    let after = with_fullscreen(list, output, window);
    let entry = OutputFullscreen { output, surface: FullscreenSurface { window: Some(window) } };
    if exists|k: int| slot_of(list, output, k) {
        let k = choose|k: int| slot_of(list, output, k);
        assert(after == list.update(k, entry));
        assert forall|j: int| 0 <= j < k implies (#[trigger] after[j]).output != output by {
            assert(after[j] == list[j]);
        }
        assert(slot_of(after, output, k));
        if slot_of(after, output, i) {
            assert(after[k].output == output);
            assert(i == k);
        }
    } else {
        lemma_no_slot(list, output, list.len() as int);
        let k = list.len() as int;
        assert(after == list.push(entry));
        assert forall|j: int| 0 <= j < k implies (#[trigger] after[j]).output != output by {
            assert(after[j] == list[j]);
        }
        assert(slot_of(after, output, k));
        if slot_of(after, output, i) && i != k {
            assert(after[i].output != output);
        }
    }
}

proof fn lemma_no_slot(list: Seq<OutputFullscreen>, output: u64, n: int)
    requires
        0 <= n <= list.len(),
        forall|k: int| !slot_of(list, output, k),
    ensures
        forall|j: int| 0 <= j < n ==> (#[trigger] list[j]).output != output,
    decreases n,
{
    if n > 0 {
        lemma_no_slot(list, output, n - 1);
        assert(!slot_of(list, output, n - 1));
    }
}

/// An entry that has been looked at keeps its window if and only if that is
/// alive.
pub proof fn looked_at_entries_hold_live_windows(
    entry: OutputFullscreen,
    alive: Seq<u64>,
    window: u64,
)
    ensures
        refreshed(entry, alive).output == entry.output,
        refreshed(entry, alive).surface.window == Some(window) <==> entry.surface.window == Some(
            window,
        ) && alive.contains(window),
{
}

/// A finger moves a window rather than the pointer does; without either, nothing
/// does.
pub proof fn fingers_move_windows_first(
    touch: Option<Point>,
    pointer: Option<Point>,
    p: Point,
    q: Point,
)
    ensures
        move_source(Some(p), pointer) == Some(MoveSource::Touch { at: p }),
        move_source(None, Some(q)) == Some(MoveSource::Pointer { at: q }),
        move_source(touch, pointer) is None <==> touch is None && pointer is None,
{
}

/// A window is moved from where it is. A maximized one is taken to where the
/// input is and gets its old size back there.
pub proof fn moves_start_at_the_window_or_the_input(
    source: MoveSource,
    at: Point,
    location: Point,
    saved: Option<Rect>,
)
    requires
        source == (MoveSource::Touch { at }) || source == (MoveSource::Pointer { at }),
    ensures
        ({
            let plain = move_start(source, location, false, saved);
            let from_max = move_start(source, location, true, saved);
            &&& plain.source == source && from_max.source == source
            &&& plain.location == location && !plain.unmaximize && plain.configure is None
            &&& from_max.location == at && from_max.unmaximize
            &&& from_max.configure is Some <==> saved is Some
            &&& saved matches Some(was) ==> from_max.configure->0.w == was.w
                && from_max.configure->0.h == was.h && from_max.configure->0.x == at.x
                && from_max.configure->0.y == at.y
        }),
{
}

/// The first output that shows a live window as fullscreen is the one that is
/// found, and no other one before it does.
pub proof fn first_fullscreen_output_is_found(
    list: Seq<OutputFullscreen>,
    window: u64,
    alive: Seq<u64>,
    i: int,
)
    requires
        0 <= i < list.len(),
    ensures
        shows_fullscreen(list, window, alive, i) <==> {
            &&& list[i].surface.window == Some(window)
            &&& alive.contains(window)
            &&& forall|j: int|
                0 <= j < i ==> (#[trigger] list[j]).surface.window != Some(window)
        },
{
    if shows_fullscreen(list, window, alive, i) {
        assert forall|j: int| 0 <= j < i implies (#[trigger] list[j]).surface.window != Some(
            window,
        ) by {
            assert(list[j].surface.current(alive) != Some(window));
        }
    }
}

} // verus!
