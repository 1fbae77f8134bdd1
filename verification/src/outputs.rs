//! Outputs: where they are, what of them windows may use, and where a new
//! window starts.

use crate::binary32;
use crate::binary32::two_thirds;
use crate::geometry;
use crate::geometry::{Point, Rect, Size};
use rand::distributions::{Distribution, Uniform};
use vstd::math::{max, min};
use vstd::prelude::*;

verus! {

/// An output.
#[derive(Debug, Clone, Copy, PartialEq, Eq, Structural)]
pub struct OutputFacts {
    pub id: u64,
    /// Where the output is, if it is in use.
    pub geometry: Option<Rect>,
    /// What layer surfaces leave of it, relative to its corner.
    pub zone: Rect,
}

/// What layer surfaces leave of an output, on the screen.
pub open spec fn spec_zone_on_screen(output: OutputFacts) -> Option<Rect> {
    match output.geometry {
        Some(geo) => Some(
            Rect {
                x: (geo.x + output.zone.x) as i32,
                y: (geo.y + output.zone.y) as i32,
                w: output.zone.w,
                h: output.zone.h,
            },
        ),
        None => None,
    }
}

/// The zone's corner is within `i32`.
pub open spec fn zone_fits(output: OutputFacts) -> bool {
    output.geometry matches Some(geo) ==> geometry::fits_i32(geo.x + output.zone.x)
        && geometry::fits_i32(geo.y + output.zone.y)
}

/// What layer surfaces leave of an output, on the screen.
pub fn zone_on_screen(output: &OutputFacts) -> (r: Option<Rect>)
    requires
        zone_fits(*output),
    ensures
        r == spec_zone_on_screen(*output),
{
    match output.geometry {
        Some(geo) => Some(
            Rect {
                x: geo.x + output.zone.x,
                y: geo.y + output.zone.y,
                w: output.zone.w,
                h: output.zone.h,
            },
        ),
        None => None,
    }
}

/// Height of the strip that the bar takes from a zone of height `h`: the bar
/// with its margin above and below, but never more than there is.
pub open spec fn bar_strip(h: int, bar_height: int, bar_margin: int) -> int {
    min(
        if bar_height > 0 {
            2 * max(bar_margin, 0) + bar_height
        } else {
            0
        },
        h,
    )
}

/// The part of an output for windows: the zone without the bar's strip.
pub open spec fn spec_usable_area(output: OutputFacts, bar_height: i32, bar_margin: i32) -> Option<
    Rect,
> {
    match spec_zone_on_screen(output) {
        Some(zone) => {
            let strip = bar_strip(zone.h as int, bar_height as int, bar_margin as int);
            Some(
                Rect { x: zone.x, y: (zone.y + strip) as i32, w: zone.w, h: (zone.h - strip) as i32 },
            )
        },
        None => None,
    }
}

/// Finding the usable area stays within `i32`.
pub open spec fn can_use(output: OutputFacts, bar_height: i32, bar_margin: i32) -> bool {
    &&& zone_fits(output)
    &&& bar_height > 0 ==> geometry::fits_i32(2 * max(bar_margin as int, 0) + bar_height)
    &&& spec_zone_on_screen(output) matches Some(zone) ==> geometry::fits_i32(
        zone.y + bar_strip(zone.h as int, bar_height as int, bar_margin as int),
    )
}

/// The part of an output that windows may use, if the output is in use.
pub fn usable_area(output: &OutputFacts, bar_height: i32, bar_margin: i32) -> (r: Option<Rect>)
    requires
        can_use(*output, bar_height, bar_margin),
    ensures
        r == spec_usable_area(*output, bar_height, bar_margin),
{
    match zone_on_screen(output) {
        Some(zone) => {
            let margin: i32 = if bar_margin > 0 { bar_margin } else { 0 };
            let wanted: i32 = if bar_height > 0 { margin + bar_height + margin } else { 0 };
            let strip: i32 = if wanted < zone.h { wanted } else { zone.h };
            Some(Rect { x: zone.x, y: zone.y + strip, w: zone.w, h: zone.h - strip })
        },
        None => None,
    }
}

/// The usable area lies within the output wherever the zone does.
pub proof fn usable_area_stays_inside(output: OutputFacts, bar_height: i32, bar_margin: i32)
    requires
        can_use(output, bar_height, bar_margin),
        output.geometry is Some,
        0 <= output.zone.h,
        output.geometry->0.contains_rect(spec_zone_on_screen(output)->0),
    ensures
        output.geometry->0.contains_rect(spec_usable_area(output, bar_height, bar_margin)->0),
        spec_usable_area(output, bar_height, bar_margin)->0.h >= 0,
{
}

/// The first output with an identity.
pub open spec fn first_with(outputs: Seq<OutputFacts>, id: u64, i: int) -> bool {
    &&& 0 <= i < outputs.len()
    &&& outputs[i].id == id
    &&& forall|j: int| 0 <= j < i ==> (#[trigger] outputs[j]).id != id
}

/// Where the output with an identity is.
pub open spec fn spec_geometry_of(outputs: Seq<OutputFacts>, id: u64) -> Option<Rect> {
    if exists|i: int| first_with(outputs, id, i) {
        outputs[choose|i: int| first_with(outputs, id, i)].geometry
    } else {
        None
    }
}

/// Where the output with an identity is.
pub fn geometry_of(outputs: &[OutputFacts], id: u64) -> (r: Option<Rect>)
    ensures
        r == spec_geometry_of(outputs@, id),
{
    let mut i: usize = 0;
    while i < outputs.len()
        invariant
            i <= outputs@.len(),
            forall|j: int| 0 <= j < i ==> (#[trigger] outputs@[j]).id != id,
        decreases outputs@.len() - i,
    {
        if outputs[i].id == id {
            proof {
                assert(first_with(outputs@, id, i as int));
                let k = choose|k: int| first_with(outputs@, id, k);
                assert(k == i);
            }
            return outputs[i].geometry;
        }
        i = i + 1;
    }
    None
}

/// Where a window goes to be fullscreen: to the output that was asked for, or
/// else to the first one that it is on.
pub fn fullscreen_output_geometry(
    requested: Option<u64>,
    first_of_window: Option<u64>,
    outputs: &[OutputFacts],
) -> (r: Option<Rect>)
    ensures
        r == (match (requested, first_of_window) {
            (Some(id), _) => spec_geometry_of(outputs@, id),
            (None, Some(id)) => spec_geometry_of(outputs@, id),
            (None, None) => None,
        }),
{
    match requested {
        Some(id) => geometry_of(outputs, id),
        None => match first_of_window {
            Some(id) => geometry_of(outputs, id),
            None => None,
        },
    }
}

/// The output for a surface: the one that was asked for, or else the first.
pub fn output_or_first(requested: Option<u64>, outputs: &[OutputFacts]) -> (r: Option<u64>)
    ensures
        r == (match requested {
            Some(id) => Some(id),
            None => if outputs@.len() > 0 {
                Some(outputs@[0].id)
            } else {
                None
            },
        }),
{
    match requested {
        Some(id) => Some(id),
        None => if outputs.len() > 0 {
            Some(outputs[0].id)
        } else {
            None
        },
    }
}

/// The output whose scale a surface starts with: its own, or else, for a
/// subsurface, that of its root; or else the first one of its window, or else
/// the first one there is.
pub fn preferred_output(
    own: Option<u64>,
    root: Option<Option<u64>>,
    first_of_window: Option<u64>,
    outputs: &[OutputFacts],
) -> (r: Option<u64>)
    ensures
        r == (if own is Some {
            own
        } else if root is Some && root->0 is Some {
            root->0
        } else if first_of_window is Some {
            first_of_window
        } else if outputs@.len() > 0 {
            Some(outputs@[0].id)
        } else {
            None
        }),
{
    if own.is_some() {
        return own;
    }
    if let Some(Some(id)) = root {
        return Some(id);
    }
    output_or_first(first_of_window, outputs)
}

/// Whether a pixel lies on an output.
pub open spec fn covers(output: OutputFacts, p: Point) -> bool {
    output.geometry matches Some(geo) && geo.x <= p.x < geo.x + geo.w && geo.y <= p.y < geo.y + geo.h
}

/// Whether the output at `i` is the one under a pixel; of several, the last.
pub open spec fn under(outputs: Seq<OutputFacts>, p: Point, i: int) -> bool {
    &&& 0 <= i < outputs.len()
    &&& covers(outputs[i], p)
    &&& forall|j: int| i < j < outputs.len() ==> !covers(#[trigger] outputs[j], p)
}

/// The area where new windows start when there is no output.
pub open spec fn fallback_area() -> Rect {
    Rect { x: 0, y: 0, w: 800, h: 800 }
}

/// The area where a new window starts: the zone of the output under the
/// pointer, or else of the first output, or else a fixed square.
pub open spec fn spec_placement_area(outputs: Seq<OutputFacts>, pointer: Point) -> Rect {
    let zone = if exists|i: int| under(outputs, pointer, i) {
        spec_zone_on_screen(outputs[choose|i: int| under(outputs, pointer, i)])
    } else if outputs.len() > 0 {
        spec_zone_on_screen(outputs[0])
    } else {
        None
    };
    match zone {
        Some(zone) => zone,
        None => fallback_area(),
    }
}

fn covers_point(output: &OutputFacts, p: Point) -> (r: bool)
    ensures
        r == covers(*output, p),
{
    match output.geometry {
        Some(geo) => {
            geo.x <= p.x && (p.x as i64) < geo.x as i64 + geo.w as i64 && geo.y <= p.y && (
            p.y as i64) < geo.y as i64 + geo.h as i64
        },
        None => false,
    }
}

/// The area where a new window starts. The pointer is given by the pixel that
/// it is on.
pub fn placement_area(outputs: &[OutputFacts], pointer: Point) -> (r: Rect)
    requires
        forall|i: int| 0 <= i < outputs@.len() ==> zone_fits(#[trigger] outputs@[i]),
    ensures
        r == spec_placement_area(outputs@, pointer),
{
    let mut i: usize = outputs.len();
    while i > 0
        invariant
            i <= outputs@.len(),
            forall|j: int| i <= j < outputs@.len() ==> !covers(#[trigger] outputs@[j], pointer),
            forall|j: int| 0 <= j < outputs@.len() ==> zone_fits(#[trigger] outputs@[j]),
        decreases i,
    {
        i = i - 1;
        if covers_point(&outputs[i], pointer) {
            proof {
                assert(under(outputs@, pointer, i as int));
                let k = choose|k: int| under(outputs@, pointer, k);
                assert(k == i);
            }
            return match zone_on_screen(&outputs[i]) {
                Some(zone) => zone,
                None => Rect { x: 0, y: 0, w: 800, h: 800 },
            };
        }
    }
    assert(!exists|k: int| under(outputs@, pointer, k));
    if outputs.len() > 0 {
        if let Some(zone) = zone_on_screen(&outputs[0]) {
            return zone;
        }
    }
    Rect { x: 0, y: 0, w: 800, h: 800 }
}

/// A number drawn by `rand::distributions::Uniform`, created with
/// `Uniform::new`, from the generator of `rand::thread_rng`. `Uniform::new`
/// takes the lower bound in and leaves the upper one out, and panics when
/// there is nothing between them. Which number comes is left to chance.
#[verifier::external_body]
fn random_between(low: i32, high: i32) -> (r: i32)
    requires
        low < high,
    ensures
        low <= r < high,
{
    Uniform::new(low, high).sample(&mut rand::thread_rng())
}

/// Where a new window starts and the largest size that it is told to take.
#[derive(Debug, Clone, Copy, PartialEq, Eq, Structural)]
pub struct NewPlace {
    pub bounds: Size,
    pub at: Point,
}

/// Whether there is room for a corner to be drawn in the upper left two thirds
/// of an area.
pub open spec fn has_room(area: Rect) -> bool {
    &&& 0 < binary32::spec_two_thirds(area.w)
    &&& 0 < binary32::spec_two_thirds(area.h)
    &&& geometry::fits_i32(area.x + binary32::spec_two_thirds(area.w))
    &&& geometry::fits_i32(area.y + binary32::spec_two_thirds(area.h))
}

/// Whether a place is one for a new window.
pub open spec fn place_in(area: Rect, place: NewPlace) -> bool {
    &&& place.bounds == (Size { w: area.w, h: area.h })
    &&& area.x <= place.at.x < area.x + binary32::spec_two_thirds(area.w)
    &&& area.y <= place.at.y < area.y + binary32::spec_two_thirds(area.h)
}

/// Finds a random place for a new window, in the upper left two thirds of the
/// area where it starts.
pub fn place_new_window(outputs: &[OutputFacts], pointer: Point) -> (r: NewPlace)
    requires
        forall|i: int| 0 <= i < outputs@.len() ==> zone_fits(#[trigger] outputs@[i]),
        has_room(spec_placement_area(outputs@, pointer)),
    ensures
        place_in(spec_placement_area(outputs@, pointer), r),
{
    let area: Rect = placement_area(outputs, pointer);
    let x: i32 = random_between(area.x, area.x + two_thirds(area.w));
    let y: i32 = random_between(area.y, area.y + two_thirds(area.h));
    NewPlace { bounds: Size { w: area.w, h: area.h }, at: Point { x, y } }
}

/// A new window starts inside the area.
pub proof fn new_window_starts_inside(area: Rect, at: Point)
    requires
        has_room(area),
        area.x <= at.x < area.x + binary32::spec_two_thirds(area.w),
        area.y <= at.y < area.y + binary32::spec_two_thirds(area.h),
    ensures
        area.x <= at.x < area.x + area.w,
        area.y <= at.y < area.y + area.h,
{
    binary32::two_thirds_stay_within(area.w);
    binary32::two_thirds_stay_within(area.h);
}

/// Width of an output; none when it is not in use.
pub open spec fn width_of(output: OutputFacts) -> int {
    match output.geometry {
        Some(geo) => geo.w as int,
        None => 0,
    }
}

/// Width of the first `n` outputs together.
pub open spec fn width_before(outputs: Seq<OutputFacts>, n: int) -> int
    decreases n,
{
    if n <= 0 {
        0
    } else {
        width_before(outputs, n - 1) + width_of(outputs[n - 1])
    }
}

/// Puts the outputs side by side from left to right: where each of them goes.
pub fn line_up(outputs: &[OutputFacts]) -> (r: Vec<Point>)
    requires
        forall|n: int|
            0 <= n <= outputs@.len() ==> geometry::fits_i32(#[trigger] width_before(outputs@, n)),
    ensures
        r@.len() == outputs@.len(),
        forall|i: int|
            0 <= i < r@.len() ==> #[trigger] r@[i] == (Point {
                x: width_before(outputs@, i) as i32,
                y: 0,
            }),
{
    let mut r: Vec<Point> = Vec::new();
    let mut x: i32 = 0;
    let mut i: usize = 0;
    while i < outputs.len()
        invariant
            i <= outputs@.len(),
            r@.len() == i,
            x == width_before(outputs@, i as int),
            forall|n: int|
                0 <= n <= outputs@.len() ==> geometry::fits_i32(
                    #[trigger] width_before(outputs@, n),
                ),
            forall|j: int|
                0 <= j < i ==> #[trigger] r@[j] == (Point {
                    x: width_before(outputs@, j) as i32,
                    y: 0,
                }),
        decreases outputs@.len() - i,
    {
        r.push(Point { x, y: 0 });
        assert(geometry::fits_i32(width_before(outputs@, i + 1)));
        x = x + match outputs[i].geometry {
            Some(geo) => geo.w,
            None => 0,
        };
        i = i + 1;
    }
    r
}

/// Outputs that are lined up do not overlap.
pub proof fn lined_up_outputs_are_apart(outputs: Seq<OutputFacts>, i: int, j: int)
    requires
        0 <= i < j < outputs.len(),
        forall|k: int| 0 <= k < outputs.len() ==> 0 <= width_of(#[trigger] outputs[k]),
    ensures
        width_before(outputs, i) + width_of(outputs[i]) <= width_before(outputs, j),
    decreases j - i,
{
    if j > i + 1 {
        lined_up_outputs_are_apart(outputs, i, j - 1);
        assert(0 <= width_of(outputs[j - 1]));
    }
}

/// A window and where it is.
#[derive(Debug, Clone, Copy, PartialEq, Eq, Structural)]
pub struct WindowCorner {
    pub window: u64,
    /// Where the window is mapped, if it is.
    pub location: Option<Point>,
    /// Corner of everything that the window draws, relative to that.
    pub bbox: Point,
}

/// Whether a window is on none of the given zones.
pub open spec fn orphaned(zones: Seq<Rect>, w: WindowCorner) -> bool {
    w.location matches Some(at) && forall|i: int|
        0 <= i < zones.len() ==> !(#[trigger] zones[i]).holds(w.bbox.x + at.x, w.bbox.y + at.y)
}

/// The windows that are on none of the zones.
pub open spec fn orphans(zones: Seq<Rect>, windows: Seq<WindowCorner>) -> Seq<u64>
    decreases windows.len(),
{
    if windows.len() == 0 {
        Seq::empty()
    } else {
        let before = orphans(zones, windows.drop_last());
        if orphaned(zones, windows.last()) {
            before.push(windows.last().window)
        } else {
            before
        }
    }
}

/// The windows whose corner is on none of the zones and that have to be placed
/// anew.
pub fn orphaned_windows(zones: &[Rect], windows: &[WindowCorner]) -> (r: Vec<u64>)
    requires
        forall|i: int|
            0 <= i < windows@.len() ==> ((#[trigger] windows@[i]).location matches Some(at)
                ==> geometry::fits_i32(windows@[i].bbox.x + at.x) && geometry::fits_i32(
                windows@[i].bbox.y + at.y,
            )),
    ensures
        r@ == orphans(zones@, windows@),
{
    let mut r: Vec<u64> = Vec::new();
    let mut i: usize = 0;
    while i < windows.len()
        invariant
            i <= windows@.len(),
            r@ == orphans(zones@, windows@.take(i as int)),
            forall|k: int|
                0 <= k < windows@.len() ==> ((#[trigger] windows@[k]).location matches Some(at)
                    ==> geometry::fits_i32(windows@[k].bbox.x + at.x) && geometry::fits_i32(
                    windows@[k].bbox.y + at.y,
                )),
        decreases windows@.len() - i,
    {
        let w: WindowCorner = windows[i];
        let ghost next = windows@.take(i + 1);
        assert(next.drop_last() =~= windows@.take(i as int));
        assert(next.last() == w);
        if let Some(at) = w.location {
            let corner = Point { x: w.bbox.x + at.x, y: w.bbox.y + at.y };
            if !on_any(zones, corner) {
                r.push(w.window);
            }
        }
        i = i + 1;
    }
    assert(windows@.take(i as int) =~= windows@);
    r
}

fn on_any(zones: &[Rect], p: Point) -> (r: bool)
    ensures
        r == exists|i: int| 0 <= i < zones@.len() && (#[trigger] zones@[i]).holds(p.x as int, p.y as int),
{
    let mut i: usize = 0;
    while i < zones.len()
        invariant
            i <= zones@.len(),
            forall|j: int| 0 <= j < i ==> !(#[trigger] zones@[j]).holds(p.x as int, p.y as int),
        decreases zones@.len() - i,
    {
        if zones[i].contains(p) {
            return true;
        }
        i = i + 1;
    }
    false
}

/// An output after it went to a place.
pub open spec fn moved_to(output: OutputFacts, at: Point) -> OutputFacts {
    OutputFacts {
        geometry: match output.geometry {
            Some(geo) => Some(Rect { x: at.x, y: at.y, w: geo.w, h: geo.h }),
            None => None,
        },
        ..output
    }
}

/// The outputs after they were lined up.
pub open spec fn lined_up(outputs: Seq<OutputFacts>) -> Seq<OutputFacts> {
    Seq::new(
        outputs.len(),
        |i: int| moved_to(outputs[i], Point { x: width_before(outputs, i) as i32, y: 0 }),
    )
}

/// The zones of the first `n` outputs that are in use.
pub open spec fn zones_of(outputs: Seq<OutputFacts>, n: int) -> Seq<Rect>
    decreases n,
{
    if n <= 0 {
        Seq::empty()
    } else {
        let before = zones_of(outputs, n - 1);
        match spec_zone_on_screen(outputs[n - 1]) {
            Some(zone) => before.push(zone),
            None => before,
        }
    }
}

/// A window that gets a new place.
#[derive(Debug, Clone, Copy, PartialEq, Eq, Structural)]
pub struct Replaced {
    pub window: u64,
    pub place: NewPlace,
}

/// Puts things in order after the outputs have changed: the outputs go side by
/// side, and windows that are on none of them any more are placed like new
/// ones. Returns where the outputs go, and the windows that get a new place.
pub fn fixup_positions(
    outputs: &[OutputFacts],
    windows: &[WindowCorner],
    pointer: Point,
) -> (r: (Vec<Point>, Vec<Replaced>))
    requires
        forall|n: int|
            0 <= n <= outputs@.len() ==> geometry::fits_i32(#[trigger] width_before(outputs@, n)),
        forall|i: int| 0 <= i < outputs@.len() ==> zone_fits(#[trigger] lined_up(outputs@)[i]),
        forall|i: int|
            0 <= i < windows@.len() ==> ((#[trigger] windows@[i]).location matches Some(at)
                ==> geometry::fits_i32(windows@[i].bbox.x + at.x) && geometry::fits_i32(
                windows@[i].bbox.y + at.y,
            )),
        orphans(zones_of(lined_up(outputs@), outputs@.len() as int), windows@).len() > 0
            ==> has_room(spec_placement_area(lined_up(outputs@), pointer)),
    ensures
        ({
            let after = lined_up(outputs@);
            let lost = orphans(zones_of(after, outputs@.len() as int), windows@);
            &&& r.0@.len() == outputs@.len()
            &&& forall|i: int|
                0 <= i < r.0@.len() ==> #[trigger] r.0@[i] == (Point {
                    x: width_before(outputs@, i) as i32,
                    y: 0,
                })
            &&& r.1@.len() == lost.len()
            &&& forall|i: int|
                0 <= i < r.1@.len() ==> (#[trigger] r.1@[i]).window == lost[i] && place_in(
                    spec_placement_area(after, pointer),
                    r.1@[i].place,
                )
        }),
{
    let positions: Vec<Point> = line_up(outputs);
    let ghost after = lined_up(outputs@);
    let mut moved: Vec<OutputFacts> = Vec::new();
    let mut zones: Vec<Rect> = Vec::new();
    let mut i: usize = 0;
    while i < outputs.len()
        invariant
            i <= outputs@.len(),
            after == lined_up(outputs@),
            positions@.len() == outputs@.len(),
            forall|k: int|
                0 <= k < positions@.len() ==> #[trigger] positions@[k] == (Point {
                    x: width_before(outputs@, k) as i32,
                    y: 0,
                }),
            forall|k: int| 0 <= k < outputs@.len() ==> zone_fits(#[trigger] after[k]),
            moved@ == after.take(i as int),
            zones@ == zones_of(after, i as int),
        decreases outputs@.len() - i,
    {
        let at: Point = positions[i];
        let output = OutputFacts {
            id: outputs[i].id,
            geometry: match outputs[i].geometry {
                Some(geo) => Some(Rect { x: at.x, y: at.y, w: geo.w, h: geo.h }),
                None => None,
            },
            zone: outputs[i].zone,
        };
        assert(output == after[i as int]);
        if let Some(zone) = zone_on_screen(&output) {
            zones.push(zone);
        }
        moved.push(output);
        i = i + 1;
        assert(moved@ =~= after.take(i as int));
    }
    assert(moved@ =~= after);
    let lost: Vec<u64> = orphaned_windows(zones.as_slice(), windows);
    let mut replaced: Vec<Replaced> = Vec::new();
    let mut j: usize = 0;
    while j < lost.len()
        invariant
            j <= lost@.len(),
            replaced@.len() == j,
            moved@ == after,
            forall|k: int| 0 <= k < moved@.len() ==> zone_fits(#[trigger] moved@[k]),
            lost@.len() > 0 ==> has_room(spec_placement_area(after, pointer)),
            forall|k: int|
                0 <= k < j ==> (#[trigger] replaced@[k]).window == lost@[k] && place_in(
                    spec_placement_area(after, pointer),
                    replaced@[k].place,
                ),
        decreases lost@.len() - j,
    {
        let place: NewPlace = place_new_window(moved.as_slice(), pointer);
        replaced.push(Replaced { window: lost[j], place });
        j = j + 1;
    }
    (positions, replaced)
}

/// The usable area keeps the sides and the bottom of what layer surfaces leave
/// of the output. Its top is lower by the bar and its margin above and below;
/// without a bar, or with one of no height, it keeps its top as well. A bar that
/// does not fit leaves nothing.
pub proof fn usable_area_is_below_the_bar(output: OutputFacts, bar_height: i32, bar_margin: i32)
    requires
        can_use(output, bar_height, bar_margin),
        output.geometry is Some,
        0 <= output.zone.h,
    ensures
        ({
            let geo = output.geometry->0;
            let zone = output.zone;
            let area = spec_usable_area(output, bar_height, bar_margin)->0;
            let margin = max(bar_margin as int, 0);
            let taken = margin + bar_height + margin;
            &&& spec_usable_area(output, bar_height, bar_margin) is Some
            &&& area.x == geo.x + zone.x
            &&& area.w == zone.w
            &&& area.y + area.h == geo.y + zone.y + zone.h
            &&& bar_height <= 0 ==> area.y == geo.y + zone.y
            &&& bar_height > 0 && taken <= zone.h ==> area.y == geo.y + zone.y + taken
            &&& bar_height > 0 && taken > zone.h ==> area.h == 0
        }),
{
}

/// What layer surfaces leave of an output keeps its size and moves with the
/// output; an output that is not in use leaves nothing.
pub proof fn zone_moves_with_its_output(output: OutputFacts, at: Point)
    requires
        zone_fits(output),
        zone_fits(moved_to(output, at)),
    ensures
        match (output.geometry, spec_zone_on_screen(output), spec_zone_on_screen(
            moved_to(output, at),
        )) {
            (Some(geo), Some(before), Some(after)) => {
                &&& before.x - geo.x == after.x - at.x == output.zone.x
                &&& before.y - geo.y == after.y - at.y == output.zone.y
                &&& before.w == after.w == output.zone.w
                &&& before.h == after.h == output.zone.h
            },
            (None, None, None) => true,
            _ => false,
        },
{
}

/// Outputs that are lined up stand edge to edge: the first one begins at zero,
/// each begins where the one before it ends, and one that is not in use takes no
/// room.
pub proof fn lined_up_outputs_stand_edge_to_edge(outputs: Seq<OutputFacts>, i: int)
    requires
        0 <= i < outputs.len(),
    ensures
        width_before(outputs, 0) == 0,
        outputs[i].geometry matches Some(geo) ==> width_before(outputs, i + 1) == width_before(
            outputs,
            i,
        ) + geo.w,
        outputs[i].geometry is None ==> width_before(outputs, i + 1) == width_before(outputs, i),
{
}

/// A new window starts on the output under the pointer, of several on the last
/// one; without one there, on the first output.
pub proof fn new_windows_start_under_the_pointer(outputs: Seq<OutputFacts>, pointer: Point, i: int)
    requires
        0 <= i < outputs.len(),
        outputs[i].geometry is Some,
        zone_fits(outputs[i]),
    ensures
        ({
            let geo = outputs[i].geometry->0;
            let zone = outputs[i].zone;
            let area = spec_placement_area(outputs, pointer);
            let here = Rect {
                x: (geo.x + zone.x) as i32,
                y: (geo.y + zone.y) as i32,
                w: zone.w,
                h: zone.h,
            };
            &&& covers(outputs[i], pointer) && (forall|j: int|
                i < j < outputs.len() ==> !covers(#[trigger] outputs[j], pointer)) ==> area == here
            &&& i == 0 && (forall|j: int|
                0 <= j < outputs.len() ==> !covers(#[trigger] outputs[j], pointer)) ==> area == here
        }),
{
    if exists|k: int| under(outputs, pointer, k) {
        let k = choose|k: int| under(outputs, pointer, k);
        assert(covers(outputs[k], pointer));
    }
    if covers(outputs[i], pointer) && (forall|j: int|
        i < j < outputs.len() ==> !covers(#[trigger] outputs[j], pointer)) {
        assert(under(outputs, pointer, i));
    }
}

/// A pixel is on an output if it is on one of its columns and rows; the right
/// and the bottom edge are not on it any more.
pub proof fn outputs_cover_their_pixels(output: OutputFacts, p: Point)
    ensures
        covers(output, p) <==> output.geometry is Some && 0 <= p.x - output.geometry->0.x
            < output.geometry->0.w && 0 <= p.y - output.geometry->0.y < output.geometry->0.h,
{
}

/// A new window may be as large as the area, and starts in the two thirds of it
/// that are closest to its upper left corner.
pub proof fn new_windows_start_in_the_upper_left(area: Rect, place: NewPlace)
    requires
        place_in(area, place),
        0 <= area.w < 0x10_0000,
        0 <= area.h < 0x10_0000,
    ensures
        place.bounds.w == area.w,
        place.bounds.h == area.h,
        0 <= 3 * (place.at.x - area.x) < 2 * area.w,
        0 <= 3 * (place.at.y - area.y) < 2 * area.h,
{
    binary32::two_thirds_are_two_of_three_parts(area.w);
    binary32::two_thirds_are_two_of_three_parts(area.h);
}

/// The windows that have to be placed anew are those that are mapped and whose
/// corner is on none of the zones.
pub proof fn orphans_are_on_no_zone(zones: Seq<Rect>, windows: Seq<WindowCorner>, window: u64)
    ensures
        orphans(zones, windows).contains(window) <==> exists|i: int|
            {
                &&& 0 <= i < windows.len()
                &&& (#[trigger] windows[i]).window == window
                &&& windows[i].location is Some
                &&& forall|k: int|
                    0 <= k < zones.len() ==> !(#[trigger] zones[k]).holds(
                        windows[i].bbox.x + windows[i].location->0.x,
                        windows[i].bbox.y + windows[i].location->0.y,
                    )
            },
    decreases windows.len(),
{
    if windows.len() > 0 {
        let rest = windows.drop_last();
        let last = windows.last();
        orphans_are_on_no_zone(zones, rest, window);
        let before = orphans(zones, rest);
        let all = orphans(zones, windows);
        if all.contains(window) {
            let k = choose|k: int| 0 <= k < all.len() && all[k] == window;
            if k < before.len() {
                assert(before[k] == window);
                let i = choose|i: int|
                    {
                        &&& 0 <= i < rest.len()
                        &&& (#[trigger] rest[i]).window == window
                        &&& orphaned(zones, rest[i])
                    };
                assert(windows[i] == rest[i]);
            } else {
                assert(windows[windows.len() - 1] == last);
            }
        }
        if exists|i: int|
            0 <= i < windows.len() && (#[trigger] windows[i]).window == window && orphaned(
                zones,
                windows[i],
            ) {
            let i = choose|i: int|
                0 <= i < windows.len() && (#[trigger] windows[i]).window == window && orphaned(
                    zones,
                    windows[i],
                );
            if i < rest.len() {
                assert(rest[i] == windows[i]);
                assert(before.contains(window));
                let k = choose|k: int| 0 <= k < before.len() && before[k] == window;
                assert(all[k] == window);
            } else {
                assert(all[all.len() - 1] == window);
            }
        }
    }
}

/// An output that goes to a place has its corner there and is as large as
/// before.
pub proof fn moved_output_keeps_its_size(output: OutputFacts, at: Point)
    ensures
        moved_to(output, at).id == output.id,
        moved_to(output, at).geometry is Some <==> output.geometry is Some,
        output.geometry matches Some(geo) ==> {
            let now = moved_to(output, at).geometry->0;
            &&& now.x == at.x
            &&& now.y == at.y
            &&& now.w == geo.w
            &&& now.h == geo.h
        },
{
}

} // verus!
