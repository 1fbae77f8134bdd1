//! Screen captures of outputs: what is asked for, when it is due, and what is
//! reported back.

use crate::geometry::{Point, Rect, Size};
use vstd::prelude::*;

verus! {

/// What a frame captures: a part of an output, in pixels.
#[derive(Debug, Clone, Copy, PartialEq, Eq, Structural)]
pub struct FrameInfo {
    pub output: u64,
    pub buffer_size: Size,
    pub region_loc: Point,
}

/// A frame that a client asked for.
#[derive(Debug, Clone, Copy, PartialEq, Eq, Structural)]
pub enum FrameData {
    /// There is nothing to capture, and the client has been told so.
    Failed,
    Pending(FrameInfo),
}

/// The frame for a whole output: a failed one when the output is not known or
/// off.
pub fn capture_output(output: Option<u64>, mode: Option<Size>) -> (frame: FrameData)
    ensures
        frame == (match (output, mode) {
            (Some(output), Some(size)) => FrameData::Pending(
                FrameInfo { output, buffer_size: size, region_loc: Point { x: 0, y: 0 } },
            ),
            _ => FrameData::Failed,
        }),
{
    match (output, mode) {
        (Some(output), Some(size)) => FrameData::Pending(
            FrameInfo { output, buffer_size: size, region_loc: Point { x: 0, y: 0 } },
        ),
        _ => FrameData::Failed,
    }
}

/// The whole of an output.
pub open spec fn whole(mode: Size) -> Rect {
    Rect { x: 0, y: 0, w: mode.w, h: mode.h }
}

/// The frame for a region of an output: a failed one when the region is empty,
/// the output is not known or off, or the region lies outside of it. `asked` is the
/// size that was asked for, `pixels` the region in pixels of the output.
pub fn capture_region(
    asked: Size,
    output: Option<u64>,
    mode: Option<Size>,
    pixels: Rect,
) -> (frame: FrameData)
    ensures
        frame == (if asked.w <= 0 || asked.h <= 0 || output is None || mode is None {
            FrameData::Failed
        } else {
            match pixels.spec_intersection(whole(mode->0)) {
                Some(r) => FrameData::Pending(
                    FrameInfo {
                        output: output->0,
                        buffer_size: Size { w: r.w, h: r.h },
                        region_loc: Point { x: r.x, y: r.y },
                    },
                ),
                None => FrameData::Failed,
            }
        }),
{
    if asked.w <= 0 || asked.h <= 0 {
        return FrameData::Failed;
    }
    match (output, mode) {
        (Some(output), Some(size)) => {
            let all = Rect { x: 0, y: 0, w: size.w, h: size.h };
            match pixels.intersection(all) {
                Some(r) => FrameData::Pending(
                    FrameInfo {
                        output,
                        buffer_size: Size { w: r.w, h: r.h },
                        region_loc: Point { x: r.x, y: r.y },
                    },
                ),
                None => FrameData::Failed,
            }
        },
        _ => FrameData::Failed,
    }
}

/// Width, height and bytes per row of the buffer that a client has to bring.
pub fn announced_buffer(info: FrameInfo) -> (r: (u32, u32, u32))
    requires
        0 <= info.buffer_size.w,
        0 <= info.buffer_size.h,
        info.buffer_size.w * 4 <= u32::MAX,
    ensures
        r.0 == info.buffer_size.w,
        r.1 == info.buffer_size.h,
        r.2 == info.buffer_size.w * 4,
{
    let w: u32 = info.buffer_size.w as u32;
    (w, info.buffer_size.h as u32, w * 4)
}

/// A capture that waits for its turn.
#[derive(Debug, Clone, Copy, PartialEq, Eq, Structural)]
pub struct PendingCapture {
    pub frame: u64,
    pub output: u64,
    pub buffer: u64,
    pub buffer_size: Size,
    pub region_loc: Point,
    /// The capture waits until something on the output changes, and is told
    /// what changed.
    pub wants_damage: bool,
}

/// What became of a request to copy.
#[derive(Debug, Clone, Copy, PartialEq, Eq, Structural)]
pub enum CopyStep {
    /// The frame has failed before; nothing happens.
    Ignored,
    /// A copy into this frame was requested before: a protocol error.
    AlreadyUsed,
    Queued,
}

/// The captures that wait.
#[derive(Debug)]
pub struct ScreencopyState {
    pub pending: Vec<PendingCapture>,
}

impl Default for ScreencopyState {
    fn default() -> (q: ScreencopyState)
        ensures
            q.pending@.len() == 0,
    {
        ScreencopyState { pending: Vec::new() }
    }
}

/// Whether some capture waits for a frame.
pub open spec fn waits(pending: Seq<PendingCapture>, frame: u64) -> bool {
    exists|i: int| 0 <= i < pending.len() && (#[trigger] pending[i]).frame == frame
}

/// Whether no two captures are for the same frame.
pub open spec fn one_per_frame(pending: Seq<PendingCapture>) -> bool {
    forall|i: int, j: int|
        0 <= i < j < pending.len() ==> (#[trigger] pending[i]).frame != (
        #[trigger] pending[j]).frame
}

/// Whether a frame changed anything on the output.
pub open spec fn has_changed(damage: Option<&[Rect]>) -> bool {
    damage matches Some(rects) && rects@.len() > 0
}

/// The predicate "is due when `output` has drawn a frame": at once, or, for a
/// capture that waits for changes, when the frame had some.
pub open spec fn due(output: u64, changed: bool) -> spec_fn(PendingCapture) -> bool {
    |c: PendingCapture| c.output == output && (!c.wants_damage || changed)
}

/// The predicate "is not due".
pub open spec fn not_due(output: u64, changed: bool) -> spec_fn(PendingCapture) -> bool {
    |c: PendingCapture| !(c.output == output && (!c.wants_damage || changed))
}

/// The predicate "is for another frame".
pub open spec fn other_frame(frame: u64) -> spec_fn(PendingCapture) -> bool {
    |c: PendingCapture| c.frame != frame
}

impl ScreencopyState {
    /// Asks for a copy of a frame into a buffer.
    pub fn request_copy(
        &mut self,
        frame: u64,
        data: FrameData,
        buffer: u64,
        wants_damage: bool,
    ) -> (step: CopyStep)
        ensures
            step == (match data {
                FrameData::Failed => CopyStep::Ignored,
                FrameData::Pending(_) => if waits(old(self).pending@, frame) {
                    CopyStep::AlreadyUsed
                } else {
                    CopyStep::Queued
                },
            }),
            final(self).pending@ == (if step == CopyStep::Queued {
                old(self).pending@.push(
                    PendingCapture {
                        frame,
                        output: (data->Pending_0).output,
                        buffer,
                        buffer_size: (data->Pending_0).buffer_size,
                        region_loc: (data->Pending_0).region_loc,
                        wants_damage,
                    },
                )
            } else {
                old(self).pending@
            }),
            one_per_frame(old(self).pending@) ==> one_per_frame(final(self).pending@),
    {
        let wanted: FrameInfo = match data {
            FrameData::Pending(wanted) => wanted,
            FrameData::Failed => return CopyStep::Ignored,
        };
        let mut i: usize = 0;
        while i < self.pending.len()
            invariant
                i <= self.pending@.len(),
                data == FrameData::Pending(wanted),
                self.pending@ == old(self).pending@,
                forall|k: int| 0 <= k < i ==> (#[trigger] self.pending@[k]).frame != frame,
            decreases self.pending@.len() - i,
        {
            if self.pending[i].frame == frame {
                assert(self.pending@[i as int].frame == frame);
                return CopyStep::AlreadyUsed;
            }
            i = i + 1;
        }
        self.pending.push(
            PendingCapture {
                frame,
                output: wanted.output,
                buffer,
                buffer_size: wanted.buffer_size,
                region_loc: wanted.region_loc,
                wants_damage,
            },
        );
        CopyStep::Queued
    }

    /// Drops the captures for a frame that is gone.
    pub fn frame_destroyed(&mut self, frame: u64)
        ensures
            final(self).pending@ == old(self).pending@.filter(other_frame(frame)),
    {
        let mut kept: Vec<PendingCapture> = Vec::new();
        let mut i: usize = 0;
        let ghost all = self.pending@;
        proof {
            reveal(Seq::filter);
            assert(all.take(0).filter(other_frame(frame)) =~= Seq::<PendingCapture>::empty());
        }
        while i < self.pending.len()
            invariant
                i <= all.len(),
                self.pending@ == all,
                kept@ == all.take(i as int).filter(other_frame(frame)),
            decreases all.len() - i,
        {
            let c: PendingCapture = self.pending[i];
            let ghost next = all.take(i + 1);
            proof {
                reveal(Seq::filter);
                assert(next.drop_last() =~= all.take(i as int));
                assert(next.last() == c);
            }
            if c.frame != frame {
                kept.push(c);
            }
            i = i + 1;
        }
        assert(all.take(i as int) =~= all);
        self.pending = kept;
    }

    /// Takes out the captures that are due, in the order they were asked for.
    /// The others keep waiting. `damage` is what the last frame changed on the
    /// output; none, or an empty list, is no change.
    pub fn service_pending_captures(&mut self, output: u64, damage: Option<&[Rect]>) -> (ready: Vec<
        PendingCapture,
    >)
        ensures
            ready@ == old(self).pending@.filter(due(output, has_changed(damage))),
            final(self).pending@ == old(self).pending@.filter(
                not_due(output, has_changed(damage)),
            ),
    {
        let changed: bool = match damage {
            Some(rects) => rects.len() > 0,
            None => false,
        };
        let mut ready: Vec<PendingCapture> = Vec::new();
        let mut rest: Vec<PendingCapture> = Vec::new();
        let mut i: usize = 0;
        let ghost all = self.pending@;
        proof {
            reveal(Seq::filter);
            assert(all.take(0).filter(due(output, changed)) =~= Seq::<PendingCapture>::empty());
            assert(all.take(0).filter(not_due(output, changed))
                =~= Seq::<PendingCapture>::empty());
        }
        while i < self.pending.len()
            invariant
                i <= all.len(),
                self.pending@ == all,
                ready@ == all.take(i as int).filter(due(output, changed)),
                rest@ == all.take(i as int).filter(not_due(output, changed)),
            decreases all.len() - i,
        {
            let c: PendingCapture = self.pending[i];
            let ghost next = all.take(i + 1);
            proof {
                reveal(Seq::filter);
                assert(next.drop_last() =~= all.take(i as int));
                assert(next.last() == c);
            }
            if c.output == output && (!c.wants_damage || changed) {
                ready.push(c);
            } else {
                rest.push(c);
            }
            i = i + 1;
        }
        assert(all.take(i as int) =~= all);
        self.pending = rest;
        ready
    }
}

/// Every waiting capture is either handed out or keeps waiting, none is lost
/// and none is doubled; a plain copy of the output is always handed out.
pub proof fn captures_are_never_lost(pending: Seq<PendingCapture>, output: u64, changed: bool, c: PendingCapture)
    ensures
        pending.to_multiset().count(c) == pending.filter(due(output, changed)).to_multiset().count(
            c,
        ) + pending.filter(not_due(output, changed)).to_multiset().count(c),
        pending.contains(c) && c.output == output && !c.wants_damage ==> pending.filter(
            due(output, changed),
        ).contains(c),
    decreases pending.len(),
{
    reveal(Seq::filter);
    broadcast use vstd::seq_lib::group_to_multiset_ensures;

    if pending.len() > 0 {
        let rest = pending.drop_last();
        captures_are_never_lost(rest, output, changed, c);
        assert(pending =~= rest.push(pending.last()));
        let yes = due(output, changed);
        let no = not_due(output, changed);
        if pending.contains(c) && c.output == output && !c.wants_damage {
            let i = choose|i: int| 0 <= i < pending.len() && pending[i] == c;
            let out = pending.filter(yes);
            if i < rest.len() {
                assert(rest[i] == c);
                assert(rest.filter(yes).contains(c));
                let k = choose|k: int|
                    0 <= k < rest.filter(yes).len() && rest.filter(yes)[k] == c;
                assert(out[k] == c);
            } else {
                assert(out[out.len() - 1] == c);
            }
        }
    } else {
        assert(pending.filter(due(output, changed)) =~= pending);
        assert(pending.filter(not_due(output, changed)) =~= pending);
    }
}

/// The part of an output that a capture shows.
pub open spec fn captured_rect(c: PendingCapture) -> Rect {
    Rect { x: c.region_loc.x, y: c.region_loc.y, w: c.buffer_size.w, h: c.buffer_size.h }
}

/// A changed rectangle of the output in coordinates of the capture, clipped to
/// it.
pub open spec fn local_damage(area: Rect, rect: Rect) -> Option<Rect> {
    match rect.spec_intersection(area) {
        Some(r) => Some(
            Rect { x: (r.x - area.x) as i32, y: (r.y - area.y) as i32, w: r.w, h: r.h },
        ),
        None => None,
    }
}

/// The changes that the first `n` rectangles make to a capture.
pub open spec fn local_damages(area: Rect, damage: Seq<Rect>, n: int) -> Seq<Rect>
    decreases n,
{
    if n <= 0 {
        Seq::empty()
    } else {
        let before = local_damages(area, damage, n - 1);
        match local_damage(area, damage[n - 1]) {
            Some(r) => before.push(r),
            None => before,
        }
    }
}

/// The changes of an output in coordinates of a captured area. Changes outside
/// of it are left out.
pub fn damage_in(area: Rect, damage: &[Rect]) -> (r: Vec<Rect>)
    ensures
        r@ == local_damages(area, damage@, damage@.len() as int),
{
    let mut r: Vec<Rect> = Vec::new();
    let mut i: usize = 0;
    while i < damage.len()
        invariant
            i <= damage@.len(),
            r@ == local_damages(area, damage@, i as int),
        decreases damage@.len() - i,
    {
        if let Some(hit) = damage[i].intersection(area) {
            assert(area.x <= hit.x);
            assert(area.y <= hit.y);
            assert(hit.x - area.x <= i32::MAX && hit.y - area.y <= i32::MAX);
            r.push(Rect { x: hit.x - area.x, y: hit.y - area.y, w: hit.w, h: hit.h });
        }
        i = i + 1;
    }
    r
}

/// What a capture reports as changed: nothing for a plain copy.
pub fn reported_damage(c: PendingCapture, damage: &[Rect]) -> (r: Vec<Rect>)
    ensures
        r@ == (if c.wants_damage {
            local_damages(captured_rect(c), damage@, damage@.len() as int)
        } else {
            Seq::<Rect>::empty()
        }),
{
    if !c.wants_damage {
        return Vec::new();
    }
    let area = Rect {
        x: c.region_loc.x,
        y: c.region_loc.y,
        w: c.buffer_size.w,
        h: c.buffer_size.h,
    };
    damage_in(area, damage)
}

/// Everything that is reported as changed lies inside the capture's buffer.
pub proof fn reported_damage_stays_inside(area: Rect, damage: Seq<Rect>, n: int, i: int)
    requires
        0 <= n <= damage.len(),
        0 <= i < local_damages(area, damage, n).len(),
        area.w >= 0,
        area.h >= 0,
    ensures
        ({
            let r = local_damages(area, damage, n)[i];
            &&& 0 <= r.x
            &&& 0 <= r.y
            &&& r.x + r.w <= area.w
            &&& r.y + r.h <= area.h
        }),
    decreases n,
{
    if n > 0 {
        let before = local_damages(area, damage, n - 1);
        if i < before.len() {
            reported_damage_stays_inside(area, damage, n - 1, i);
            assert(local_damages(area, damage, n)[i] == before[i]);
        }
    }
}

/// A time in seconds as two halves, the higher one first.
pub fn split_seconds(secs: u64) -> (r: (u32, u32))
    ensures
        r.0 as int * 0x1_0000_0000 + r.1 as int == secs,
{
    ((secs / 0x1_0000_0000) as u32, (secs % 0x1_0000_0000) as u32)
}

/// A buffer that a client brought.
#[derive(Debug, Clone, Copy, PartialEq, Eq, Structural)]
pub struct ClientBuffer {
    /// Its pixels are of the announced format.
    pub argb: bool,
    pub width: i32,
    pub height: i32,
    pub stride: i32,
    /// Its length in bytes.
    pub len: usize,
}

/// Why a captured image cannot be handed over.
#[derive(Debug, Clone, Copy, PartialEq, Eq, Structural)]
pub enum CopyError {
    /// The output shows nothing: it has no place or no mode.
    OutputOff,
    /// The image could not be drawn or read back.
    NotDrawn,
    /// The buffer is not in shared memory.
    NotShared,
    /// The buffer is not what was announced.
    BufferMismatch,
    /// The image is not as large as the buffer.
    SizeMismatch,
}

/// Whether a buffer is the one that was announced for a capture of this size.
pub open spec fn as_announced(buffer: ClientBuffer, size: Size) -> bool {
    &&& buffer.argb
    &&& buffer.width == size.w
    &&& buffer.height == size.h
    &&& buffer.stride == size.w * 4
    &&& buffer.len == buffer.stride * buffer.height
}

/// Whether a captured image can be handed over to a client's buffer, and if not,
/// why.
pub fn check_buffer(buffer: ClientBuffer, size: Size, image_len: usize) -> (r: Result<(), CopyError>)
    requires
        0 <= size.w,
        0 <= size.h,
        size.w * 4 <= i32::MAX,
        size.w * 4 * size.h <= usize::MAX,
    ensures
        r == (if !as_announced(buffer, size) {
            Err::<(), CopyError>(CopyError::BufferMismatch)
        } else if image_len != buffer.len {
            Err::<(), CopyError>(CopyError::SizeMismatch)
        } else {
            Ok::<(), CopyError>(())
        }),
{
    if !buffer.argb || buffer.width != size.w || buffer.height != size.h || buffer.stride != size.w
        * 4 {
        return Err(CopyError::BufferMismatch);
    }
    if buffer.len != buffer.stride as usize * buffer.height as usize {
        return Err(CopyError::BufferMismatch);
    }
    if image_len != buffer.len {
        return Err(CopyError::SizeMismatch);
    }
    Ok(())
}

/// Whether the image of an output can be handed over to a client's buffer, and if
/// not, why. `shown` tells whether the output has a place and a mode, `image_len`
/// the length of the image that was drawn, `buffer` the client's buffer if it
/// is in shared memory.
pub fn render_and_copy(
    shown: bool,
    image_len: Option<usize>,
    buffer: Option<ClientBuffer>,
    size: Size,
) -> (r: Result<(), CopyError>)
    requires
        0 <= size.w,
        0 <= size.h,
        size.w * 4 <= i32::MAX,
        size.w * 4 * size.h <= usize::MAX,
    ensures
        r == copy_result(shown, image_len, buffer, size),
{
    if !shown {
        return Err(CopyError::OutputOff);
    }
    match (image_len, buffer) {
        (None, _) => Err(CopyError::NotDrawn),
        (_, None) => Err(CopyError::NotShared),
        (Some(len), Some(buffer)) => check_buffer(buffer, size, len),
    }
}

/// What becomes of handing an image over.
pub open spec fn copy_result(
    shown: bool,
    image_len: Option<usize>,
    buffer: Option<ClientBuffer>,
    size: Size,
) -> Result<(), CopyError> {
    if !shown {
        Err(CopyError::OutputOff)
    } else if image_len is None {
        Err(CopyError::NotDrawn)
    } else if buffer is None {
        Err(CopyError::NotShared)
    } else if !as_announced(buffer->0, size) {
        Err(CopyError::BufferMismatch)
    } else if image_len->0 != (buffer->0).len {
        Err(CopyError::SizeMismatch)
    } else {
        Ok(())
    }
}

/// Fills a buffer with an image of the same length.
pub fn copy_image(contents: &mut [u8], image: &[u8])
    requires
        old(contents)@.len() == image@.len(),
    ensures
        final(contents)@ == image@,
{
    let n: usize = image.len();
    let mut i: usize = 0;
    while i < n
        invariant
            i <= n,
            n == image@.len(),
            contents@.len() == n,
            forall|k: int| 0 <= k < i ==> contents@[k] == image@[k],
        decreases n - i,
    {
        contents[i] = image[i];
        i = i + 1;
    }
    assert(contents@ =~= image@);
}

/// What a client is told about a capture.
#[derive(Debug, Clone, Copy, PartialEq, Eq, Structural)]
pub enum CaptureEvent {
    /// How the image is to be read; it is never upside down.
    Flags,
    /// A part of the image changed.
    Damage { rect: Rect },
    /// The image is there, with the time of its making: seconds in two halves,
    /// then nanoseconds.
    Ready { high: u32, low: u32, nanos: u32 },
    Failed,
}

/// The rectangles as events.
pub open spec fn damage_events(rects: Seq<Rect>) -> Seq<CaptureEvent> {
    rects.map_values(|rect: Rect| CaptureEvent::Damage { rect })
}

/// What a client is told about a capture that was made at `secs` and `nanos`.
pub open spec fn capture_events(
    c: PendingCapture,
    alive: bool,
    copied: bool,
    damage: Seq<Rect>,
    secs: u64,
    nanos: u32,
) -> Seq<CaptureEvent> {
    if !alive {
        Seq::empty()
    } else if !copied {
        seq![CaptureEvent::Failed]
    } else {
        let changed = if c.wants_damage {
            local_damages(captured_rect(c), damage, damage.len() as int)
        } else {
            Seq::<Rect>::empty()
        };
        seq![CaptureEvent::Flags] + damage_events(changed) + seq![
            CaptureEvent::Ready {
                high: (secs / 0x1_0000_0000) as u32,
                low: (secs % 0x1_0000_0000) as u32,
                nanos,
            },
        ]
    }
}

/// Answers a capture: `copied` tells whether its image was handed over,
/// `damage` what changed on the output. A client whose frame is gone is told
/// nothing.
pub fn capture_one(
    c: PendingCapture,
    alive: bool,
    copied: Result<(), CopyError>,
    damage: &[Rect],
    secs: u64,
    nanos: u32,
) -> (events: Vec<CaptureEvent>)
    ensures
        events@ == capture_events(c, alive, copied is Ok, damage@, secs, nanos),
{
    let mut events: Vec<CaptureEvent> = Vec::new();
    if !alive {
        return events;
    }
    if copied.is_err() {
        events.push(CaptureEvent::Failed);
        assert(events@ =~= capture_events(c, alive, false, damage@, secs, nanos));
        return events;
    }
    events.push(CaptureEvent::Flags);
    let changed: Vec<Rect> = reported_damage(c, damage);
    let mut i: usize = 0;
    assert(events@ =~= seq![CaptureEvent::Flags] + damage_events(changed@.take(0)));
    while i < changed.len()
        invariant
            i <= changed@.len(),
            events@ == seq![CaptureEvent::Flags] + damage_events(changed@.take(i as int)),
        decreases changed@.len() - i,
    {
        events.push(CaptureEvent::Damage { rect: changed[i] });
        i = i + 1;
        assert(events@ =~= seq![CaptureEvent::Flags] + damage_events(changed@.take(i as int)));
    }
    assert(changed@.take(i as int) =~= changed@);
    let (high, low) = split_seconds(secs);
    events.push(CaptureEvent::Ready { high, low, nanos });
    assert(events@ =~= capture_events(c, alive, true, damage@, secs, nanos));
    events
}

/// A capture whose frame is still there is answered exactly once, at the end of
/// what is told: with the time of the image if it was handed over, with a
/// failure otherwise.
pub proof fn captures_are_answered_once(
    c: PendingCapture,
    copied: bool,
    damage: Seq<Rect>,
    secs: u64,
    nanos: u32,
)
    ensures
        ({
            let events = capture_events(c, true, copied, damage, secs, nanos);
            &&& events.len() > 0
            &&& copied ==> events.last() is Ready
            &&& !copied ==> events.last() is Failed
            &&& forall|i: int|
                0 <= i < events.len() - 1 ==> !((#[trigger] events[i]) is Ready) && !(events[i] is Failed)
        }),
{
}

/// A pixel of a capture is reported as changed if and only if it is a pixel of
/// the capture and the pixel of the output that it shows is in the changed
/// rectangle.
pub proof fn damage_is_told_in_pixels_of_the_capture(area: Rect, rect: Rect, x: int, y: int)
    requires
        area.corner_fits(),
        rect.corner_fits(),
        area.w >= 0,
        area.h >= 0,
    ensures
        (local_damage(area, rect) matches Some(r) && r.x <= x < r.x + r.w && r.y <= y < r.y + r.h)
            <==> {
            &&& 0 <= x < area.w
            &&& 0 <= y < area.h
            &&& rect.x <= area.x + x < rect.x + rect.w
            &&& rect.y <= area.y + y < rect.y + rect.h
        },
{
}

/// Every changed rectangle that reaches into a capture is reported with its part
/// of it, and nothing else is.
pub proof fn every_change_is_reported(area: Rect, damage: Seq<Rect>, n: int, r: Rect)
    requires
        0 <= n <= damage.len(),
    ensures
        local_damages(area, damage, n).contains(r) <==> exists|i: int|
            0 <= i < n && local_damage(area, #[trigger] damage[i]) == Some(r),
    decreases n,
{
    if n > 0 {
        every_change_is_reported(area, damage, n - 1, r);
        let before = local_damages(area, damage, n - 1);
        let all = local_damages(area, damage, n);
        if all.contains(r) {
            let k = choose|k: int| 0 <= k < all.len() && all[k] == r;
            if k < before.len() {
                assert(before[k] == r);
            } else {
                assert(local_damage(area, damage[n - 1]) == Some(r));
            }
        }
        if before.contains(r) {
            let k = choose|k: int| 0 <= k < before.len() && before[k] == r;
            assert(all[k] == r);
        }
        if local_damage(area, damage[n - 1]) is Some {
            assert(all[all.len() - 1] == local_damage(area, damage[n - 1])->0);
        }
    }
}

/// A capture is handed out when its output has drawn a frame: a plain copy
/// always, one that waits for changes when there were some. A capture of another
/// output keeps waiting.
pub proof fn captures_wait_for_their_output_and_changes(
    pending: Seq<PendingCapture>,
    output: u64,
    changed: bool,
    c: PendingCapture,
)
    requires
        pending.contains(c),
    ensures
        ({
            let out = pending.filter(due(output, changed)).contains(c);
            let kept = pending.filter(not_due(output, changed)).contains(c);
            &&& out == !kept
            &&& c.output != output ==> kept
            &&& c.output == output && !c.wants_damage ==> out
            &&& c.output == output && c.wants_damage ==> out == changed
        }),
{
    let i = choose|i: int| 0 <= i < pending.len() && pending[i] == c;
    let yes = due(output, changed);
    let no = not_due(output, changed);
    if yes(c) {
        pending.lemma_filter_contains(yes, i);
    } else {
        pending.lemma_filter_contains(no, i);
    }
    if pending.filter(yes).contains(c) {
        let k = choose|k: int|
            0 <= k < pending.filter(yes).len() && pending.filter(yes)[k] == c;
        pending.lemma_filter_pred(yes, k);
    }
    if pending.filter(no).contains(c) {
        let k = choose|k: int| 0 <= k < pending.filter(no).len() && pending.filter(no)[k] == c;
        pending.lemma_filter_pred(no, k);
    }
}

/// An image is handed over if and only if the output shows something, the image
/// was drawn, and the client's buffer is a shared one with four bytes for every
/// pixel of the capture and nothing else, as many as the image has.
pub proof fn images_go_into_fitting_buffers_alone(
    shown: bool,
    image_len: Option<usize>,
    buffer: Option<ClientBuffer>,
    size: Size,
)
    ensures
        copy_result(shown, image_len, buffer, size) is Ok <==> {
            &&& shown
            &&& image_len is Some
            &&& buffer is Some
            &&& (buffer->0).argb
            &&& (buffer->0).width == size.w
            &&& (buffer->0).height == size.h
            &&& (buffer->0).stride == 4 * size.w
            &&& (buffer->0).len == (buffer->0).stride * size.h
            &&& image_len->0 == (buffer->0).len
        },
        !shown ==> copy_result(shown, image_len, buffer, size) == Err::<(), CopyError>(
            CopyError::OutputOff,
        ),
{
}

/// The time that a client is told is the time of the image, and every change is
/// told before it, in order; a plain copy is told no changes.
pub proof fn clients_are_told_time_and_changes(
    c: PendingCapture,
    damage: Seq<Rect>,
    secs: u64,
    nanos: u32,
)
    ensures
        ({
            let events = capture_events(c, true, true, damage, secs, nanos);
            let changed = local_damages(captured_rect(c), damage, damage.len() as int);
            &&& events[0] is Flags
            &&& events.last() matches CaptureEvent::Ready { high, low, nanos: n } && high
                * 0x1_0000_0000 + low == secs && n == nanos
            &&& c.wants_damage ==> events.len() == changed.len() + 2 && forall|i: int|
                0 <= i < changed.len() ==> events[i + 1] == (CaptureEvent::Damage {
                    rect: #[trigger] changed[i],
                })
            &&& !c.wants_damage ==> events.len() == 2
        }),
        capture_events(c, false, true, damage, secs, nanos).len() == 0,
        capture_events(c, false, false, damage, secs, nanos).len() == 0,
{
    let events = capture_events(c, true, true, damage, secs, nanos);
    let changed = local_damages(captured_rect(c), damage, damage.len() as int);
    if c.wants_damage {
        assert forall|i: int| 0 <= i < changed.len() implies events[i + 1] == (
        CaptureEvent::Damage { rect: #[trigger] changed[i] }) by {
            assert(events[i + 1] == damage_events(changed)[i]);
        }
    }
}

/// The part of an output that a capture shows starts where its region does and
/// is as large as its buffer.
pub proof fn capture_shows_its_region(c: PendingCapture, x: int, y: int)
    requires
        c.buffer_size.w >= 0,
        c.buffer_size.h >= 0,
        captured_rect(c).corner_fits(),
    ensures
        captured_rect(c).holds(x, y) <==> 0 <= x - c.region_loc.x < c.buffer_size.w && 0 <= y
            - c.region_loc.y < c.buffer_size.h,
{
}

/// A frame waits if and only if a capture is pending for it, at most one per
/// frame; a frame that is gone does not wait any more, and the others do.
pub proof fn frames_wait_for_their_captures(
    pending: Seq<PendingCapture>,
    frame: u64,
    c: PendingCapture,
    i: int,
    j: int,
)
    ensures
        pending.contains(c) ==> waits(pending, c.frame),
        waits(pending, frame) ==> exists|k: int|
            0 <= k < pending.len() && #[trigger] pending[k].frame == frame,
        one_per_frame(pending) && 0 <= i < pending.len() && 0 <= j < pending.len()
            && pending[i].frame == pending[j].frame ==> i == j,
        pending.filter(other_frame(frame)).contains(c) <==> pending.contains(c) && c.frame != frame,
{
    let keep = other_frame(frame);
    let left = pending.filter(keep);
    if pending.contains(c) {
        let k = choose|k: int| 0 <= k < pending.len() && pending[k] == c;
        assert(pending[k].frame == c.frame);
        if c.frame != frame {
            pending.lemma_filter_contains(keep, k);
        }
    }
    if left.contains(c) {
        let k = choose|k: int| 0 <= k < left.len() && left[k] == c;
        pending.lemma_filter_pred(keep, k);
        pending.lemma_filter_contains_rev(keep, c);
    }
}

} // verus!
