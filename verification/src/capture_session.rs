//! Capture sessions: a client captures the same output or window again and
//! again.

use crate::capture;
use crate::capture::CopyError;
use crate::geometry::{Rect, Size};
use vstd::prelude::*;

verus! {

/// What a session captures.
#[derive(Debug, Clone, Copy, PartialEq, Eq, Structural)]
pub enum CaptureSource {
    Output(u64),
    Toplevel(u64),
}

/// A session.
#[derive(Debug, Clone, Copy, PartialEq, Eq, Structural)]
pub struct SessionData {
    /// What is captured; absent for a session that can never capture.
    pub source: Option<CaptureSource>,
    pub paint_cursors: bool,
    /// A capture was asked for before.
    pub captured_once: bool,
}

/// A new session. Without a source it is stopped at once.
pub fn create_session(source: Option<CaptureSource>, paint_cursors: bool) -> (r: (SessionData, bool))
    ensures
        r.0 == (SessionData { source, paint_cursors, captured_once: false }),
        r.1 == (source is None),
{
    (SessionData { source, paint_cursors, captured_once: false }, source.is_none())
}

/// Size of the buffers that a session takes: that of the output's mode, or of
/// the window. None when the output is off or the window is gone, and the
/// session stops.
pub fn buffer_constraints(
    source: CaptureSource,
    mode: Option<Size>,
    window_alive: bool,
    window_size: Size,
) -> (size: Option<Size>)
    ensures
        size == (match source {
            CaptureSource::Output(_) => mode,
            CaptureSource::Toplevel(_) => if window_alive {
                Some(window_size)
            } else {
                None
            },
        }),
{
    match source {
        CaptureSource::Output(_) => mode,
        CaptureSource::Toplevel(_) => if window_alive {
            Some(window_size)
        } else {
            None
        },
    }
}

/// A frame of a session.
#[derive(Debug, Clone, Copy, PartialEq, Eq, Structural)]
pub struct FrameData {
    pub buffer: Option<u64>,
    pub captured: bool,
}

impl Default for FrameData {
    fn default() -> (f: FrameData)
        ensures
            f == (FrameData { buffer: None, captured: false }),
    {
        FrameData { buffer: None, captured: false }
    }
}

/// The session that a frame belongs to.
#[derive(Debug, Clone, Copy, PartialEq, Eq, Structural)]
pub enum SessionLink {
    /// It is gone.
    Gone,
    /// It is not one of ours.
    Unknown,
    Live(SessionData),
}

/// What a client asks of a frame.
#[derive(Debug, Clone, Copy, PartialEq, Eq, Structural)]
pub enum FrameRequest {
    AttachBuffer { buffer: u64 },
    DamageBuffer { rect: Rect },
    Capture,
}

/// What a client is told.
#[derive(Debug, Clone, Copy, PartialEq, Eq, Structural)]
pub enum FrameReply {
    Nothing,
    /// Protocol error: the frame was captured already.
    AlreadyCaptured,
    /// Protocol error: there is no buffer to capture into.
    NoBuffer,
    /// Protocol error: the rectangle is empty or outside of any buffer.
    InvalidDamage,
    /// The capture failed because the session has stopped.
    Stopped,
    /// The capture failed.
    Failed,
}

/// A capture that waits for its turn.
#[derive(Debug, Clone, Copy, PartialEq, Eq, Structural)]
pub struct PendingCapture {
    pub frame: u64,
    pub source: CaptureSource,
    pub buffer: u64,
    pub paint_cursors: bool,
    /// The capture waits until something changes.
    pub wants_damage: bool,
}

/// Whether a rectangle can be one of a buffer.
pub open spec fn valid_damage(r: Rect) -> bool {
    r.x >= 0 && r.y >= 0 && r.w > 0 && r.h > 0
}

/// What a request makes of a frame.
pub open spec fn frame_after(frame: FrameData, link: SessionLink, request: FrameRequest) -> FrameData {
    if frame.captured {
        frame
    } else {
        match request {
            FrameRequest::AttachBuffer { buffer } => FrameData { buffer: Some(buffer), captured: false },
            FrameRequest::DamageBuffer { .. } => frame,
            FrameRequest::Capture => if frame.buffer is None {
                frame
            } else {
                FrameData { buffer: None, captured: link is Live }
            },
        }
    }
}

/// What a client is told for a request.
pub open spec fn frame_reply(frame: FrameData, link: SessionLink, request: FrameRequest) -> FrameReply {
    if frame.captured {
        FrameReply::AlreadyCaptured
    } else {
        match request {
            FrameRequest::AttachBuffer { .. } => FrameReply::Nothing,
            FrameRequest::DamageBuffer { rect } => if valid_damage(rect) {
                FrameReply::Nothing
            } else {
                FrameReply::InvalidDamage
            },
            FrameRequest::Capture => if frame.buffer is None {
                FrameReply::NoBuffer
            } else {
                match link {
                    SessionLink::Gone => FrameReply::Stopped,
                    SessionLink::Unknown => FrameReply::Failed,
                    SessionLink::Live(session) => if session.source is None {
                        FrameReply::Stopped
                    } else {
                        FrameReply::Nothing
                    },
                }
            },
        }
    }
}

/// Whether a request starts a capture.
pub open spec fn starts_capture(frame: FrameData, link: SessionLink, request: FrameRequest) -> bool {
    &&& request is Capture
    &&& !frame.captured
    &&& frame.buffer is Some
    &&& link matches SessionLink::Live(session) && session.source is Some
}

/// The captures that wait.
#[derive(Debug)]
pub struct ExtScreencopyState {
    pub pending: Vec<PendingCapture>,
}

impl Default for ExtScreencopyState {
    fn default() -> (q: ExtScreencopyState)
        ensures
            q.pending@.len() == 0,
    {
        ExtScreencopyState { pending: Vec::new() }
    }
}

/// Whether a source has to do with an output; a window has to do with any.
pub open spec fn concerns(source: CaptureSource, output: u64) -> bool {
    match source {
        CaptureSource::Output(o) => o == output,
        CaptureSource::Toplevel(_) => true,
    }
}

/// The predicate "is due when `output` has drawn a frame".
pub open spec fn due(output: u64, changed: bool) -> spec_fn(PendingCapture) -> bool {
    |c: PendingCapture| concerns(c.source, output) && (!c.wants_damage || changed)
}

/// The predicate "is not due".
pub open spec fn not_due(output: u64, changed: bool) -> spec_fn(PendingCapture) -> bool {
    |c: PendingCapture| !(concerns(c.source, output) && (!c.wants_damage || changed))
}

/// The predicate "is for another frame".
pub open spec fn other_frame(frame: u64) -> spec_fn(PendingCapture) -> bool {
    |c: PendingCapture| c.frame != frame
}

impl ExtScreencopyState {
    /// Carries out a request on a frame. The first capture of a session is
    /// taken at the next chance; later ones wait for a change.
    pub fn request(
        &mut self,
        id: u64,
        frame: &mut FrameData,
        link: &mut SessionLink,
        request: FrameRequest,
    ) -> (reply: FrameReply)
        ensures
            *final(frame) == frame_after(*old(frame), *old(link), request),
            reply == frame_reply(*old(frame), *old(link), request),
            starts_capture(*old(frame), *old(link), request) ==> {
                let session = old(link)->Live_0;
                &&& final(self).pending@ == old(self).pending@.push(
                    PendingCapture {
                        frame: id,
                        source: session.source->0,
                        buffer: old(frame).buffer->0,
                        paint_cursors: session.paint_cursors,
                        wants_damage: session.captured_once,
                    },
                )
                &&& *final(link) == SessionLink::Live(SessionData { captured_once: true, ..session })
            },
            !starts_capture(*old(frame), *old(link), request) ==> final(self).pending@
                == old(self).pending@ && *final(link) == *old(link),
    {
        match request {
            FrameRequest::AttachBuffer { buffer } => {
                if frame.captured {
                    return FrameReply::AlreadyCaptured;
                }
                frame.buffer = Some(buffer);
                FrameReply::Nothing
            },
            FrameRequest::DamageBuffer { rect } => {
                if frame.captured {
                    return FrameReply::AlreadyCaptured;
                }
                if rect.x < 0 || rect.y < 0 || rect.w <= 0 || rect.h <= 0 {
                    return FrameReply::InvalidDamage;
                }
                FrameReply::Nothing
            },
            FrameRequest::Capture => {
                if frame.captured {
                    return FrameReply::AlreadyCaptured;
                }
                let buffer: u64 = match frame.buffer {
                    Some(buffer) => buffer,
                    None => return FrameReply::NoBuffer,
                };
                frame.buffer = None;
                let session: SessionData = match *link {
                    SessionLink::Gone => return FrameReply::Stopped,
                    SessionLink::Unknown => return FrameReply::Failed,
                    SessionLink::Live(session) => session,
                };
                frame.captured = true;
                let source: CaptureSource = match session.source {
                    Some(source) => source,
                    None => return FrameReply::Stopped,
                };
                *link = SessionLink::Live(
                    SessionData {
                        source: session.source,
                        paint_cursors: session.paint_cursors,
                        captured_once: true,
                    },
                );
                self.pending.push(
                    PendingCapture {
                        frame: id,
                        source,
                        buffer,
                        paint_cursors: session.paint_cursors,
                        wants_damage: session.captured_once,
                    },
                );
                FrameReply::Nothing
            },
        }
    }

    /// Drops the captures for a frame that is gone.
    pub fn frame_destroyed(&mut self, frame: u64)
        ensures
            final(self).pending@ == old(self).pending@.filter(other_frame(frame)),
    {
        let mut kept: Vec<PendingCapture> = Vec::new();
        let mut i: usize = 0;
        let ghost all = self.pending@;
        proof {
            reveal(Seq::filter);
            assert(all.take(0).filter(other_frame(frame)) =~= Seq::<PendingCapture>::empty());
        }
        while i < self.pending.len()
            invariant
                i <= all.len(),
                self.pending@ == all,
                kept@ == all.take(i as int).filter(other_frame(frame)),
            decreases all.len() - i,
        {
            let c: PendingCapture = self.pending[i];
            let ghost next = all.take(i + 1);
            proof {
                reveal(Seq::filter);
                assert(next.drop_last() =~= all.take(i as int));
                assert(next.last() == c);
            }
            if c.frame != frame {
                kept.push(c);
            }
            i = i + 1;
        }
        assert(all.take(i as int) =~= all);
        self.pending = kept;
    }

    /// Takes out the captures that are due, in the order they were asked for.
    /// The others keep waiting. `damage` is what the last frame changed on the
    /// output; none, or an empty list, is no change.
    pub fn service_pending_captures(&mut self, output: u64, damage: Option<&[Rect]>) -> (ready: Vec<
        PendingCapture,
    >)
        ensures
            ready@ == old(self).pending@.filter(due(output, capture::has_changed(damage))),
            final(self).pending@ == old(self).pending@.filter(
                not_due(output, capture::has_changed(damage)),
            ),
    {
        let changed: bool = match damage {
            Some(rects) => rects.len() > 0,
            None => false,
        };
        let mut ready: Vec<PendingCapture> = Vec::new();
        let mut rest: Vec<PendingCapture> = Vec::new();
        let mut i: usize = 0;
        let ghost all = self.pending@;
        proof {
            reveal(Seq::filter);
            assert(all.take(0).filter(due(output, changed)) =~= Seq::<PendingCapture>::empty());
            assert(all.take(0).filter(not_due(output, changed))
                =~= Seq::<PendingCapture>::empty());
        }
        while i < self.pending.len()
            invariant
                i <= all.len(),
                self.pending@ == all,
                ready@ == all.take(i as int).filter(due(output, changed)),
                rest@ == all.take(i as int).filter(not_due(output, changed)),
            decreases all.len() - i,
        {
            let c: PendingCapture = self.pending[i];
            let ghost next = all.take(i + 1);
            proof {
                reveal(Seq::filter);
                assert(next.drop_last() =~= all.take(i as int));
                assert(next.last() == c);
            }
            let here: bool = match c.source {
                CaptureSource::Output(o) => o == output,
                CaptureSource::Toplevel(_) => true,
            };
            if here && (!c.wants_damage || changed) {
                ready.push(c);
            } else {
                rest.push(c);
            }
            i = i + 1;
        }
        assert(all.take(i as int) =~= all);
        self.pending = rest;
        ready
    }
}

/// What a capture of a session reports as changed: the changes of the output
/// for a capture that waited for them, the whole buffer otherwise. Where a
/// window is on the screen says nothing about its own buffer, so that a window
/// is always reported as a whole.
pub fn reported_damage(c: PendingCapture, size: Size, damage: &[Rect]) -> (r: Vec<Rect>)
    ensures
        r@ == changes_of(c, size, damage@),
{
    let all = Rect { x: 0, y: 0, w: size.w, h: size.h };
    if c.wants_damage {
        if let CaptureSource::Output(_) = c.source {
            return capture::damage_in(all, damage);
        }
    }
    let mut r: Vec<Rect> = Vec::new();
    r.push(all);
    assert(r@ =~= seq![capture::whole(size)]);
    r
}

/// Size of the image that is made for a capture: that of the output's mode, or
/// of the window. None when the output is off, or the window is gone or empty.
pub fn capture_size(
    source: CaptureSource,
    mode: Option<Size>,
    window_alive: bool,
    window_size: Size,
) -> (size: Option<Size>)
    ensures
        size == (match source {
            CaptureSource::Output(_) => mode,
            CaptureSource::Toplevel(_) => if window_alive && window_size.w > 0 && window_size.h
                > 0 {
                Some(window_size)
            } else {
                None
            },
        }),
{
    match source {
        CaptureSource::Output(_) => mode,
        CaptureSource::Toplevel(_) => if window_alive && window_size.w > 0 && window_size.h > 0 {
            Some(window_size)
        } else {
            None
        },
    }
}

/// What a client is told about a capture.
#[derive(Debug, Clone, Copy, PartialEq, Eq, Structural)]
pub enum SessionEvent {
    /// The image is not turned.
    Transform,
    /// A part of the image changed.
    Damage { rect: Rect },
    /// The time of the image's making: seconds in two halves, then nanoseconds.
    PresentationTime { high: u32, low: u32, nanos: u32 },
    /// The image is there.
    Ready,
    Failed,
}

/// The rectangles as events.
pub open spec fn damage_events(rects: Seq<Rect>) -> Seq<SessionEvent> {
    rects.map_values(|rect: Rect| SessionEvent::Damage { rect })
}

/// What a capture of this size reports as changed.
pub open spec fn changes_of(c: PendingCapture, size: Size, damage: Seq<Rect>) -> Seq<Rect> {
    if c.wants_damage && c.source is Output {
        capture::local_damages(capture::whole(size), damage, damage.len() as int)
    } else {
        seq![capture::whole(size)]
    }
}

/// What a client is told about a capture that was made at `secs` and `nanos`.
pub open spec fn capture_events(
    c: PendingCapture,
    alive: bool,
    size: Option<Size>,
    copied: bool,
    damage: Seq<Rect>,
    secs: u64,
    nanos: u32,
) -> Seq<SessionEvent> {
    if !alive {
        Seq::empty()
    } else if size is None || !copied {
        seq![SessionEvent::Failed]
    } else {
        seq![SessionEvent::Transform] + damage_events(changes_of(c, size->0, damage)) + seq![
            SessionEvent::PresentationTime {
                high: (secs / 0x1_0000_0000) as u32,
                low: (secs % 0x1_0000_0000) as u32,
                nanos,
            },
            SessionEvent::Ready,
        ]
    }
}

/// Answers a capture: `size` is that of its image, `copied` tells whether the
/// image was handed over, `damage` what changed on the output. A client whose
/// frame is gone is told nothing.
pub fn capture_one(
    c: PendingCapture,
    alive: bool,
    size: Option<Size>,
    copied: Result<(), CopyError>,
    damage: &[Rect],
    secs: u64,
    nanos: u32,
) -> (events: Vec<SessionEvent>)
    ensures
        events@ == capture_events(c, alive, size, copied is Ok, damage@, secs, nanos),
{
    let mut events: Vec<SessionEvent> = Vec::new();
    if !alive {
        return events;
    }
    let size: Size = match (size, copied) {
        (Some(size), Ok(())) => size,
        _ => {
            events.push(SessionEvent::Failed);
            assert(events@ =~= seq![SessionEvent::Failed]);
            return events;
        },
    };
    events.push(SessionEvent::Transform);
    let changed: Vec<Rect> = reported_damage(c, size, damage);
    let mut i: usize = 0;
    assert(events@ =~= seq![SessionEvent::Transform] + damage_events(changed@.take(0)));
    while i < changed.len()
        invariant
            i <= changed@.len(),
            events@ == seq![SessionEvent::Transform] + damage_events(changed@.take(i as int)),
        decreases changed@.len() - i,
    {
        events.push(SessionEvent::Damage { rect: changed[i] });
        i = i + 1;
        assert(events@ =~= seq![SessionEvent::Transform] + damage_events(changed@.take(i as int)));
    }
    assert(changed@.take(i as int) =~= changed@);
    let (high, low) = capture::split_seconds(secs);
    events.push(SessionEvent::PresentationTime { high, low, nanos });
    events.push(SessionEvent::Ready);
    assert(events@ =~= capture_events(c, alive, Some(size), true, damage@, secs, nanos));
    events
}

/// A capture whose frame is still there is answered exactly once, at the end of
/// what is told, and a window that is captured is reported as changed as a
/// whole.
pub proof fn captures_are_answered_once(
    c: PendingCapture,
    size: Option<Size>,
    copied: bool,
    damage: Seq<Rect>,
    secs: u64,
    nanos: u32,
)
    ensures
        ({
            let events = capture_events(c, true, size, copied, damage, secs, nanos);
            &&& events.len() > 0
            &&& events.last() is Ready <==> size is Some && copied
            &&& events.last() is Failed <==> size is None || !copied
            &&& forall|i: int|
                0 <= i < events.len() - 1 ==> !((#[trigger] events[i]) is Ready) && !(events[i] is Failed)
            &&& size is Some && copied && c.source is Toplevel ==> events[1]
                == (SessionEvent::Damage { rect: capture::whole(size->0) })
        }),
{
}

/// A frame is captured at most once: after a capture has begun, every further
/// request is answered with the error, and none of them changes the frame or
/// starts another capture.
pub proof fn frames_are_captured_once(frame: FrameData, link: SessionLink, later: SessionLink, request: FrameRequest)
    requires
        starts_capture(frame, link, FrameRequest::Capture),
    ensures
        ({
            let after = frame_after(frame, link, FrameRequest::Capture);
            &&& frame_reply(after, later, request) == FrameReply::AlreadyCaptured
            &&& frame_after(after, later, request) == after
            &&& !starts_capture(after, later, request)
        }),
{
}

/// What a client is told of a request on a frame, and when: a frame that was
/// captured takes no further request; a capture needs a buffer, and a session
/// that is there and has something to capture; a changed rectangle has to be one
/// of a buffer. Everything else is accepted in silence.
pub proof fn requests_are_refused_for_a_reason(
    frame: FrameData,
    link: SessionLink,
    request: FrameRequest,
)
    ensures
        ({
            let reply = frame_reply(frame, link, request);
            let open = !frame.captured;
            let ready = open && request is Capture && frame.buffer is Some;
            &&& reply is AlreadyCaptured <==> frame.captured
            &&& reply is NoBuffer <==> open && request is Capture && frame.buffer is None
            &&& reply is InvalidDamage <==> (open && request is DamageBuffer && (request->rect.x < 0
                || request->rect.y < 0 || request->rect.w <= 0 || request->rect.h <= 0))
            &&& reply is Failed <==> ready && link is Unknown
            &&& reply is Stopped <==> ready && (link is Gone || (link matches SessionLink::Live(s)
                && s.source is None))
            &&& starts_capture(frame, link, request) <==> (ready && link is Live
                && link->Live_0.source is Some)
            &&& starts_capture(frame, link, request) ==> reply is Nothing
        }),
{
}

/// A frame holds the buffer that was attached last, until a capture takes it;
/// it counts as captured once a capture was asked for in a session that is
/// there. A request that is refused for want of a buffer changes nothing.
pub proof fn frames_hold_the_latest_buffer(
    frame: FrameData,
    link: SessionLink,
    first: u64,
    second: u64,
    rect: Rect,
)
    requires
        !frame.captured,
    ensures
        ({
            let attached = frame_after(frame, link, FrameRequest::AttachBuffer { buffer: first });
            let again = frame_after(attached, link, FrameRequest::AttachBuffer { buffer: second });
            let done = frame_after(again, link, FrameRequest::Capture);
            &&& attached.buffer == Some(first)
            &&& again.buffer == Some(second)
            &&& !again.captured
            &&& done.buffer is None
            &&& done.captured <==> link is Live
            &&& frame_after(frame, link, FrameRequest::DamageBuffer { rect }) == frame
            &&& frame.buffer is None ==> frame_after(frame, link, FrameRequest::Capture) == frame
        }),
{
}

/// A capture is handed out when an output that it has to do with has drawn a
/// frame: a window has to do with every output, an output with itself alone. One
/// that waits for changes is handed out when there were some.
pub proof fn captures_wait_for_their_source_and_changes(
    pending: Seq<PendingCapture>,
    output: u64,
    changed: bool,
    c: PendingCapture,
)
    requires
        pending.contains(c),
    ensures
        ({
            let out = pending.filter(due(output, changed)).contains(c);
            let kept = pending.filter(not_due(output, changed)).contains(c);
            let drawn = c.source is Toplevel || c.source == CaptureSource::Output(output);
            &&& out == !kept
            &&& !drawn ==> kept
            &&& drawn && !c.wants_damage ==> out
            &&& drawn && c.wants_damage ==> out == changed
        }),
{
    let i = choose|i: int| 0 <= i < pending.len() && pending[i] == c;
    let yes = due(output, changed);
    let no = not_due(output, changed);
    if yes(c) {
        pending.lemma_filter_contains(yes, i);
    } else {
        pending.lemma_filter_contains(no, i);
    }
    if pending.filter(yes).contains(c) {
        let k = choose|k: int|
            0 <= k < pending.filter(yes).len() && pending.filter(yes)[k] == c;
        pending.lemma_filter_pred(yes, k);
    }
    if pending.filter(no).contains(c) {
        let k = choose|k: int| 0 <= k < pending.filter(no).len() && pending.filter(no)[k] == c;
        pending.lemma_filter_pred(no, k);
    }
}

/// The time that a client is told is the time of the image, right before the
/// image is said to be there. A capture that did not wait for changes, and one
/// of a window, is reported as changed as a whole; one of an output that did
/// wait, with the changes of the output.
pub proof fn clients_are_told_time_and_changes(
    c: PendingCapture,
    size: Size,
    damage: Seq<Rect>,
    secs: u64,
    nanos: u32,
)
    ensures
        ({
            let events = capture_events(c, true, Some(size), true, damage, secs, nanos);
            let n = events.len() as int;
            let all = Rect { x: 0, y: 0, w: size.w, h: size.h };
            let changed = capture::local_damages(all, damage, damage.len() as int);
            &&& n >= 3
            &&& events[0] is Transform
            &&& events[n - 2] matches SessionEvent::PresentationTime { high, low, nanos: m } && high
                * 0x1_0000_0000 + low == secs && m == nanos
            &&& c.wants_damage && c.source is Output ==> n == changed.len() + 3 && forall|i: int|
                0 <= i < changed.len() ==> events[i + 1] == (SessionEvent::Damage {
                    rect: #[trigger] changed[i],
                })
            &&& !(c.wants_damage && c.source is Output) ==> n == 4 && events[1] == (
            SessionEvent::Damage { rect: all })
        }),
        capture_events(c, false, Some(size), true, damage, secs, nanos).len() == 0,
{
    let events = capture_events(c, true, Some(size), true, damage, secs, nanos);
    let changed = changes_of(c, size, damage);
    assert forall|i: int| 0 <= i < changed.len() implies events[i + 1] == (SessionEvent::Damage {
        rect: #[trigger] changed[i],
    }) by {
        assert(events[i + 1] == damage_events(changed)[i]);
    }
}

/// A frame that is gone does not wait for a capture any more; the others do.
pub proof fn frames_that_are_gone_do_not_wait(
    pending: Seq<PendingCapture>,
    frame: u64,
    c: PendingCapture,
)
    ensures
        pending.filter(other_frame(frame)).contains(c) <==> pending.contains(c) && c.frame != frame,
{
    let keep = other_frame(frame);
    let left = pending.filter(keep);
    if pending.contains(c) && c.frame != frame {
        let k = choose|k: int| 0 <= k < pending.len() && pending[k] == c;
        pending.lemma_filter_contains(keep, k);
    }
    if left.contains(c) {
        let k = choose|k: int| 0 <= k < left.len() && left[k] == c;
        pending.lemma_filter_pred(keep, k);
        pending.lemma_filter_contains_rev(keep, c);
    }
}

} // verus!
