//! Reuse of drawn content from one frame to the next.
//!
//! A renderer repairs only what changed since the last frame. It tells content
//! apart by an identity that lasts and a counter that moves when the content
//! changes.

use crate::color::Rgb;
use crate::geometry::{Rect, Size};
use vstd::prelude::*;

verus! {

/// A solid rectangle that was drawn.
#[derive(Debug, Clone, Copy, PartialEq, Eq, Structural)]
pub struct CachedRect {
    pub size: Size,
    pub color: Rgb,
}

/// What has to be done with a buffer before it is drawn.
#[derive(Debug, Clone, Copy, PartialEq, Eq, Structural)]
pub enum CacheStep {
    /// It holds the right content already.
    Keep,
    /// Its content changes.
    Update,
    /// It does not exist yet.
    Create,
}

/// Buffers for the solid rectangles of a frame, in drawing order.
#[derive(Debug)]
pub struct RectCache {
    pub buffers: Vec<CachedRect>,
    /// How many of them the current frame has used.
    pub used: usize,
}

impl Default for RectCache {
    fn default() -> (c: RectCache)
        ensures
            c.wf(),
            c.buffers@.len() == 0,
            c.used == 0,
    {
        RectCache { buffers: Vec::new(), used: 0 }
    }
}

/// What the `i`-th rectangle of a frame needs, given the buffers of the frame
/// before.
pub open spec fn cache_step(buffers: Seq<CachedRect>, i: int, wanted: CachedRect) -> CacheStep {
    if i >= buffers.len() {
        CacheStep::Create
    } else if buffers[i] == wanted {
        CacheStep::Keep
    } else {
        CacheStep::Update
    }
}

impl RectCache {
    /// No more buffers are in use than there are.
    pub open spec fn wf(self) -> bool {
        self.used <= self.buffers@.len()
    }

    /// Takes the next buffer for a rectangle of the given size and color.
    pub fn next(&mut self, size: Size, color: Rgb) -> (r: (usize, CacheStep))
        requires
            old(self).wf(),
        ensures
            final(self).wf(),
            r.0 == old(self).used,
            r.1 == cache_step(old(self).buffers@, old(self).used as int, CachedRect { size, color }),
            final(self).used == old(self).used + 1,
            final(self).buffers@ == (if old(self).used < old(self).buffers@.len() {
                old(self).buffers@.update(old(self).used as int, CachedRect { size, color })
            } else {
                old(self).buffers@.push(CachedRect { size, color })
            }),
    {
        let wanted = CachedRect { size, color };
        let at: usize = self.used;
        let step: CacheStep = if at < self.buffers.len() {
            let same: bool = self.buffers[at] == wanted;
            self.buffers.set(at, wanted);
            if same {
                CacheStep::Keep
            } else {
                CacheStep::Update
            }
        } else {
            self.buffers.push(wanted);
            CacheStep::Create
        };
        assert(at < self.buffers@.len());
        let n: usize = self.buffers.len();
        self.used = at + 1;
        (at, step)
    }

    /// Ends a frame: buffers that it did not use go.
    pub fn finish_frame(&mut self)
        requires
            old(self).wf(),
        ensures
            final(self).wf(),
            final(self).used == 0,
            final(self).buffers@ == old(self).buffers@.take(old(self).used as int),
    {
        self.buffers.truncate(self.used);
        assert(self.buffers@ =~= old(self).buffers@.take(old(self).used as int));
        self.used = 0;
    }
}

/// The buffers once the first `n` rectangles of a frame have been drawn.
pub open spec fn buffers_after(buffers: Seq<CachedRect>, frame: Seq<CachedRect>, n: int) -> Seq<
    CachedRect,
>
    decreases n,
{
    if n <= 0 {
        buffers
    } else {
        let before = buffers_after(buffers, frame, n - 1);
        if n - 1 < before.len() {
            before.update(n - 1, frame[n - 1])
        } else {
            before.push(frame[n - 1])
        }
    }
}

/// A frame that draws the same rectangles as the one before keeps every buffer
/// as it is, and after a frame the buffers are exactly what it drew.
pub proof fn unchanged_frame_keeps_every_buffer(
    buffers: Seq<CachedRect>,
    frame: Seq<CachedRect>,
    n: int,
)
    requires
        0 <= n <= frame.len(),
    ensures
        buffers_after(buffers, frame, n).len() >= n,
        buffers_after(buffers, frame, n).take(n) == frame.take(n),
        buffers_after(frame, frame, n) == frame,
        n < frame.len() ==> cache_step(buffers_after(frame, frame, n), n, frame[n])
            == CacheStep::Keep,
    decreases n,
{
    if n > 0 {
        unchanged_frame_keeps_every_buffer(buffers, frame, n - 1);
        let before = buffers_after(buffers, frame, n - 1);
        let after = buffers_after(buffers, frame, n);
        assert forall|i: int| 0 <= i < n implies after[i] == frame[i] by {
            if i < n - 1 {
                assert(before.take(n - 1)[i] == frame.take(n - 1)[i]);
            }
        }
        assert(after.take(n) =~= frame.take(n));
        assert(frame.update(n - 1, frame[n - 1]) =~= frame);
    } else {
        assert(buffers_after(buffers, frame, n).take(n) =~= frame.take(n));
    }
}

/// Rectangles of one color that are drawn as a single piece of content.
#[derive(Debug)]
pub struct GlyphBatch {
    /// Identity of the content; absent until something was drawn.
    pub id: Option<u64>,
    pub rects: Vec<Rect>,
    pub color: Rgb,
    /// Moves whenever the rectangles or the color change.
    pub commit: usize,
}

/// What a batch draws.
#[derive(Debug)]
pub struct GlyphBatchElement {
    pub id: u64,
    /// The smallest rectangle around all of them.
    pub geometry: Rect,
    pub rects: Vec<Rect>,
    pub color: Rgb,
    pub commit: usize,
}

impl Default for GlyphBatch {
    fn default() -> (b: GlyphBatch)
        ensures
            b.id is None,
            b.rects@.len() == 0,
            b.color == (Rgb { r: 0, g: 0, b: 0 }),
            b.commit == 0,
    {
        GlyphBatch { id: None, rects: Vec::new(), color: Rgb { r: 0, g: 0, b: 0 }, commit: 0 }
    }
}

/// The smallest rectangle around the given ones.
pub open spec fn bounding(rects: Seq<Rect>) -> Rect
    decreases rects.len(),
{
    if rects.len() <= 1 {
        rects[0]
    } else {
        bounding(rects.drop_last()).spec_merge(rects.last())
    }
}

/// Finding the rectangle around the given ones stays within `i32`.
pub open spec fn can_bound(rects: Seq<Rect>) -> bool {
    forall|k: int|
        1 <= k < rects.len() ==> (#[trigger] bounding(rects.take(k))).can_merge(rects[k])
}

fn same_rects(a: &Vec<Rect>, b: &Vec<Rect>) -> (r: bool)
    ensures
        r == (a@ == b@),
{
    if a.len() != b.len() {
        return false;
    }
    let mut i: usize = 0;
    while i < a.len()
        invariant
            i <= a@.len(),
            a@.len() == b@.len(),
            forall|k: int| 0 <= k < i ==> a@[k] == b@[k],
        decreases a@.len() - i,
    {
        if a[i] != b[i] {
            return false;
        }
        i = i + 1;
    }
    assert(a@ =~= b@);
    true
}

fn copy_rects(rects: &Vec<Rect>) -> (r: Vec<Rect>)
    ensures
        r@ == rects@,
{
    let mut r: Vec<Rect> = Vec::new();
    let mut i: usize = 0;
    while i < rects.len()
        invariant
            i <= rects@.len(),
            r@ =~= rects@.take(i as int),
        decreases rects@.len() - i,
    {
        r.push(rects[i]);
        i = i + 1;
    }
    assert(rects@.take(i as int) =~= rects@);
    r
}

/// What drawing the given rectangles makes of a batch: whether it draws
/// anything, with what, and the batch afterwards.
pub open spec fn batch_step(
    before: GlyphBatch,
    rects: Seq<Rect>,
    color: Rgb,
    fresh: u64,
    after: GlyphBatch,
    drawn: Option<GlyphBatchElement>,
) -> bool {
    match drawn {
        None => rects.len() == 0 && after == before,
        Some(element) => {
            let changed = before.rects@ != rects || before.color != color;
            &&& rects.len() > 0
            &&& element.id == (match before.id {
                Some(id) => id,
                None => fresh,
            })
            &&& element.rects@ == rects
            &&& element.color == color
            &&& element.geometry == bounding(rects)
            &&& element.commit == (if !changed {
                before.commit as int
            } else if before.commit == usize::MAX {
                0
            } else {
                before.commit + 1
            })
            &&& after.id == Some(element.id)
            &&& after.rects@ == rects
            &&& after.color == color
            &&& after.commit == element.commit
        },
    }
}

impl GlyphBatch {
    /// Content for the given rectangles, nothing when there are none. The
    /// identity is `fresh` the first time and stays; the counter moves only
    /// when the rectangles or the color are not those of the last time.
    pub fn element(&mut self, rects: Vec<Rect>, color: Rgb, fresh: u64) -> (e: Option<
        GlyphBatchElement,
    >)
        requires
            can_bound(rects@),
        ensures
            batch_step(*old(self), rects@, color, fresh, *final(self), e),
    {
        if rects.len() == 0 {
            return None;
        }
        let id: u64 = match self.id {
            Some(id) => id,
            None => fresh,
        };
        self.id = Some(id);
        let mut geometry: Rect = rects[0];
        let mut i: usize = 1;
        assert(rects@.take(1).len() == 1);
        assert(bounding(rects@.take(1)) == rects@[0]);
        while i < rects.len()
            invariant
                1 <= i <= rects@.len(),
                can_bound(rects@),
                geometry == bounding(rects@.take(i as int)),
            decreases rects@.len() - i,
        {
            let ghost next = rects@.take(i + 1);
            assert(next.drop_last() =~= rects@.take(i as int));
            assert(next.last() == rects@[i as int]);
            geometry = geometry.merge(rects[i]);
            i = i + 1;
        }
        assert(rects@.take(i as int) =~= rects@);
        if !same_rects(&self.rects, &rects) || self.color != color {
            self.rects = rects;
            self.color = color;
            self.commit = if self.commit == usize::MAX { 0 } else { self.commit + 1 };
        }
        Some(
            GlyphBatchElement {
                id,
                geometry,
                rects: copy_rects(&self.rects),
                color: self.color,
                commit: self.commit,
            },
        )
    }
}

/// Of two pieces of content that a batch draws one after the other, also with
/// empty ones between them, both have the same identity, and the counter is the
/// same exactly when the rectangles and the color are. Each goes around its
/// rectangles.
pub proof fn unchanged_content_keeps_its_counter(
    start: GlyphBatch,
    first: (Seq<Rect>, Rgb, u64),
    middle: GlyphBatch,
    drawn: GlyphBatchElement,
    empty: (Rgb, u64),
    later: GlyphBatch,
    second: (Seq<Rect>, Rgb, u64),
    end: GlyphBatch,
    redrawn: GlyphBatchElement,
)
    requires
        batch_step(start, first.0, first.1, first.2, middle, Some(drawn)),
        batch_step(middle, Seq::empty(), empty.0, empty.1, later, None),
        batch_step(later, second.0, second.1, second.2, end, Some(redrawn)),
    ensures
        redrawn.id == drawn.id,
        redrawn.commit == drawn.commit <==> second.0 == first.0 && second.1 == first.1,
        drawn.geometry == bounding(first.0),
        redrawn.geometry == bounding(second.0),
{
}

/// The rectangle around a list contains every one of them, and lies inside every
/// rectangle that does.
pub proof fn bounding_rectangle_is_the_smallest(rects: Seq<Rect>, around: Rect, i: int)
    requires
        rects.len() > 0,
        can_bound(rects),
        forall|k: int| 0 <= k < rects.len() ==> (#[trigger] rects[k]).w >= 0 && rects[k].h >= 0,
        0 <= i < rects.len(),
    ensures
        bounding(rects).contains_rect(rects[i]),
        bounding(rects).w >= 0,
        bounding(rects).h >= 0,
        (forall|k: int| 0 <= k < rects.len() ==> around.contains_rect(#[trigger] rects[k]))
            ==> around.contains_rect(bounding(rects)),
    decreases rects.len(),
{
    if rects.len() > 1 {
        let rest = rects.drop_last();
        assert forall|k: int| 1 <= k < rest.len() implies (#[trigger] bounding(
            rest.take(k),
        )).can_merge(rest[k]) by {
            assert(rest.take(k) =~= rects.take(k));
            assert(bounding(rects.take(k)).can_merge(rects[k]));
        }
        assert forall|k: int| 0 <= k < rest.len() implies (#[trigger] rest[k]).w >= 0 && rest[k].h
            >= 0 by {
            assert(rest[k] == rects[k]);
        }
        let j = if i < rest.len() {
            i
        } else {
            0
        };
        bounding_rectangle_is_the_smallest(rest, around, j);
        if forall|k: int| 0 <= k < rects.len() ==> around.contains_rect(#[trigger] rects[k]) {
            assert forall|k: int| 0 <= k < rest.len() implies around.contains_rect(
                #[trigger] rest[k],
            ) by {
                assert(rest[k] == rects[k]);
            }
            assert(around.contains_rect(rects[rects.len() - 1]));
        }
        assert(rects.take(rects.len() - 1) =~= rest);
        assert(bounding(rects.take(rects.len() - 1)).can_merge(rects[rects.len() - 1]));
        assert(rects[rects.len() - 1].w >= 0);
        crate::geometry::merger_is_the_smallest_around_both(bounding(rest), rects.last(), around);
    } else {
        assert(around.contains_rect(rects[0]) ==> around.contains_rect(bounding(rects)));
    }
}

/// A buffer is created if and only if there is none yet, and kept if and only if
/// it holds just what is wanted: a different size or color changes it.
pub proof fn buffers_change_with_their_content(
    buffers: Seq<CachedRect>,
    i: int,
    wanted: CachedRect,
)
    requires
        0 <= i,
    ensures
        cache_step(buffers, i, wanted) == CacheStep::Create <==> i >= buffers.len(),
        i < buffers.len() ==> (cache_step(buffers, i, wanted) == CacheStep::Keep
            <==> buffers[i].size == wanted.size && buffers[i].color == wanted.color),
{
}

/// Drawing other content than before changes the counter, also past its largest
/// value, and drawing the same content does not.
pub proof fn other_content_changes_the_counter(
    before: GlyphBatch,
    rects: Seq<Rect>,
    color: Rgb,
    fresh: u64,
    after: GlyphBatch,
    drawn: GlyphBatchElement,
)
    requires
        batch_step(before, rects, color, fresh, after, Some(drawn)),
    ensures
        drawn.commit == before.commit <==> before.rects@ == rects && before.color == color,
        before.id matches Some(id) ==> drawn.id == id,
        before.id is None ==> drawn.id == fresh,
        drawn.rects@ == rects,
        drawn.color == color,
        rects.len() > 0,
{
}

/// The counter goes up by one with other content, and starts again at zero past
/// its largest value.
pub proof fn counter_goes_round(
    before: GlyphBatch,
    rects: Seq<Rect>,
    color: Rgb,
    fresh: u64,
    after: GlyphBatch,
    drawn: GlyphBatchElement,
)
    requires
        batch_step(before, rects, color, fresh, after, Some(drawn)),
        before.rects@ != rects || before.color != color,
    ensures
        before.commit < usize::MAX ==> drawn.commit - before.commit == 1,
        before.commit == usize::MAX ==> drawn.commit == 0,
{
}

} // verus!
