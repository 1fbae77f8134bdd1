//! Touchpad swipes.

use crate::binary64::Binary64;
use crate::text;
use vstd::prelude::*;

verus! {

/// Direction of a swipe.
#[derive(Debug, Clone, Copy, PartialEq, Eq, Structural)]
pub enum GestureDirection {
    Left,
    Right,
    Up,
    Down,
}

/// The direction that a name stands for, without regard to case.
pub open spec fn direction_named(name: Seq<char>) -> Option<GestureDirection> {
    let lower = text::lower_all(name);
    if lower == "left"@ {
        Some(GestureDirection::Left)
    } else if lower == "right"@ {
        Some(GestureDirection::Right)
    } else if lower == "up"@ {
        Some(GestureDirection::Up)
    } else if lower == "down"@ {
        Some(GestureDirection::Down)
    } else {
        None
    }
}

/// The direction of a movement: along its dominant axis, the horizontal one
/// when both are equal.
pub open spec fn direction_of(dx: Binary64, dy: Binary64) -> GestureDirection {
    if !dx.spec_is_nan() && !dy.spec_is_nan() && dx.magnitude() >= dy.magnitude() {
        if dx.rank() >= 0 {
            GestureDirection::Right
        } else {
            GestureDirection::Left
        }
    } else if !dy.spec_is_nan() && dy.rank() >= 0 {
        GestureDirection::Down
    } else {
        GestureDirection::Up
    }
}

impl GestureDirection {
    /// Reads the name of a direction.
    pub fn parse(spec: &str) -> (r: Option<GestureDirection>)
        ensures
            r == direction_named(spec@),
    {
        let chars: Vec<char> = text::chars_of(spec);
        let lower: Vec<char> = text::to_lower(chars.as_slice());
        let name: &[char] = lower.as_slice();
        if text::same_text(name, "left") {
            Some(GestureDirection::Left)
        } else if text::same_text(name, "right") {
            Some(GestureDirection::Right)
        } else if text::same_text(name, "up") {
            Some(GestureDirection::Up)
        } else if text::same_text(name, "down") {
            Some(GestureDirection::Down)
        } else {
            None
        }
    }

    /// The direction of a finished movement.
    pub fn classify(dx: Binary64, dy: Binary64) -> (r: GestureDirection)
        ensures
            r == direction_of(dx, dy),
    {
        let across: u64 = dx.bits % crate::binary64::SIGN_BIT;
        let along: u64 = dy.bits % crate::binary64::SIGN_BIT;
        if !dx.is_nan() && !dy.is_nan() && across >= along {
            if dx.bits < crate::binary64::SIGN_BIT || across == 0 {
                GestureDirection::Right
            } else {
                GestureDirection::Left
            }
        } else if !dy.is_nan() && (dy.bits < crate::binary64::SIGN_BIT || along == 0) {
            GestureDirection::Down
        } else {
            GestureDirection::Up
        }
    }
}

/// A gesture binding. What it does is known by its position in the list.
#[derive(Debug, Clone, Copy, PartialEq, Eq, Structural)]
pub struct Gesture {
    /// Number of fingers; zero for any.
    pub fingers: u32,
    pub direction: GestureDirection,
}

impl Gesture {
    /// Whether the gesture is one for that many fingers.
    pub open spec fn spec_matches_fingers(self, fingers: u32) -> bool {
        self.fingers == 0 || self.fingers == fingers
    }

    /// Whether the gesture is the one made.
    pub open spec fn spec_matches(self, fingers: u32, direction: GestureDirection) -> bool {
        self.spec_matches_fingers(fingers) && self.direction == direction
    }

    /// Whether the gesture is one for that many fingers.
    pub fn matches_fingers(&self, fingers: u32) -> (r: bool)
        ensures
            r == self.spec_matches_fingers(fingers),
    {
        self.fingers == 0 || self.fingers == fingers
    }

    /// Whether the gesture is the one made.
    pub fn matches(&self, fingers: u32, direction: GestureDirection) -> (r: bool)
        ensures
            r == self.spec_matches(fingers, direction),
    {
        self.matches_fingers(fingers) && self.direction == direction
    }
}

/// Whether some gesture is one for that many fingers.
pub open spec fn some_for_fingers(gestures: Seq<Gesture>, fingers: u32) -> bool {
    exists|i: int| 0 <= i < gestures.len() && (#[trigger] gestures[i]).spec_matches_fingers(fingers)
}

/// Whether some gesture is one for that many fingers.
pub fn has_gesture_for_fingers(gestures: &[Gesture], fingers: u32) -> (r: bool)
    ensures
        r == some_for_fingers(gestures@, fingers),
{
    let mut i: usize = 0;
    while i < gestures.len()
        invariant
            i <= gestures@.len(),
            forall|j: int| 0 <= j < i ==> !(#[trigger] gestures@[j]).spec_matches_fingers(fingers),
        decreases gestures@.len() - i,
    {
        if gestures[i].matches_fingers(fingers) {
            return true;
        }
        i = i + 1;
    }
    false
}

/// Whether the first gesture that is the one made is at `i`.
pub open spec fn first_gesture(
    gestures: Seq<Gesture>,
    fingers: u32,
    direction: GestureDirection,
    i: int,
) -> bool {
    &&& 0 <= i < gestures.len()
    &&& gestures[i].spec_matches(fingers, direction)
    &&& forall|j: int| 0 <= j < i ==> !(#[trigger] gestures[j]).spec_matches(fingers, direction)
}

/// The first gesture that is the one made.
pub fn find_gesture(gestures: &[Gesture], fingers: u32, direction: GestureDirection) -> (r: Option<
    usize,
>)
    ensures
        r is Some ==> first_gesture(gestures@, fingers, direction, r->0 as int),
        r is None ==> forall|j: int|
            0 <= j < gestures@.len() ==> !(#[trigger] gestures@[j]).spec_matches(
                fingers,
                direction,
            ),
{
    let mut i: usize = 0;
    while i < gestures.len()
        invariant
            i <= gestures@.len(),
            forall|j: int|
                0 <= j < i ==> !(#[trigger] gestures@[j]).spec_matches(fingers, direction),
        decreases gestures@.len() - i,
    {
        if gestures[i].matches(fingers, direction) {
            return Some(i);
        }
        i = i + 1;
    }
    None
}

/// A swipe under way, from its first event to its last.
#[derive(Debug, Clone, Copy, PartialEq, Eq, Structural)]
pub struct PendingGesture {
    pub fingers: u32,
    /// How far the fingers have moved.
    pub dx: Binary64,
    pub dy: Binary64,
    /// The compositor keeps the whole sequence from the focused client.
    pub intercepted: bool,
}

/// What becomes of an event of a swipe.
#[derive(Debug, Clone, Copy, PartialEq, Eq, Structural)]
pub enum SwipeStep {
    /// The focused client gets it.
    Forward,
    /// Nobody gets it.
    Swallow,
    /// Nobody gets it, and the gesture at this position fires.
    Fire(usize),
}

/// Starts a swipe. Whether it is kept from the client is decided here, by the
/// number of fingers alone, since no direction is known yet.
pub fn swipe_begin(gestures: &[Gesture], fingers: u32) -> (r: (PendingGesture, SwipeStep))
    ensures
        r.0.fingers == fingers,
        r.0.dx.bits == 0,
        r.0.dy.bits == 0,
        r.0.intercepted == some_for_fingers(gestures@, fingers),
        r.1 == (if r.0.intercepted {
            SwipeStep::Swallow
        } else {
            SwipeStep::Forward
        }),
{
    let intercepted: bool = has_gesture_for_fingers(gestures, fingers);
    (
        PendingGesture {
            fingers,
            dx: Binary64 { bits: 0 },
            dy: Binary64 { bits: 0 },
            intercepted,
        },
        if intercepted {
            SwipeStep::Swallow
        } else {
            SwipeStep::Forward
        },
    )
}

impl PendingGesture {
    /// What becomes of an update, and the swipe after it. `dx` and `dy` are the
    /// sums of the movements so far.
    pub fn update(self, dx: Binary64, dy: Binary64) -> (r: (PendingGesture, SwipeStep))
        ensures
            r.0 == (if self.intercepted {
                PendingGesture { dx, dy, ..self }
            } else {
                self
            }),
            r.1 == (if self.intercepted {
                SwipeStep::Swallow
            } else {
                SwipeStep::Forward
            }),
    {
        if self.intercepted {
            (PendingGesture { dx, dy, ..self }, SwipeStep::Swallow)
        } else {
            (self, SwipeStep::Forward)
        }
    }

    /// What becomes of the end of a swipe. A gesture fires when the sequence
    /// was kept from the client, was not cancelled, and the first one for its
    /// fingers and direction is found.
    pub fn end(self, gestures: &[Gesture], cancelled: bool) -> (step: SwipeStep)
        ensures
            !self.intercepted ==> step == SwipeStep::Forward,
            self.intercepted && cancelled ==> step == SwipeStep::Swallow,
            self.intercepted ==> step != SwipeStep::Forward,
            self.intercepted && !cancelled ==> match step {
                SwipeStep::Fire(i) => first_gesture(
                    gestures@,
                    self.fingers,
                    direction_of(self.dx, self.dy),
                    i as int,
                ),
                _ => forall|j: int|
                    0 <= j < gestures@.len() ==> !(#[trigger] gestures@[j]).spec_matches(
                        self.fingers,
                        direction_of(self.dx, self.dy),
                    ),
            },
    {
        if !self.intercepted {
            return SwipeStep::Forward;
        }
        if cancelled {
            return SwipeStep::Swallow;
        }
        let direction: GestureDirection = GestureDirection::classify(self.dx, self.dy);
        match find_gesture(gestures, self.fingers, direction) {
            Some(i) => SwipeStep::Fire(i),
            None => SwipeStep::Swallow,
        }
    }
}

/// A swipe goes along the axis on which it is longer, sideways when both are
/// equal; to the right or down when the movement there is not negative.
pub proof fn swipes_go_along_the_longer_axis(dx: Binary64, dy: Binary64)
    requires
        !dx.spec_is_nan(),
        !dy.spec_is_nan(),
    ensures
        ({
            let direction = direction_of(dx, dy);
            let sideways = direction == GestureDirection::Left || direction
                == GestureDirection::Right;
            let size_x = Binary64 { bits: dx.magnitude() as u64 };
            let size_y = Binary64 { bits: dy.magnitude() as u64 };
            let zero = Binary64 { bits: 0 };
            &&& size_y.spec_lt(size_x) ==> sideways
            &&& size_x.spec_lt(size_y) ==> !sideways
            &&& dx.magnitude() == dy.magnitude() ==> sideways
            &&& sideways ==> (direction == GestureDirection::Left <==> dx.spec_lt(zero))
            &&& !sideways ==> (direction == GestureDirection::Up <==> dy.spec_lt(zero))
        }),
{
}

/// The mirror image of a swipe goes the other way.
pub proof fn mirrored_swipes_go_the_other_way(
    dx: Binary64,
    mirrored_dx: Binary64,
    dy: Binary64,
    mirrored_dy: Binary64,
)
    requires
        !dx.spec_is_nan(),
        !dy.spec_is_nan(),
        dx.magnitude() > 0,
        dy.magnitude() > 0,
        mirrored_dx.magnitude() == dx.magnitude() && mirrored_dx.negative() != dx.negative(),
        mirrored_dy.magnitude() == dy.magnitude() && mirrored_dy.negative() != dy.negative(),
    ensures
        direction_of(mirrored_dx, mirrored_dy) == (match direction_of(dx, dy) {
            GestureDirection::Left => GestureDirection::Right,
            GestureDirection::Right => GestureDirection::Left,
            GestureDirection::Up => GestureDirection::Down,
            GestureDirection::Down => GestureDirection::Up,
        }),
{
}

/// A gesture without a number of fingers is one for any number; one with a
/// number is for that number alone. It is never the one made in another
/// direction.
pub proof fn gestures_match_their_fingers_and_direction(
    gesture: Gesture,
    fingers: u32,
    direction: GestureDirection,
)
    ensures
        gesture.fingers == 0 ==> gesture.spec_matches_fingers(fingers),
        gesture.fingers != 0 ==> (gesture.spec_matches_fingers(fingers) <==> fingers
            == gesture.fingers),
        gesture.spec_matches(fingers, direction) ==> direction == gesture.direction,
        gesture.spec_matches_fingers(fingers) ==> gesture.spec_matches(fingers, gesture.direction),
{
}

/// A gesture can only fire in a sequence that was kept from the client from its
/// beginning.
pub proof fn firing_gestures_are_for_the_fingers(
    gestures: Seq<Gesture>,
    fingers: u32,
    direction: GestureDirection,
    i: int,
)
    requires
        first_gesture(gestures, fingers, direction, i),
    ensures
        some_for_fingers(gestures, fingers),
        gestures[i].direction == direction,
        gestures[i].fingers == 0 || gestures[i].fingers == fingers,
{
}

/// A name stands for the direction that it names, in whatever case, and for none
/// otherwise.
pub proof fn directions_have_their_names(name: Seq<char>)
    ensures
        direction_named(name) == Some(GestureDirection::Left) <==> text::lower_all(name)
            == "left"@,
        direction_named(name) == Some(GestureDirection::Right) <==> text::lower_all(name)
            == "right"@,
        direction_named(name) == Some(GestureDirection::Up) <==> text::lower_all(name) == "up"@,
        direction_named(name) == Some(GestureDirection::Down) <==> text::lower_all(name)
            == "down"@,
{
    reveal_strlit("left");
    reveal_strlit("right");
    reveal_strlit("up");
    reveal_strlit("down");
    assert("left"@.len() == 4 && "left"@[0] == 'l');
    assert("right"@.len() == 5);
    assert("up"@.len() == 2);
    assert("down"@.len() == 4 && "down"@[0] == 'd');
}

} // verus!
