//! The snake: an ordered body of grid cells, head first, with a
//! pending-growth counter for segments queued to appear on future moves.
use crate::Direction;
use crate::Segment;
use vstd::prelude::*;

verus! {

/// No coordinate occurs twice in `body`.
pub open spec fn unique_segments_spec(body: Seq<Segment>) -> bool {
    forall|i: int, j: int| 0 <= i < j < body.len() ==> body[i] != body[j]
}

/// The two cells touch orthogonally or diagonally: Chebyshev distance at
/// most one.
pub open spec fn chebyshev_adjacent(a: Segment, b: Segment) -> bool {
    &&& -1 <= a.x - b.x <= 1
    &&& -1 <= a.y - b.y <= 1
}

/// Ordered body of the snake, head at index 0, tail at the end, plus the
/// number of segments still queued to be added by future moves.
#[derive(Debug, PartialEq)]
pub struct Snake {
    pub body: Vec<Segment>,
    pub segments_to_grow_by: usize,
}

impl Snake {
    /// The body is never empty.
    pub open spec fn wf(self) -> bool {
        self.body@.len() >= 1
    }

    /// Body length plus pending growth: the effective length, and the score.
    pub open spec fn effective_len(self) -> int {
        self.body@.len() + self.segments_to_grow_by
    }

    /// The body `body` advanced one step in direction `d`: the new head is
    /// pushed in front, and unless growth was pending the tail is dropped.
    pub open spec fn moved_body(body: Seq<Segment>, d: Direction, pending: nat) -> Seq<Segment> {
        if pending > 0 {
            body.insert(0, d.step_spec(body[0]))
        } else {
            body.insert(0, d.step_spec(body[0])).drop_last()
        }
    }

    /// Builds a snake from a non-empty ordered list of coordinates, with no
    /// growth pending.
    pub fn new(segments: &Vec<Segment>) -> (r: Snake)
        ensures
            r.body@ == segments@,
            r.segments_to_grow_by == 0,
    {
        let mut snake_segments: Vec<Segment> = Vec::new();
        let mut i: usize = 0;
        while i < segments.len()
            invariant
                i <= segments@.len(),
                snake_segments@ == segments@.take(i as int),
            decreases segments@.len() - i,
        {
            snake_segments.push(segments[i]);
            proof {
                assert(segments@.take(i + 1 as int) =~= segments@.take(i as int).push(
                    segments@[i as int],
                ));
            }
            i = i + 1;
        }
        proof {
            assert(segments@.take(segments@.len() as int) =~= segments@);
        }
        Snake { body: snake_segments, segments_to_grow_by: 0 }
    }

    /// Advances the snake one step in `direction`: the new head is exactly
    /// one step from the old head; a unit of pending growth is consumed if
    /// any was queued, otherwise the tail is dropped.  Steering the head
    /// straight back onto the second segment is a caller error.
    pub fn move_body(&mut self, direction: &Direction)
        requires
            old(self).wf(),
            direction.can_step(old(self).body@[0]),
            old(self).body@.len() > 1 ==> direction.step_spec(old(self).body@[0]) != old(
                self,
            ).body@[1],
        ensures
            final(self).wf(),
            final(self).body@ == Snake::moved_body(
                old(self).body@,
                *direction,
                old(self).segments_to_grow_by as nat,
            ),
            final(self).body@[0] == direction.step_spec(old(self).body@[0]),
            final(self).segments_to_grow_by == if old(self).segments_to_grow_by > 0 {
                old(self).segments_to_grow_by - 1
            } else {
                0int
            },
            final(self).effective_len() == old(self).effective_len(),
    {
        self.move_body_internal(direction);
        if self.segments_to_grow_by > 0 {
            self.segments_to_grow_by = self.segments_to_grow_by - 1;
        } else {
            self.body.pop();
        }
    }

    /// Queues `grow_by` more segments to be added by future moves.
    pub fn grow(&mut self, grow_by: usize)
        requires
            old(self).segments_to_grow_by + grow_by <= usize::MAX,
        ensures
            final(self).body == old(self).body,
            final(self).segments_to_grow_by == old(self).segments_to_grow_by + grow_by,
    {
        self.segments_to_grow_by = self.segments_to_grow_by + grow_by;
    }

    /// Whether growth is pending.
    pub fn will_grow(&self) -> (r: bool)
        ensures
            r == (self.segments_to_grow_by > 0),
    {
        self.segments_to_grow_by > 0
    }

    /// Whether no coordinate repeats in the body: the self-intersection test.
    pub fn has_unique_segments(&self) -> (r: bool)
        ensures
            r == unique_segments_spec(self.body@),
    {
        let mut i: usize = 0;
        while i < self.body.len()
            invariant
                i <= self.body@.len(),
                forall|p: int, q: int|
                    0 <= p < q < self.body@.len() && p < i ==> self.body@[p] != self.body@[q],
            decreases self.body@.len() - i,
        {
            let mut j: usize = i + 1;
            while j < self.body.len()
                invariant
                    i < j <= self.body@.len(),
                    forall|q: int| i < q < j ==> self.body@[q] != self.body@[i as int],
                decreases self.body@.len() - j,
            {
                if self.body[j] == self.body[i] {
                    return false;
                }
                j = j + 1;
            }
            i = i + 1;
        }
        true
    }

    /// Whether some body segment sits at `s`.
    pub fn occupies(&self, s: &Segment) -> (r: bool)
        ensures
            r == self.body@.contains(*s),
    {
        let mut i: usize = 0;
        while i < self.body.len()
            invariant
                i <= self.body@.len(),
                forall|k: int| 0 <= k < i ==> self.body@[k] != *s,
            decreases self.body@.len() - i,
        {
            if self.body[i] == *s {
                return true;
            }
            i = i + 1;
        }
        false
    }

    /// Appends `coordinate` at the tail, after validating that it touches
    /// the current tail (Chebyshev distance at most one) and is not already
    /// part of the body; rejects it otherwise and leaves the snake as it
    /// was.  Returns whether the segment was appended.
    pub fn push_back_segment(&mut self, coordinate: Segment) -> (r: bool)
        requires
            old(self).wf(),
        ensures
            final(self).wf(),
            final(self).segments_to_grow_by == old(self).segments_to_grow_by,
            r == (chebyshev_adjacent(old(self).body@.last(), coordinate) && !old(
                self,
            ).body@.contains(coordinate)),
            r ==> final(self).body@ == old(self).body@.push(coordinate),
            !r ==> final(self).body@ == old(self).body@,
    {
        let tail: Segment = self.body[self.body.len() - 1];
        let dx: i64 = coordinate.x as i64 - tail.x as i64;
        let dy: i64 = coordinate.y as i64 - tail.y as i64;
        if -1 <= dx && dx <= 1 && -1 <= dy && dy <= 1 && !self.occupies(&coordinate) {
            self.body.push(coordinate);
            true
        } else {
            false
        }
    }

    /// Effective length: body length plus pending growth.
    pub fn len(&self) -> (r: usize)
        requires
            self.body@.len() + self.segments_to_grow_by <= usize::MAX,
        ensures
            r == self.effective_len(),
    {
        self.body.len() + self.segments_to_grow_by
    }

    /// Pushes the cell one step from the current head to the front of the
    /// body; stepping onto the second segment is a caller error.
    fn move_body_internal(&mut self, direction: &Direction)
        requires
            old(self).wf(),
            direction.can_step(old(self).body@[0]),
            old(self).body@.len() > 1 ==> direction.step_spec(old(self).body@[0]) != old(
                self,
            ).body@[1],
        ensures
            final(self).body@ == old(self).body@.insert(
                0,
                direction.step_spec(old(self).body@[0]),
            ),
            final(self).segments_to_grow_by == old(self).segments_to_grow_by,
    {
        let snake_head: Segment = self.body[0];
        let new_segment = direction.nearest_segment(&snake_head);
        self.body.insert(0, new_segment);
    }
}

} // verus!
