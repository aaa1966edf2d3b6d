//! Fixed-size 2D grid of obstacle cells: placement, removal, bounds checks,
//! and a running count of occupied cells.
use crate::Obstacle;
use crate::Segment;
use vstd::prelude::*;

verus! {

/// Number of cells of `cells` that hold an apple.
pub open spec fn count_obstacles(cells: Seq<Obstacle>) -> nat
    decreases cells.len(),
{
    if cells.len() == 0 {
        0
    } else {
        count_obstacles(cells.drop_last()) + if cells.last() is Apple {
            1nat
        } else {
            0nat
        }
    }
}

pub proof fn lemma_count_obstacles_le_len(cells: Seq<Obstacle>)
    ensures
        count_obstacles(cells) <= cells.len(),
    decreases cells.len(),
{
    if cells.len() > 0 {
        lemma_count_obstacles_le_len(cells.drop_last());
    }
}

/// A sequence with at least one empty cell holds fewer apples than cells.
pub proof fn lemma_count_obstacles_lt_len(cells: Seq<Obstacle>, j: int)
    requires
        0 <= j < cells.len(),
        !(cells[j] is Apple),
    ensures
        count_obstacles(cells) < cells.len(),
    decreases cells.len(),
{
    if j == cells.len() - 1 {
        lemma_count_obstacles_le_len(cells.drop_last());
    } else {
        lemma_count_obstacles_lt_len(cells.drop_last(), j);
    }
}

/// Overwriting one cell changes the apple count by the difference the new
/// value makes at that cell.
pub proof fn lemma_count_obstacles_update(cells: Seq<Obstacle>, j: int, v: Obstacle)
    requires
        0 <= j < cells.len(),
    ensures
        count_obstacles(cells.update(j, v)) == count_obstacles(cells) - (if cells[j] is Apple {
            1int
        } else {
            0int
        }) + (if v is Apple {
            1int
        } else {
            0int
        }),
    decreases cells.len(),
{
    let upd = cells.update(j, v);
    if j == cells.len() - 1 {
        assert(upd.drop_last() =~= cells.drop_last());
    } else {
        assert(upd.drop_last() =~= cells.drop_last().update(j, v));
        assert(upd.last() == cells.last());
        lemma_count_obstacles_update(cells.drop_last(), j, v);
    }
}

/// A fixed `width` x `height` grid of cells, stored column-major: cell
/// `(x, y)` lives at linear index `x * height + y`.  `number_of_obstacles`
/// caches how many cells currently hold an apple.
pub struct Board {
    pub width: usize,
    pub height: usize,
    pub board: Vec<Obstacle>,
    pub number_of_obstacles: usize,
}

impl Board {
    /// Linear index of cell `(x, y)`.
    pub open spec fn idx(self, x: int, y: int) -> int {
        x * self.height + y
    }

    /// Total number of cells.
    pub open spec fn capacity(self) -> int {
        self.width * self.height
    }

    pub open spec fn in_bounds(self, x: int, y: int) -> bool {
        0 <= x < self.width && 0 <= y < self.height
    }

    /// The grid position of `s`, as signed coordinates, lies on the board.
    pub open spec fn seg_in(self, s: Segment) -> bool {
        0 <= s.x < self.width && 0 <= s.y < self.height
    }

    /// The state of cell `(x, y)`.
    pub open spec fn cell(self, x: int, y: int) -> Obstacle {
        self.board@[self.idx(x, y)]
    }

    /// The grid has its declared size and the cached obstacle count matches
    /// the cells.
    pub open spec fn wf(self) -> bool {
        &&& 1 <= self.width
        &&& 1 <= self.height
        &&& self.width * self.height <= usize::MAX
        &&& self.board@.len() == self.width * self.height
        &&& self.number_of_obstacles == count_obstacles(self.board@)
    }

    /// The linear index of an in-bounds cell lies within the grid.
    pub proof fn lemma_idx_bounds(self, x: int, y: int)
        requires
            self.in_bounds(x, y),
        ensures
            y <= self.idx(x, y) < self.width * self.height,
            x * self.height <= self.idx(x, y),
    {
        assert(0 <= x * self.height && x * self.height + y < self.width * self.height)
            by (nonlinear_arith)
            requires
                0 <= x < self.width,
                0 <= y < self.height,
        ;
    }

    /// Distinct in-bounds cells have distinct linear indices.
    pub proof fn lemma_idx_injective(self, x1: int, y1: int, x2: int, y2: int)
        requires
            self.in_bounds(x1, y1),
            self.in_bounds(x2, y2),
            self.idx(x1, y1) == self.idx(x2, y2),
        ensures
            x1 == x2 && y1 == y2,
    {
        assert(x1 == x2 && y1 == y2) by (nonlinear_arith)
            requires
                0 <= y1 < self.height,
                0 <= y2 < self.height,
                0 <= x1,
                0 <= x2,
                x1 * self.height + y1 == x2 * self.height + y2,
        ;
    }

    /// A freshly built board has every cell empty and no obstacles counted.
    pub fn new(width: usize, height: usize) -> (r: Board)
        requires
            1 <= width,
            1 <= height,
            width * height <= usize::MAX,
        ensures
            r.wf(),
            r.width == width,
            r.height == height,
            r.number_of_obstacles == 0,
            forall|x: int, y: int| r.in_bounds(x, y) ==> #[trigger] r.cell(x, y) is Empty,
    {
        let capacity: usize = width * height;
        let mut cells: Vec<Obstacle> = Vec::new();
        while cells.len() < capacity
            invariant
                cells@.len() <= capacity,
                forall|k: int| 0 <= k < cells@.len() ==> cells@[k] is Empty,
                count_obstacles(cells@) == 0,
            decreases capacity - cells@.len(),
        {
            let ghost pre = cells@;
            cells.push(Obstacle::Empty);
            proof {
                assert(cells@.drop_last() =~= pre);
            }
        }
        let r = Board { width, height, board: cells, number_of_obstacles: 0 };
        proof {
            assert forall|x: int, y: int| r.in_bounds(x, y) implies r.cell(x, y) is Empty by {
                r.lemma_idx_bounds(x, y);
            }
        }
        r
    }

    pub fn width(&self) -> (r: usize)
        ensures
            r == self.width,
    {
        self.width
    }

    pub fn height(&self) -> (r: usize)
        ensures
            r == self.height,
    {
        self.height
    }

    /// State of cell `(x, y)`; asking outside the grid is a caller error.
    pub fn get_field(&self, x: usize, y: usize) -> (r: Obstacle)
        requires
            self.wf(),
            self.in_bounds(x as int, y as int),
        ensures
            r == self.cell(x as int, y as int),
    {
        proof {
            self.lemma_idx_bounds(x as int, y as int);
        }
        self.board[x * self.height + y]
    }

    /// Marks the empty cell `(x, y)` as holding an apple; the cached count
    /// rises by one and every other cell keeps its state.
    pub fn set_obstacle(&mut self, x: usize, y: usize)
        requires
            old(self).wf(),
            old(self).in_bounds(x as int, y as int),
            old(self).cell(x as int, y as int) is Empty,
        ensures
            final(self).wf(),
            final(self).width == old(self).width,
            final(self).height == old(self).height,
            final(self).board@ == old(self).board@.update(old(self).idx(x as int, y as int), Obstacle::Apple),
            final(self).number_of_obstacles == old(self).number_of_obstacles + 1,
            final(self).cell(x as int, y as int) is Apple,
            forall|i: int, j: int|
                old(self).in_bounds(i, j) && (i != x || j != y) ==> final(self).cell(i, j)
                    == old(self).cell(i, j),
    {
        proof {
            self.lemma_idx_bounds(x as int, y as int);
            lemma_count_obstacles_lt_len(self.board@, self.idx(x as int, y as int));
            lemma_count_obstacles_update(
                self.board@,
                self.idx(x as int, y as int),
                Obstacle::Apple,
            );
        }
        let i: usize = x * self.height + y;
        self.board.set(i, Obstacle::Apple);
        self.number_of_obstacles = self.number_of_obstacles + 1;
        proof {
            Board::lemma_frame_after_update(*old(self), *self, x as int, y as int, Obstacle::Apple);
        }
    }

    /// Clears the apple at cell `(x, y)`; the cached count drops by one and
    /// every other cell keeps its state.
    pub fn clear_obstacle(&mut self, x: usize, y: usize)
        requires
            old(self).wf(),
            old(self).in_bounds(x as int, y as int),
            old(self).cell(x as int, y as int) is Apple,
        ensures
            final(self).wf(),
            final(self).width == old(self).width,
            final(self).height == old(self).height,
            final(self).board@ == old(self).board@.update(old(self).idx(x as int, y as int), Obstacle::Empty),
            final(self).number_of_obstacles == old(self).number_of_obstacles - 1,
            final(self).cell(x as int, y as int) is Empty,
            forall|i: int, j: int|
                old(self).in_bounds(i, j) && (i != x || j != y) ==> final(self).cell(i, j)
                    == old(self).cell(i, j),
    {
        proof {
            self.lemma_idx_bounds(x as int, y as int);
            lemma_count_obstacles_update(
                self.board@,
                self.idx(x as int, y as int),
                Obstacle::Empty,
            );
        }
        let i: usize = x * self.height + y;
        self.board.set(i, Obstacle::Empty);
        self.number_of_obstacles = self.number_of_obstacles - 1;
        proof {
            Board::lemma_frame_after_update(*old(self), *self, x as int, y as int, Obstacle::Empty);
        }
    }

    /// After overwriting cell `(x, y)` of `pre` with `v`, every other
    /// in-bounds cell reads as before.
    proof fn lemma_frame_after_update(pre: Board, post: Board, x: int, y: int, v: Obstacle)
        requires
            pre.wf(),
            pre.in_bounds(x, y),
            post.width == pre.width,
            post.height == pre.height,
            post.board@ == pre.board@.update(pre.idx(x, y), v),
        ensures
            forall|i: int, j: int|
                pre.in_bounds(i, j) && (i != x || j != y) ==> post.cell(i, j) == pre.cell(i, j),
    {
        assert forall|i: int, j: int|
            pre.in_bounds(i, j) && (i != x || j != y) implies post.cell(i, j) == pre.cell(
            i,
            j,
        ) by {
            pre.lemma_idx_bounds(i, j);
            pre.lemma_idx_bounds(x, y);
            if pre.idx(i, j) == pre.idx(x, y) {
                pre.lemma_idx_injective(i, j, x, y);
            }
        }
    }

    /// Pure boundary test: is `segment` on the board, regardless of contents?
    pub fn segment_in(&self, segment: &Segment) -> (r: bool)
        ensures
            r == self.seg_in(*segment),
    {
        segment.x >= 0 && (segment.x as usize) < self.width && segment.y >= 0 && (segment.y
            as usize) < self.height
    }

    pub fn get_number_of_obstacles(&self) -> (r: usize)
        ensures
            r == self.number_of_obstacles,
    {
        self.number_of_obstacles
    }
}

} // verus!
