//! Game logic: one tick resolves the input direction, advances the snake,
//! checks collisions, handles eating, and regenerates obstacles on a fixed
//! schedule.
use crate::board;
use crate::snake;
use crate::Direction;
use crate::Obstacle;
use crate::Segment;
use rand::Rng;
use vstd::arithmetic::div_mod::lemma_fundamental_div_mod_converse;
use vstd::arithmetic::div_mod::lemma_small_mod;
use vstd::prelude::*;

verus! {

/// Obstacles regenerate on every tick whose (incremented) counter has this
/// period, first on the very first tick.
pub const OBSTACLE_REGEN_PERIOD: usize = 100;

/// How many obstacles one regeneration round asks for.
pub const OBSTACLES_PER_REGEN: usize = 10;

/// Outcome of checking a whole snake body against the board, in priority
/// order: wall first, then obstacle, then self-collision.
#[derive(Copy, Clone, PartialEq, Eq, Structural, Debug)]
pub enum Collision {
    Clear,
    Wall,
    Obstacle(Obstacle),
    Snake,
}

/// Every segment of `body` lies on the board.
pub open spec fn all_in_board(b: board::Board, body: Seq<Segment>) -> bool {
    forall|k: int| 0 <= k < body.len() ==> b.seg_in(body[k])
}

/// Some segment of `body` sits on a cell holding an apple.
pub open spec fn some_on_obstacle(b: board::Board, body: Seq<Segment>) -> bool {
    exists|k: int|
        0 <= k < body.len() && b.cell(body[k].x as int, body[k].y as int) is Apple
}

/// Collision state of `body` against board `b`: a segment off the board is a
/// wall hit; else a segment on an apple is an obstacle hit; else a repeated
/// coordinate is a self-collision; else the body is clear.
pub open spec fn collision_spec(b: board::Board, body: Seq<Segment>) -> Collision {
    if !all_in_board(b, body) {
        Collision::Wall
    } else if some_on_obstacle(b, body) {
        Collision::Obstacle(Obstacle::Apple)
    } else if !snake::unique_segments_spec(body) {
        Collision::Snake
    } else {
        Collision::Clear
    }
}

/// The direction a tick settles on: the input if one is given, else the last
/// accepted direction; a proposal exactly opposite to the last accepted
/// direction is discarded and the last direction reused.
pub open spec fn resolved_direction(input: Option<Direction>, last: Option<Direction>) -> Option<
    Direction,
> {
    let proposed = if input is Some {
        input
    } else {
        last
    };
    match proposed {
        None => None,
        Some(d) => match last {
            None => Some(d),
            Some(l) => if d == l.opposite_spec() {
                Some(l)
            } else {
                Some(d)
            },
        },
    }
}

/// Law: proposing the exact opposite of the last accepted direction leaves
/// the heading unchanged — the tick resolves to the last direction again.
pub proof fn lemma_reversal_ignored(last: Direction)
    ensures
        resolved_direction(Some(last.opposite_spec()), Some(last)) == Some(last),
{
}

/// How many obstacles one round placing `requested` actually yields: the
/// request, capped by the free budget `capacity - obstacles - snake_len`
/// (zero when the board is that full already).
pub open spec fn planned_obstacles(
    requested: int,
    capacity: int,
    obstacles: int,
    snake_len: int,
) -> int {
    let budget = if obstacles + snake_len >= capacity {
        0int
    } else {
        capacity - obstacles - snake_len
    };
    if requested <= budget {
        requested
    } else {
        budget
    }
}

/// Board change of one regeneration round asking for `requested` obstacles
/// while the snake occupies `occupied`: exactly the planned number of empty
/// cells away from the snake flip to apples; every other cell is untouched.
pub open spec fn regen_rel(
    pre: board::Board,
    post: board::Board,
    occupied: Seq<Segment>,
    requested: int,
) -> bool {
    &&& post.width == pre.width
    &&& post.height == pre.height
    &&& post.number_of_obstacles == pre.number_of_obstacles + planned_obstacles(
        requested,
        pre.capacity(),
        pre.number_of_obstacles as int,
        occupied.len() as int,
    )
    &&& forall|x: int, y: int|
        pre.in_bounds(x, y) && post.cell(x, y) != pre.cell(x, y) ==> pre.cell(x, y) is Empty
            && post.cell(x, y) is Apple && !occupied.contains(
            Segment { x: x as i32, y: y as i32 },
        )
}

/// Board change of the eat step: when `ate`, the head's cell is cleared;
/// otherwise the board is untouched.
pub open spec fn eat_rel(pre: board::Board, mid: board::Board, head: Segment, ate: bool) -> bool {
    if ate {
        &&& mid.width == pre.width
        &&& mid.height == pre.height
        &&& mid.board@ == pre.board@.update(pre.idx(head.x as int, head.y as int), Obstacle::Empty)
        &&& mid.number_of_obstacles == pre.number_of_obstacles - 1
    } else {
        mid == pre
    }
}

/// Board change of the schedule step at tick counter `counter`: on a
/// regeneration tick one round runs against the snake body `body`; on any
/// other tick the board is untouched.
pub open spec fn sched_rel(
    mid: board::Board,
    post: board::Board,
    body: Seq<Segment>,
    counter: int,
) -> bool {
    if counter % (OBSTACLE_REGEN_PERIOD as int) == 1 {
        regen_rel(mid, post, body, OBSTACLES_PER_REGEN as int)
    } else {
        post == mid
    }
}

/// Board change of a whole non-fatal tick: the eat step, then the schedule
/// step against the moved body.
pub open spec fn board_after_tick(
    pre: board::Board,
    post: board::Board,
    body: Seq<Segment>,
    ate: bool,
    counter: int,
) -> bool {
    exists|mid: board::Board|
        #[trigger] eat_rel(pre, mid, body[0], ate) && sched_rel(mid, post, body, counter)
}

/// The cell a linear index denotes: `x = (index / height) mod width`,
/// `y = index mod height`.
pub open spec fn coords_of_index(width: int, height: int, index: int) -> (int, int) {
    ((index / height) % width, index % height)
}

/// Law: the index-to-coordinate mapping round-trips — the linear index
/// `x * height + y` of an in-bounds cell maps back to exactly `(x, y)`.
pub proof fn lemma_index_round_trip(width: int, height: int, x: int, y: int)
    requires
        1 <= width,
        1 <= height,
        0 <= x < width,
        0 <= y < height,
    ensures
        coords_of_index(width, height, x * height + y) == (x, y),
{
    lemma_fundamental_div_mod_converse(x * height + y, height, x, y);
    lemma_small_mod(x as nat, width as nat);
}

/// Relies on rand::thread_rng and rand::Rng::gen: one machine word drawn
/// from the thread-local generator.  Nothing is promised of a random value.
#[verifier::external_body]
fn random_usize() -> usize {
    let mut rng = rand::thread_rng();
    rng.gen::<usize>()
}

/// Whether linear index `p` denotes a cell that could take a new obstacle:
/// the cell is empty and no segment of `body` covers it.
pub open spec fn index_is_free(b: board::Board, body: Seq<Segment>, p: int) -> bool {
    let xy = coords_of_index(b.width as int, b.height as int, p);
    &&& b.board@[p] is Empty
    &&& !body.contains(Segment { x: xy.0 as i32, y: xy.1 as i32 })
}

/// Whether some segment of `body` covers the cell of linear index `p`.
pub open spec fn index_is_covered(b: board::Board, body: Seq<Segment>, p: int) -> bool {
    let xy = coords_of_index(b.width as int, b.height as int, p);
    body.contains(Segment { x: xy.0 as i32, y: xy.1 as i32 })
}

/// How many linear indices below `n` are free.
pub open spec fn free_count(b: board::Board, body: Seq<Segment>, n: int) -> nat
    decreases n,
{
    if n <= 0 {
        0
    } else {
        free_count(b, body, n - 1) + if index_is_free(b, body, n - 1) {
            1nat
        } else {
            0nat
        }
    }
}

/// How many linear indices below `n` are covered by the snake.
pub open spec fn covered_count(b: board::Board, body: Seq<Segment>, n: int) -> nat
    decreases n,
{
    if n <= 0 {
        0
    } else {
        covered_count(b, body, n - 1) + if index_is_covered(b, body, n - 1) {
            1nat
        } else {
            0nat
        }
    }
}

/// A linear index below the capacity is exactly the canonical index
/// `x * height + y` of the cell it denotes.
proof fn lemma_index_canonical(width: int, height: int, p: int)
    requires
        1 <= width,
        1 <= height,
        0 <= p < width * height,
    ensures
        ({
            let xy = coords_of_index(width, height, p);
            &&& 0 <= xy.0 < width
            &&& 0 <= xy.1 < height
            &&& p == xy.0 * height + xy.1
        }),
{
    assert(0 <= p / height && p / height < width && 0 <= p % height < height && p == (p / height)
        * height + p % height) by (nonlinear_arith)
        requires
            1 <= height,
            0 <= p < width * height,
    ;
    lemma_small_mod((p / height) as nat, width as nat);
}

/// Every linear index is free, holds an apple, or is covered by the snake:
/// the free cells number at least the capacity minus apples minus covered.
proof fn lemma_free_count_lower(b: board::Board, body: Seq<Segment>, n: int)
    requires
        0 <= n <= b.board@.len(),
    ensures
        free_count(b, body, n) + board::count_obstacles(b.board@.take(n)) + covered_count(
            b,
            body,
            n,
        ) >= n,
    decreases n,
{
    if n > 0 {
        lemma_free_count_lower(b, body, n - 1);
        assert(b.board@.take(n).drop_last() =~= b.board@.take(n - 1));
        assert(b.board@.take(n).last() == b.board@[n - 1]);
    }
}

/// A body with no segments covers no index.
proof fn lemma_covered_count_none(b: board::Board, body: Seq<Segment>, n: int)
    requires
        body.len() == 0,
    ensures
        covered_count(b, body, n) == 0,
    decreases n,
{
    if n > 0 {
        lemma_covered_count_none(b, body, n - 1);
    }
}

/// Dropping the last body segment uncovers at most one index: the canonical
/// index of that segment.
proof fn lemma_covered_count_drop(b: board::Board, body: Seq<Segment>, n: int)
    requires
        1 <= b.width <= i32::MAX,
        1 <= b.height <= i32::MAX,
        0 <= n <= b.width * b.height,
        body.len() > 0,
    ensures
        covered_count(b, body, n) <= covered_count(b, body.drop_last(), n) + (if b.seg_in(
            body.last(),
        ) && 0 <= body.last().x * b.height + body.last().y < n {
            1int
        } else {
            0int
        }),
    decreases n,
{
    if n > 0 {
        lemma_covered_count_drop(b, body, n - 1);
        let p = n - 1;
        if index_is_covered(b, body, p) && !index_is_covered(b, body.drop_last(), p) {
            let xy = coords_of_index(b.width as int, b.height as int, p);
            let probe = Segment { x: xy.0 as i32, y: xy.1 as i32 };
            let k = choose|k: int| 0 <= k < body.len() && body[k] == probe;
            assert(body.drop_last() =~= body.take(body.len() - 1));
            if k < body.len() - 1 {
                assert(body.drop_last()[k] == probe);
                assert(body.drop_last().contains(probe));
            }
            assert(body.last() == probe);
            lemma_index_canonical(b.width as int, b.height as int, p);
        }
    }
}

/// The snake covers no more indices than it has segments.
proof fn lemma_covered_count_le(b: board::Board, body: Seq<Segment>, n: int)
    requires
        1 <= b.width <= i32::MAX,
        1 <= b.height <= i32::MAX,
        0 <= n <= b.width * b.height,
    ensures
        covered_count(b, body, n) <= body.len(),
    decreases body.len(),
{
    if body.len() == 0 {
        lemma_covered_count_none(b, body, n);
    } else {
        lemma_covered_count_drop(b, body, n);
        lemma_covered_count_le(b, body.drop_last(), n);
    }
}

/// Owns the board and the snake and drives one logic tick at a time.
pub struct GameLogic {
    pub board: board::Board,
    pub snake: snake::Snake,
    pub main_loop_counter: usize,
    pub last_direction: Option<Direction>,
    pub game_over: Option<Collision>,
}

/// Full relation of one tick: state `pre` before the call, `post` after it,
/// `input` the optional direction fed in, `r` the collision the tick
/// reports.
pub open spec fn tick_rel(
    pre: GameLogic,
    post: GameLogic,
    input: Option<Direction>,
    r: Collision,
) -> bool {
    if pre.game_over is Some {
        // Terminal state: the session is over and nothing changes.
        &&& post == pre
        &&& r == pre.game_over->0
    } else {
        match resolved_direction(input, pre.last_direction) {
            None => {
                // No direction yet: only the schedule runs.
                &&& post.snake == pre.snake
                &&& post.last_direction == pre.last_direction
                &&& post.game_over is None
                &&& post.main_loop_counter == pre.main_loop_counter + 1
                &&& r is Clear
                &&& sched_rel(
                    pre.board,
                    post.board,
                    pre.snake.body@,
                    pre.main_loop_counter + 1,
                )
            },
            Some(d) => {
                let body1 = snake::Snake::moved_body(
                    pre.snake.body@,
                    d,
                    pre.snake.segments_to_grow_by as nat,
                );
                let pending1: int = if pre.snake.segments_to_grow_by > 0 {
                    pre.snake.segments_to_grow_by - 1
                } else {
                    0int
                };
                let c = collision_spec(pre.board, body1);
                &&& r == c
                &&& post.snake.body@ == body1
                &&& if c is Wall || c is Snake {
                    // Fatal: the session ends; board and schedule freeze.
                    &&& post.game_over == Some(c)
                    &&& post.board == pre.board
                    &&& post.main_loop_counter == pre.main_loop_counter
                    &&& post.last_direction == pre.last_direction
                    &&& post.snake.segments_to_grow_by == pending1
                } else {
                    let ate = pre.board.cell(body1[0].x as int, body1[0].y as int) is Apple;
                    &&& post.game_over is None
                    &&& post.last_direction == Some(d)
                    &&& post.main_loop_counter == pre.main_loop_counter + 1
                    &&& post.snake.segments_to_grow_by == pending1 + if ate {
                        1int
                    } else {
                        0int
                    }
                    &&& board_after_tick(
                        pre.board,
                        post.board,
                        body1,
                        ate,
                        pre.main_loop_counter + 1,
                    )
                }
            },
        }
    }
}

impl GameLogic {
    /// Every snake segment lies on the board.
    pub open spec fn segments_in_bounds(self) -> bool {
        all_in_board(self.board, self.snake.body@)
    }

    /// While the game runs, a multi-segment snake's head sits one step in
    /// the last accepted direction from its second segment.
    pub open spec fn heading_ok(self) -> bool {
        self.snake.body@.len() > 1 ==> self.last_direction is Some
            && self.snake.body@[0] == self.last_direction->0.step_spec(self.snake.body@[1])
    }

    /// Well-formed game state: sound board, coordinates that fit the signed
    /// segment type, a non-empty snake, and — while the game runs — a snake
    /// on the board whose heading matches the last accepted direction.  A
    /// finished game remembers which fatal collision ended it.
    pub open spec fn wf(self) -> bool {
        &&& self.board.wf()
        &&& self.board.width <= i32::MAX
        &&& self.board.height <= i32::MAX
        &&& self.snake.wf()
        &&& match self.game_over {
            None => self.segments_in_bounds() && self.heading_ok(),
            Some(c) => c is Wall || c is Snake,
        }
    }

    /// Starts a game on a fresh `width` x `height` board with a one-segment
    /// snake at `initial_snake_location`.
    pub fn new(width: usize, height: usize, initial_snake_location: Segment) -> (r: GameLogic)
        requires
            1 <= width,
            1 <= height,
            width * height <= usize::MAX,
            width <= i32::MAX,
            height <= i32::MAX,
            0 <= initial_snake_location.x < width,
            0 <= initial_snake_location.y < height,
        ensures
            r.wf(),
            r.board.width == width,
            r.board.height == height,
            r.board.number_of_obstacles == 0,
            forall|x: int, y: int| r.board.in_bounds(x, y) ==> #[trigger] r.board.cell(x, y) is Empty,
            r.snake.body@ == seq![initial_snake_location],
            r.snake.segments_to_grow_by == 0,
            r.main_loop_counter == 0,
            r.last_direction is None,
            r.game_over is None,
    {
        let board = board::Board::new(width, height);
        let mut initial: Vec<Segment> = Vec::new();
        initial.push(initial_snake_location);
        proof {
            assert(initial@ =~= seq![initial_snake_location]);
        }
        let game_logic = GameLogic {
            board,
            snake: snake::Snake::new(&initial),
            main_loop_counter: 0,
            last_direction: None,
            game_over: None,
        };
        game_logic
    }

    pub fn get_board_size(&self) -> (r: (usize, usize))
        ensures
            r.0 == self.board.width,
            r.1 == self.board.height,
    {
        (self.board.width(), self.board.height())
    }

    /// A copy of the snake body, head first.
    pub fn get_snake_segments(&self) -> (r: Vec<Segment>)
        ensures
            r@ == self.snake.body@,
    {
        let copy = snake::Snake::new(&self.snake.body);
        copy.body
    }

    /// All apple positions, column by column, each column top to bottom.
    pub fn get_obstacles(&self) -> (r: Vec<(usize, usize)>)
        requires
            self.board.wf(),
        ensures
            forall|k: int|
                0 <= k < r@.len() ==> self.board.in_bounds(r@[k].0 as int, r@[k].1 as int)
                    && self.board.cell(r@[k].0 as int, r@[k].1 as int) is Apple,
            forall|x: int, y: int|
                self.board.in_bounds(x, y) && self.board.cell(x, y) is Apple ==> r@.contains(
                    (x as usize, y as usize),
                ),
            forall|k: int, l: int|
                0 <= k < l < r@.len() ==> r@[k].0 < r@[l].0 || (r@[k].0 == r@[l].0 && r@[k].1
                    < r@[l].1),
    {
        let mut obstacles: Vec<(usize, usize)> = Vec::new();
        let mut i: usize = 0;
        while i < self.board.width()
            invariant
                self.board.wf(),
                i <= self.board.width,
                forall|k: int|
                    0 <= k < obstacles@.len() ==> self.board.in_bounds(
                        obstacles@[k].0 as int,
                        obstacles@[k].1 as int,
                    ) && self.board.cell(obstacles@[k].0 as int, obstacles@[k].1 as int) is Apple
                        && obstacles@[k].0 < i,
                forall|x: int, y: int|
                    self.board.in_bounds(x, y) && self.board.cell(x, y) is Apple && x < i
                        ==> obstacles@.contains((x as usize, y as usize)),
                forall|k: int, l: int|
                    0 <= k < l < obstacles@.len() ==> obstacles@[k].0 < obstacles@[l].0 || (
                    obstacles@[k].0 == obstacles@[l].0 && obstacles@[k].1 < obstacles@[l].1),
            decreases self.board.width - i,
        {
            let mut j: usize = 0;
            while j < self.board.height()
                invariant
                    self.board.wf(),
                    i < self.board.width,
                    j <= self.board.height,
                    forall|k: int|
                        0 <= k < obstacles@.len() ==> self.board.in_bounds(
                            obstacles@[k].0 as int,
                            obstacles@[k].1 as int,
                        ) && self.board.cell(obstacles@[k].0 as int, obstacles@[k].1 as int)
                            is Apple && (obstacles@[k].0 < i || (obstacles@[k].0 == i
                            && obstacles@[k].1 < j)),
                    forall|x: int, y: int|
                        self.board.in_bounds(x, y) && self.board.cell(x, y) is Apple && (x < i || (
                        x == i && y < j)) ==> obstacles@.contains((x as usize, y as usize)),
                    forall|k: int, l: int|
                        0 <= k < l < obstacles@.len() ==> obstacles@[k].0 < obstacles@[l].0 || (
                        obstacles@[k].0 == obstacles@[l].0 && obstacles@[k].1 < obstacles@[l].1),
                decreases self.board.height - j,
            {
                if self.board.get_field(i, j) == Obstacle::Apple {
                    let ghost pre = obstacles@;
                    obstacles.push((i, j));
                    proof {
                        assert forall|x: int, y: int|
                            self.board.in_bounds(x, y) && self.board.cell(x, y) is Apple && (x < i
                                || (x == i && y < j + 1)) implies obstacles@.contains(
                            (x as usize, y as usize),
                        ) by {
                            if x == i && y == j {
                                assert(obstacles@[pre.len() as int] == (x as usize, y as usize));
                            } else {
                                assert(pre.contains((x as usize, y as usize)));
                                let w = choose|w: int|
                                    0 <= w < pre.len() && pre[w] == (x as usize, y as usize);
                                assert(obstacles@[w] == (x as usize, y as usize));
                            }
                        }
                    }
                }
                j = j + 1;
            }
            i = i + 1;
        }
        obstacles
    }

    /// Current score: the snake's effective length.
    pub fn get_points(&self) -> (r: usize)
        requires
            self.snake.body@.len() + self.snake.segments_to_grow_by <= usize::MAX,
        ensures
            r == self.snake.effective_len(),
    {
        self.snake.len()
    }

    /// One regeneration round: draws obstacle positions and writes them to
    /// the board in one batch.
    fn generate_obstacles(&mut self, max_obstacles_count: usize)
        requires
            old(self).board.wf(),
            old(self).board.width <= i32::MAX,
            old(self).board.height <= i32::MAX,
            max_obstacles_count >= 1,
        ensures
            final(self).board.wf(),
            regen_rel(
                old(self).board,
                final(self).board,
                old(self).snake.body@,
                max_obstacles_count as int,
            ),
            final(self).snake == old(self).snake,
            final(self).main_loop_counter == old(self).main_loop_counter,
            final(self).last_direction == old(self).last_direction,
            final(self).game_over == old(self).game_over,
    {
        let positions = self.generate_obstacles_positions(max_obstacles_count);
        self.set_obstacles(&positions);
        proof {
            assert forall|x: int, y: int|
                old(self).board.in_bounds(x, y) && self.board.cell(x, y) != old(self).board.cell(
                    x,
                    y,
                ) implies old(self).board.cell(x, y) is Empty && self.board.cell(x, y) is Apple
                && !old(self).snake.body@.contains(Segment { x: x as i32, y: y as i32 }) by {
                if !positions@.contains((x as usize, y as usize)) {
                } else {
                    let k = choose|k: int|
                        0 <= k < positions@.len() && positions@[k] == (x as usize, y as usize);
                }
            }
        }
    }

    /// Writes a batch of obstacle positions to the board.  The positions
    /// must be distinct, in bounds, and currently empty.
    pub fn set_obstacles(&mut self, obstacles: &Vec<(usize, usize)>)
        requires
            old(self).board.wf(),
            forall|k: int|
                0 <= k < obstacles@.len() ==> old(self).board.in_bounds(
                    obstacles@[k].0 as int,
                    obstacles@[k].1 as int,
                ) && old(self).board.cell(obstacles@[k].0 as int, obstacles@[k].1 as int) is Empty,
            forall|k: int, l: int| 0 <= k < l < obstacles@.len() ==> obstacles@[k] != obstacles@[l],
        ensures
            final(self).board.wf(),
            final(self).board.width == old(self).board.width,
            final(self).board.height == old(self).board.height,
            final(self).board.number_of_obstacles == old(self).board.number_of_obstacles
                + obstacles@.len(),
            forall|k: int|
                0 <= k < obstacles@.len() ==> final(self).board.cell(
                    obstacles@[k].0 as int,
                    obstacles@[k].1 as int,
                ) is Apple,
            forall|x: int, y: int|
                old(self).board.in_bounds(x, y) && !obstacles@.contains((x as usize, y as usize))
                    ==> final(self).board.cell(x, y) == old(self).board.cell(x, y),
            final(self).snake == old(self).snake,
            final(self).main_loop_counter == old(self).main_loop_counter,
            final(self).last_direction == old(self).last_direction,
            final(self).game_over == old(self).game_over,
    {
        let mut k: usize = 0;
        while k < obstacles.len()
            invariant
                self.board.wf(),
                k <= obstacles@.len(),
                self.board.width == old(self).board.width,
                self.board.height == old(self).board.height,
                self.board.number_of_obstacles == old(self).board.number_of_obstacles + k,
                forall|m: int|
                    0 <= m < obstacles@.len() ==> old(self).board.in_bounds(
                        obstacles@[m].0 as int,
                        obstacles@[m].1 as int,
                    ),
                forall|m: int, l: int|
                    0 <= m < l < obstacles@.len() ==> obstacles@[m] != obstacles@[l],
                forall|m: int|
                    0 <= m < k ==> self.board.cell(
                        obstacles@[m].0 as int,
                        obstacles@[m].1 as int,
                    ) is Apple,
                forall|m: int|
                    k <= m < obstacles@.len() ==> self.board.cell(
                        obstacles@[m].0 as int,
                        obstacles@[m].1 as int,
                    ) is Empty,
                forall|x: int, y: int|
                    old(self).board.in_bounds(x, y) && !obstacles@.contains(
                        (x as usize, y as usize),
                    ) ==> self.board.cell(x, y) == old(self).board.cell(x, y),
                self.snake == old(self).snake,
                self.main_loop_counter == old(self).main_loop_counter,
                self.last_direction == old(self).last_direction,
                self.game_over == old(self).game_over,
            decreases obstacles@.len() - k,
        {
            let position = obstacles[k];
            self.board.set_obstacle(position.0, position.1);
            proof {
                assert(obstacles@.contains(obstacles@[k as int]));
                assert forall|m: int|
                    k + 1 <= m < obstacles@.len() implies self.board.cell(
                    obstacles@[m].0 as int,
                    obstacles@[m].1 as int,
                ) is Empty by {
                    assert(obstacles@[m] != obstacles@[k as int]);
                }
            }
            k = k + 1;
        }
    }

    /// Draws up to `max_obstacles_count` fresh obstacle positions, uniformly
    /// over the cells that can take one: every candidate cell — empty and
    /// not occupied by the snake — is enumerated, and positions are then
    /// drawn from the candidates without replacement.  The yield is capped
    /// by the free-cell budget `capacity - obstacles - snake segments`, so a
    /// nearly full board stops the round early instead of looping without
    /// bound.  Requesting zero is a caller error.
    pub fn generate_obstacles_positions(&self, max_obstacles_count: usize) -> (r: Vec<
        (usize, usize),
    >)
        requires
            self.board.wf(),
            self.board.width <= i32::MAX,
            self.board.height <= i32::MAX,
            max_obstacles_count >= 1,
        ensures
            r@.len() == planned_obstacles(
                max_obstacles_count as int,
                self.board.capacity(),
                self.board.number_of_obstacles as int,
                self.snake.body@.len() as int,
            ),
            forall|k: int|
                0 <= k < r@.len() ==> self.board.in_bounds(r@[k].0 as int, r@[k].1 as int)
                    && self.board.cell(r@[k].0 as int, r@[k].1 as int) is Empty
                    && !self.snake.body@.contains(Segment { x: r@[k].0 as i32, y: r@[k].1 as i32 }),
            forall|k: int, l: int| 0 <= k < l < r@.len() ==> r@[k] != r@[l],
    {
        let board_capacity: usize = self.board.height() * self.board.width();
        let obstacles_count: usize = self.board.get_number_of_obstacles();
        let snake_segments_count: usize = self.snake.body.len();
        let budget: usize;
        match obstacles_count.checked_add(snake_segments_count) {
            Some(occupied) => {
                if occupied < board_capacity {
                    budget = board_capacity - occupied;
                } else {
                    budget = 0;
                }
            },
            None => {
                budget = 0;
            },
        }
        let goal: usize = if max_obstacles_count < budget {
            max_obstacles_count
        } else {
            budget
        };
        let mut free = self.collect_free_cells();
        proof {
            lemma_free_count_lower(self.board, self.snake.body@, self.board.capacity());
            assert(self.board.board@.take(self.board.capacity()) =~= self.board.board@);
            lemma_covered_count_le(self.board, self.snake.body@, self.board.capacity());
        }
        let mut generated: Vec<(usize, usize)> = Vec::new();
        while generated.len() < goal
            invariant
                self.board.wf(),
                generated@.len() <= goal,
                free@.len() + generated@.len() >= goal,
                forall|k: int|
                    0 <= k < free@.len() ==> self.board.in_bounds(free@[k].0 as int, free@[k].1 as int)
                        && self.board.cell(free@[k].0 as int, free@[k].1 as int) is Empty
                        && !self.snake.body@.contains(
                        Segment { x: free@[k].0 as i32, y: free@[k].1 as i32 },
                    ),
                forall|k: int, l: int| 0 <= k < l < free@.len() ==> free@[k] != free@[l],
                forall|k: int|
                    0 <= k < generated@.len() ==> self.board.in_bounds(
                        generated@[k].0 as int,
                        generated@[k].1 as int,
                    ) && self.board.cell(generated@[k].0 as int, generated@[k].1 as int) is Empty
                        && !self.snake.body@.contains(
                        Segment { x: generated@[k].0 as i32, y: generated@[k].1 as i32 },
                    ),
                forall|k: int, l: int|
                    0 <= k < l < generated@.len() ==> generated@[k] != generated@[l],
                forall|k: int, l: int|
                    0 <= k < generated@.len() && 0 <= l < free@.len() ==> generated@[k]
                        != free@[l],
            decreases goal - generated@.len(),
        {
            let pick = random_usize() % free.len();
            let cell = free.swap_remove(pick);
            generated.push(cell);
        }
        generated
    }

    /// Enumerates every cell that could take a new obstacle — empty and not
    /// occupied by the snake — column by column.  There are at least
    /// `capacity - obstacles - snake segments` of them.
    fn collect_free_cells(&self) -> (r: Vec<(usize, usize)>)
        requires
            self.board.wf(),
            self.board.width <= i32::MAX,
            self.board.height <= i32::MAX,
        ensures
            r@.len() == free_count(self.board, self.snake.body@, self.board.capacity()),
            forall|k: int|
                0 <= k < r@.len() ==> self.board.in_bounds(r@[k].0 as int, r@[k].1 as int)
                    && self.board.cell(r@[k].0 as int, r@[k].1 as int) is Empty
                    && !self.snake.body@.contains(Segment { x: r@[k].0 as i32, y: r@[k].1 as i32 }),
            forall|k: int, l: int| 0 <= k < l < r@.len() ==> r@[k] != r@[l],
    {
        let mut free: Vec<(usize, usize)> = Vec::new();
        let mut x: usize = 0;
        let mut p: usize = 0;
        while x < self.board.width
            invariant
                self.board.wf(),
                self.board.width <= i32::MAX,
                self.board.height <= i32::MAX,
                x <= self.board.width,
                p == x * self.board.height,
                p <= self.board.capacity(),
                free@.len() == free_count(self.board, self.snake.body@, p as int),
                forall|k: int|
                    0 <= k < free@.len() ==> self.board.in_bounds(free@[k].0 as int, free@[k].1 as int)
                        && self.board.cell(free@[k].0 as int, free@[k].1 as int) is Empty
                        && !self.snake.body@.contains(
                        Segment { x: free@[k].0 as i32, y: free@[k].1 as i32 },
                    ),
                forall|k: int, l: int|
                    0 <= k < l < free@.len() ==> free@[k].0 < free@[l].0 || (free@[k].0
                        == free@[l].0 && free@[k].1 < free@[l].1),
                forall|k: int| 0 <= k < free@.len() ==> free@[k].0 < x,
            decreases self.board.width - x,
        {
            let mut y: usize = 0;
            proof {
                self.board.lemma_idx_bounds(x as int, 0int);
            }
            while y < self.board.height
                invariant
                    self.board.wf(),
                    self.board.width <= i32::MAX,
                    self.board.height <= i32::MAX,
                    x < self.board.width,
                    y <= self.board.height,
                    p == x * self.board.height + y,
                    p <= self.board.capacity(),
                    free@.len() == free_count(self.board, self.snake.body@, p as int),
                    forall|k: int|
                        0 <= k < free@.len() ==> self.board.in_bounds(
                            free@[k].0 as int,
                            free@[k].1 as int,
                        ) && self.board.cell(free@[k].0 as int, free@[k].1 as int) is Empty
                            && !self.snake.body@.contains(
                            Segment { x: free@[k].0 as i32, y: free@[k].1 as i32 },
                        ),
                    forall|k: int, l: int|
                        0 <= k < l < free@.len() ==> free@[k].0 < free@[l].0 || (free@[k].0
                            == free@[l].0 && free@[k].1 < free@[l].1),
                    forall|k: int|
                        0 <= k < free@.len() ==> free@[k].0 < x || (free@[k].0 == x && free@[k].1
                            < y),
                decreases self.board.height - y,
            {
                proof {
                    self.board.lemma_idx_bounds(x as int, y as int);
                    lemma_index_round_trip(
                        self.board.width as int,
                        self.board.height as int,
                        x as int,
                        y as int,
                    );
                }
                if self.board.get_field(x, y) == Obstacle::Empty && !self.snake.occupies(
                    &Segment::new(x as i32, y as i32),
                ) {
                    free.push((x, y));
                }
                p = p + 1;
                y = y + 1;
            }
            proof {
                assert((x + 1) * self.board.height == x * self.board.height + self.board.height
                    && (x + 1) * self.board.height <= self.board.width * self.board.height)
                    by (nonlinear_arith)
                    requires
                        0 <= x,
                        x + 1 <= self.board.width,
                        0 <= self.board.height,
                ;
            }
            x = x + 1;
        }
        free
    }

    /// Collision state of the current snake body against the current board.
    pub fn check_collisions(&self) -> (r: Collision)
        requires
            self.board.wf(),
        ensures
            r == collision_spec(self.board, self.snake.body@),
    {
        let mut i: usize = 0;
        while i < self.snake.body.len()
            invariant
                i <= self.snake.body@.len(),
                forall|k: int| 0 <= k < i ==> self.board.seg_in(self.snake.body@[k]),
            decreases self.snake.body@.len() - i,
        {
            if !self.board.segment_in(&self.snake.body[i]) {
                return Collision::Wall;
            }
            i = i + 1;
        }
        let mut j: usize = 0;
        while j < self.snake.body.len()
            invariant
                self.board.wf(),
                j <= self.snake.body@.len(),
                all_in_board(self.board, self.snake.body@),
                forall|k: int|
                    0 <= k < j ==> !(self.board.cell(
                        self.snake.body@[k].x as int,
                        self.snake.body@[k].y as int,
                    ) is Apple),
            decreases self.snake.body@.len() - j,
        {
            let segment = self.snake.body[j];
            let obstacle = self.board.get_field(segment.x as usize, segment.y as usize);
            if obstacle != Obstacle::Empty {
                return Collision::Obstacle(obstacle);
            }
            j = j + 1;
        }
        if !self.snake.has_unique_segments() {
            return Collision::Snake;
        }
        Collision::Clear
    }

    /// The cell a linear board index denotes.
    pub fn convert_index_to_coords(&self, index: usize) -> (r: (usize, usize))
        requires
            self.board.wf(),
        ensures
            (r.0 as int, r.1 as int) == coords_of_index(
                self.board.width as int,
                self.board.height as int,
                index as int,
            ),
            self.board.in_bounds(r.0 as int, r.1 as int),
    {
        ((index / self.board.height) % self.board.width, index % self.board.height)
    }

    /// Consumes the apple under the snake's head: the cell is cleared and
    /// one segment of growth is queued.
    pub fn snake_eat(&mut self)
        requires
            old(self).board.wf(),
            old(self).snake.wf(),
            old(self).board.seg_in(old(self).snake.body@[0]),
            old(self).board.cell(
                old(self).snake.body@[0].x as int,
                old(self).snake.body@[0].y as int,
            ) is Apple,
            old(self).snake.segments_to_grow_by < usize::MAX,
        ensures
            final(self).board.wf(),
            final(self).board.width == old(self).board.width,
            final(self).board.height == old(self).board.height,
            eat_rel(old(self).board, final(self).board, old(self).snake.body@[0], true),
            final(self).snake.body == old(self).snake.body,
            final(self).snake.segments_to_grow_by == old(self).snake.segments_to_grow_by + 1,
            final(self).main_loop_counter == old(self).main_loop_counter,
            final(self).last_direction == old(self).last_direction,
            final(self).game_over == old(self).game_over,
    {
        let snake_head: Segment = self.snake.body[0];
        self.board.clear_obstacle(snake_head.x as usize, snake_head.y as usize);
        self.snake.grow(1);
    }

    /// One logic tick: resolve the direction (reusing the last accepted one,
    /// and discarding an exact reversal), advance the snake, adjudicate the
    /// collision, eat an apple under the head, remember the direction, and
    /// run the obstacle schedule.  A wall hit or self-collision ends the
    /// session: the state freezes and every later tick reports the same
    /// fatal collision.
    pub fn main_loop(&mut self, snake_move: Option<Direction>) -> (r: Collision)
        requires
            old(self).wf(),
            old(self).main_loop_counter < usize::MAX,
            old(self).snake.body@.len() + old(self).snake.segments_to_grow_by < usize::MAX,
        ensures
            final(self).wf(),
            tick_rel(*old(self), *final(self), snake_move, r),
    {
        if let Some(over) = self.game_over {
            return over;
        }
        let move_direction = match snake_move {
            Some(direction) => Some(direction),
            None => {
                match self.last_direction {
                    Some(direction) => Some(direction),
                    None => None,
                }
            },
        };
        let outcome: Collision;
        if let Some(proposed) = move_direction {
            let mut direction = proposed;
            if let Some(last_direction) = self.last_direction {
                let mut override_direction = false;
                match direction {
                    Direction::Up => {
                        if last_direction == Direction::Down {
                            override_direction = true;
                        }
                    },
                    Direction::Down => {
                        if last_direction == Direction::Up {
                            override_direction = true;
                        }
                    },
                    Direction::Left => {
                        if last_direction == Direction::Right {
                            override_direction = true;
                        }
                    },
                    Direction::Right => {
                        if last_direction == Direction::Left {
                            override_direction = true;
                        }
                    },
                }
                if override_direction {
                    direction = last_direction;
                }
            }
            proof {
                assert(Some(direction) == resolved_direction(snake_move, old(self).last_direction));
                if old(self).snake.body@.len() > 1 {
                    lemma_step_not_back(
                        old(self).last_direction->0,
                        direction,
                        old(self).snake.body@[1],
                    );
                }
            }
            self.snake.move_body(&direction);
            let collision = self.check_collisions();
            match collision {
                Collision::Wall | Collision::Snake => {
                    self.game_over = Some(collision);
                    return collision;
                },
                Collision::Obstacle(_) => {
                    let head: Segment = self.snake.body[0];
                    if self.board.get_field(head.x as usize, head.y as usize)
                        == Obstacle::Apple {
                        self.snake_eat();
                    }
                },
                Collision::Clear => {},
            }
            self.last_direction = Some(direction);
            outcome = collision;
        } else {
            outcome = Collision::Clear;
        }
        let ghost mid_board = self.board;
        self.main_loop_counter = self.main_loop_counter + 1;
        if self.main_loop_counter % OBSTACLE_REGEN_PERIOD == 1 {
            self.generate_obstacles(OBSTACLES_PER_REGEN);
        }
        proof {
            assert(sched_rel(
                mid_board,
                self.board,
                self.snake.body@,
                self.main_loop_counter as int,
            ));
            if move_direction is Some {
                let pre = *old(self);
                let body1 = self.snake.body@;
                let ate = pre.board.cell(body1[0].x as int, body1[0].y as int) is Apple;
                assert(eat_rel(pre.board, mid_board, body1[0], ate));
                assert(board_after_tick(
                    pre.board,
                    self.board,
                    body1,
                    ate,
                    pre.main_loop_counter + 1,
                ));
            }
        }
        outcome
    }
}

/// Stepping from the successor of `s` in any direction other than the exact
/// inverse of the step that produced it cannot land back on `s`.
proof fn lemma_step_not_back(l: Direction, d: Direction, s: Segment)
    requires
        l.can_step(s),
        d.can_step(l.step_spec(s)),
        d != l.opposite_spec(),
    ensures
        d.step_spec(l.step_spec(s)) != s,
{
}

} // verus!
