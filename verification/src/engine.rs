//! The tick engine: body, food, game state and the one-step transition.
//!
//! Each tick computes the candidate next head cell from the current
//! direction, checks collisions in a fixed order — body first, then wall,
//! then food — and either terminates the session, grows the body, or moves
//! it. A lethal collision is absorbing: no transition leaves `Terminated`.

use crate::area::GameArea;
use crate::collision::CollisionDetector;
use crate::point::{get_next_point, next_point_spec, Direction};
use crate::queue::{lemma_prepend_contains_all, LookupPointQueue};
use crate::rng::sample_range;
use vstd::prelude::*;

verus! {

broadcast use vstd::seq_lib::group_seq_properties;

/// The moving body: its ordered occupied-cell history, head first, with a
/// constant-time membership test.
#[derive(Debug)]
pub struct SnakeState {
    pub lq: LookupPointQueue,
}

impl CollisionDetector for SnakeState {
    open spec fn inv(&self) -> bool {
        self.lq.wf()
    }

    /// A cell collides with the body iff the body occupies it.
    open spec fn hits(&self, point: (u16, u16)) -> bool {
        self.lq@.contains(point)
    }

    fn has_collision(&self, point: &(u16, u16)) -> (r: bool) {
        self.lq.lookup(point)
    }
}

/// The edible cells: normally exactly one, empty only once no free interior
/// cell is left to spawn on.
#[derive(Debug)]
pub struct FoodState {
    pub lq: LookupPointQueue,
}

impl CollisionDetector for FoodState {
    open spec fn inv(&self) -> bool {
        self.lq.wf()
    }

    /// A cell collides with the food iff food stands on it.
    open spec fn hits(&self, point: (u16, u16)) -> bool {
        self.lq@.contains(point)
    }

    fn has_collision(&self, point: &(u16, u16)) -> (r: bool) {
        self.lq.lookup(point)
    }
}

/// A cell on which food may stand while the body occupies `body`: strictly
/// inside the area and off the body.
pub open spec fn open_cell(area: GameArea, body: Seq<(u16, u16)>, p: (u16, u16)) -> bool {
    !area.hits(p) && !body.contains(p)
}

/// A cell on which food may spawn right now: strictly inside the area, on
/// neither the body nor the food already present.
pub open spec fn spawn_free(
    area: GameArea,
    snake: SnakeState,
    food: FoodState,
    p: (u16, u16),
) -> bool {
    open_cell(area, snake.lq@, p) && !food.hits(p)
}

impl FoodState {
    /// Picks a cell for new food: a bounded number of uniform samples from
    /// the area's interior, rejected while they collide with the body or the
    /// existing food, then a direct scan of the interior; returns nothing
    /// only when the board has no free cell at all.
    pub fn spawn(&self, area: &GameArea, snake: &SnakeState) -> (r: Option<(u16, u16)>)
        requires
            self.inv(),
            snake.inv(),
        ensures
            match r {
                Some(p) => spawn_free(*area, *snake, *self, p),
                None => forall|p: (u16, u16)| !spawn_free(*area, *snake, *self, p),
            },
    {
        let (x0, y0) = area.from;
        let (xn, yn) = area.to;
        if (x0 as u32) + 1 >= (xn as u32) || (y0 as u32) + 1 >= (yn as u32) {
            // the interior is empty: every cell collides with the area
            return None;
        }
        let mut attempts: usize = 0;
        while attempts < 64
            invariant
                snake.inv(),
                self.inv(),
                x0 == area.from.0,
                y0 == area.from.1,
                xn == area.to.0,
                yn == area.to.1,
                (x0 as u32) + 1 < (xn as u32),
                (y0 as u32) + 1 < (yn as u32),
            decreases 64 - attempts,
        {
            let x = sample_range(x0 + 1, xn);
            let y = sample_range(y0 + 1, yn);
            let p = (x, y);
            if !snake.has_collision(&p) && !self.has_collision(&p) {
                return Some(p);
            }
            attempts = attempts + 1;
        }
        // the samples all collided: scan the interior for the first free cell
        let mut x: u16 = x0 + 1;
        while x < xn
            invariant
                snake.inv(),
                self.inv(),
                x0 == area.from.0,
                y0 == area.from.1,
                xn == area.to.0,
                yn == area.to.1,
                (y0 as u32) + 1 < (yn as u32),
                x0 < x <= xn,
                forall|p: (u16, u16)|
                    x0 < p.0 < x && y0 < p.1 < yn ==> !#[trigger] spawn_free(
                        *area,
                        *snake,
                        *self,
                        p,
                    ),
            decreases xn - x,
        {
            let mut y: u16 = y0 + 1;
            while y < yn
                invariant
                    snake.inv(),
                    self.inv(),
                    x0 == area.from.0,
                    y0 == area.from.1,
                    xn == area.to.0,
                    yn == area.to.1,
                    x0 < x < xn,
                    y0 < y <= yn,
                    forall|p: (u16, u16)|
                        x0 < p.0 < x && y0 < p.1 < yn ==> !#[trigger] spawn_free(
                            *area,
                            *snake,
                            *self,
                            p,
                        ),
                    forall|p: (u16, u16)|
                        p.0 == x && y0 < p.1 < y ==> !#[trigger] spawn_free(*area, *snake, *self, p),
                decreases yn - y,
            {
                let p = (x, y);
                if !snake.has_collision(&p) && !self.has_collision(&p) {
                    return Some(p);
                }
                y = y + 1;
            }
            x = x + 1;
        }
        proof {
            assert forall|p: (u16, u16)| !spawn_free(*area, *snake, *self, p) by {
                if !area.hits(p) {
                    assert(x0 < p.0 < xn && y0 < p.1 < yn);
                }
            }
        }
        None
    }

    /// Removes the single food cell `cell` and hands it back; the caller is
    /// responsible for respawning.
    pub fn consume(&mut self, cell: &(u16, u16)) -> (r: (u16, u16))
        requires
            old(self).inv(),
            old(self).lq@.len() <= 1,
            old(self).hits(*cell),
        ensures
            final(self).inv(),
            r == *cell,
            final(self).lq@ == Seq::<(u16, u16)>::empty(),
    {
        proof {
            assert(old(self).lq@.len() == 1);
            assert(old(self).lq@.last() == *cell);
            assert(old(self).lq@.drop_last() =~= Seq::<(u16, u16)>::empty());
        }
        let popped = self.lq.pop();
        popped.unwrap()
    }
}

/// Why a session ended.
#[derive(Clone, Copy, Debug, PartialEq, Eq, Structural)]
pub enum TerminationReason {
    SelfCollision,
    WallCollision,
}

/// Whether the session is still running; `Terminated` is absorbing.
#[derive(Clone, Copy, Debug, PartialEq, Eq, Structural)]
pub enum GameStatus {
    Running,
    Terminated(TerminationReason),
}

/// The whole mutable state of one session: area, body, food, current
/// heading, and the machine status.
#[derive(Debug)]
pub struct GameState {
    pub area: GameArea,
    pub snake: SnakeState,
    pub food: FoodState,
    pub direction: Direction,
    pub status: GameStatus,
}

/// The body sequence after one plain move in direction `d`: the next head in
/// front, the tail dropped.
pub open spec fn move_step(body: Seq<(u16, u16)>, d: Direction) -> Seq<(u16, u16)>
    recommends
        body.len() > 0,
{
    body.insert(0, next_point_spec(body[0], d)).drop_last()
}

/// The body sequence after a run of plain moves, one per direction in
/// `dirs`, in order.
pub open spec fn run_moves(body: Seq<(u16, u16)>, dirs: Seq<Direction>) -> Seq<(u16, u16)>
    decreases dirs.len(),
{
    if dirs.len() == 0 {
        body
    } else {
        run_moves(move_step(body, dirs[0]), dirs.skip(1))
    }
}

impl GameState {
    /// The engine's invariant between ticks: a well-formed area, well-formed
    /// body and food stores, a non-empty body, at most one food cell.
    pub open spec fn inv(self) -> bool {
        &&& self.area.wf()
        &&& self.snake.lq.wf()
        &&& self.food.lq.wf()
        &&& self.snake.lq@.len() > 0
        &&& self.food.lq@.len() <= 1
    }

    /// The current head cell.
    pub open spec fn head_spec(self) -> (u16, u16) {
        self.snake.lq@[0]
    }

    /// The candidate next head cell: the head advanced one step in the
    /// current direction.
    pub open spec fn next_head(self) -> (u16, u16) {
        next_point_spec(self.head_spec(), self.direction)
    }
}

/// How one tick carries `pre` to `post`. `Terminated` is absorbing. From
/// `Running`, the candidate next head is checked against the body first,
/// then the wall, then the food: a lethal hit terminates the session with
/// its reason and mutates nothing; a food hit grows the body by the new head
/// and respawns the food on a free cell (none is left only when the board is
/// full); otherwise the body moves, pushing the head and dropping the tail.
pub open spec fn tick_rel(pre: GameState, post: GameState) -> bool {
    &&& post.area == pre.area
    &&& post.direction == pre.direction
    &&& (pre.status is Terminated ==> post == pre)
    &&& (pre.status is Running ==> {
        let next = pre.next_head();
        if pre.snake.hits(next) {
            &&& post.status == GameStatus::Terminated(TerminationReason::SelfCollision)
            &&& post.snake.lq@ == pre.snake.lq@
            &&& post.food.lq@ == pre.food.lq@
        } else if pre.area.hits(next) {
            &&& post.status == GameStatus::Terminated(TerminationReason::WallCollision)
            &&& post.snake.lq@ == pre.snake.lq@
            &&& post.food.lq@ == pre.food.lq@
        } else if pre.food.hits(next) {
            &&& post.status == GameStatus::Running
            &&& post.snake.lq@ == pre.snake.lq@.insert(0, next)
            &&& !post.food.lq@.contains(next)
            &&& ((exists|p: (u16, u16)| #[trigger]
                open_cell(pre.area, pre.snake.lq@.insert(0, next), p)) ==> (post.food.lq@.len()
                == 1 && open_cell(pre.area, post.snake.lq@, post.food.lq@[0])))
            &&& (!(exists|p: (u16, u16)| #[trigger]
                open_cell(pre.area, pre.snake.lq@.insert(0, next), p)) ==> post.food.lq@.len()
                == 0)
        } else {
            &&& post.status == GameStatus::Running
            &&& post.snake.lq@ == move_step(pre.snake.lq@, pre.direction)
            &&& post.food.lq@ == pre.food.lq@
        }
    })
}

impl GameState {
    /// A fresh running session: the body is the one seed cell, the food is
    /// spawned on a free cell when one exists, the heading is `direction`.
    pub fn new(area: GameArea, seed: (u16, u16), direction: Direction) -> (r: GameState)
        requires
            area.wf(),
        ensures
            r.inv(),
            r.area == area,
            r.direction == direction,
            r.status == GameStatus::Running,
            r.snake.lq@ =~= seq![seed],
            (exists|p: (u16, u16)| #[trigger] open_cell(area, seq![seed], p)) ==> (r.food.lq@.len()
                == 1 && open_cell(area, seq![seed], r.food.lq@[0])),
            !(exists|p: (u16, u16)| #[trigger] open_cell(area, seq![seed], p)) ==> r.food.lq@.len()
                == 0,
    {
        let seeds = vec![seed];
        let snake = SnakeState { lq: LookupPointQueue::new(&seeds) };
        let mut food = FoodState { lq: LookupPointQueue::new(&Vec::new()) };
        let spawned = food.spawn(&area, &snake);
        match spawned {
            Some(p) => {
                proof {
                    lemma_prepend_contains_all(food.lq@, p);
                    Seq::<(u16, u16)>::empty().insert_ensures(0, p);
                }
                food.lq.push(&p);
                proof {
                    assert(snake.lq@ =~= seq![seed]);
                    assert(food.lq@[0] == p);
                    assert(open_cell(area, seq![seed], p));
                }
            },
            None => {
                proof {
                    assert(snake.lq@ =~= seq![seed]);
                    assert forall|p: (u16, u16)| #[trigger]
                        open_cell(area, seq![seed], p) implies false by {
                        assert(!spawn_free(area, snake, food, p));
                    }
                }
            },
        }
        GameState { area, snake, food, direction, status: GameStatus::Running }
    }

    /// One discrete step of the state machine.
    pub fn tick(&mut self)
        requires
            old(self).inv(),
        ensures
            final(self).inv(),
            tick_rel(*old(self), *final(self)),
    {
        match self.status {
            GameStatus::Terminated(_) => {},
            GameStatus::Running => {
                let head = self.snake.lq.head().unwrap();
                let next = get_next_point(&head, &self.direction);
                if self.snake.has_collision(&next) {
                    self.status = GameStatus::Terminated(TerminationReason::SelfCollision);
                    return;
                }
                if self.area.has_collision(&next) {
                    self.status = GameStatus::Terminated(TerminationReason::WallCollision);
                    return;
                }
                let ate = self.food.has_collision(&next);
                self.snake.lq.push(&next);
                if ate {
                    self.food.consume(&next);
                    let spawned = self.food.spawn(&self.area, &self.snake);
                    match spawned {
                        Some(p) => {
                            proof {
                                lemma_prepend_contains_all(self.food.lq@, p);
                            }
                            self.food.lq.push(&p);
                        },
                        None => {
                            proof {
                                assert forall|p: (u16, u16)| #[trigger]
                                    open_cell(
                                        old(self).area,
                                        old(self).snake.lq@.insert(0, next),
                                        p,
                                    ) implies false by {
                                    assert(!spawn_free(self.area, self.snake, self.food, p));
                                }
                            }
                        },
                    }
                } else {
                    self.snake.lq.pop();
                }
            },
        }
    }
}

/// The glyph class of one rendered cell; an external renderer maps each
/// class to its styled character.
#[derive(Clone, Copy, Debug, PartialEq, Eq, Structural)]
pub enum CellGlyph {
    SnakeHead,
    SnakeBody,
    Wall,
    Food,
}

impl GameState {
    /// The render projection: a pure listing of every cell to draw this tick
    /// with its glyph class — the body cells in order with the head
    /// distinguished, then every wall cell of the area's perimeter, then the
    /// food cells. Each write targets a distinct cell, so only the grouping,
    /// not the order, matters to the drawing.
    pub fn render(&self) -> (r: Vec<((u16, u16), CellGlyph)>)
        requires
            self.inv(),
        ensures
            ({
                let n = self.snake.lq@.len();
                let m = self.food.lq@.len();
                &&& r@.len() >= n + m
                &&& forall|i: int|
                    0 <= i < n ==> #[trigger] r@[i] == (
                        self.snake.lq@[i],
                        if i == 0 {
                            CellGlyph::SnakeHead
                        } else {
                            CellGlyph::SnakeBody
                        },
                    )
                &&& forall|j: int|
                    n <= j < r@.len() - m ==> (#[trigger] r@[j]).1 == CellGlyph::Wall
                        && self.area.on_boundary(r@[j].0)
                &&& forall|p: (u16, u16)|
                    self.area.on_boundary(p) ==> exists|j: int|
                        #![trigger r@[j]]
                        n <= j < r@.len() - m && r@[j].0 == p
                &&& forall|k: int|
                    r@.len() - m <= k < r@.len() ==> #[trigger] r@[k] == (
                        self.food.lq@[k - (r@.len() - m)],
                        CellGlyph::Food,
                    )
            }),
    {
        let mut r: Vec<((u16, u16), CellGlyph)> = Vec::new();
        let n = self.snake.lq.len();
        let mut i: usize = 0;
        while i < n
            invariant
                n == self.snake.lq@.len(),
                i <= n,
                r@.len() == i,
                forall|t: int|
                    0 <= t < i ==> #[trigger] r@[t] == (
                        self.snake.lq@[t],
                        if t == 0 {
                            CellGlyph::SnakeHead
                        } else {
                            CellGlyph::SnakeBody
                        },
                    ),
            decreases n - i,
        {
            let p = self.snake.lq.get(i);
            let g = if i == 0 {
                CellGlyph::SnakeHead
            } else {
                CellGlyph::SnakeBody
            };
            r.push((p, g));
            i = i + 1;
        }
        let walls = self.area.boundary_points();
        let mut j: usize = 0;
        while j < walls.len()
            invariant
                n == self.snake.lq@.len(),
                j <= walls@.len(),
                r@.len() == n + j,
                forall|t: int|
                    0 <= t < n ==> #[trigger] r@[t] == (
                        self.snake.lq@[t],
                        if t == 0 {
                            CellGlyph::SnakeHead
                        } else {
                            CellGlyph::SnakeBody
                        },
                    ),
                forall|t: int| 0 <= t < j ==> #[trigger] r@[n + t] == (walls@[t], CellGlyph::Wall),
            decreases walls@.len() - j,
        {
            let w = walls[j];
            r.push((w, CellGlyph::Wall));
            j = j + 1;
        }
        let nw = r.len();
        let m = self.food.lq.len();
        let mut k: usize = 0;
        while k < m
            invariant
                m == self.food.lq@.len(),
                k <= m,
                nw == n + walls@.len(),
                r@.len() == nw + k,
                n == self.snake.lq@.len(),
                forall|t: int|
                    0 <= t < n ==> #[trigger] r@[t] == (
                        self.snake.lq@[t],
                        if t == 0 {
                            CellGlyph::SnakeHead
                        } else {
                            CellGlyph::SnakeBody
                        },
                    ),
                forall|t: int| 0 <= t < walls@.len() ==> #[trigger] r@[n + t] == (
                    walls@[t],
                    CellGlyph::Wall,
                ),
                forall|t: int| 0 <= t < k ==> #[trigger] r@[nw + t] == (
                    self.food.lq@[t],
                    CellGlyph::Food,
                ),
            decreases m - k,
        {
            let f = self.food.lq.get(k);
            r.push((f, CellGlyph::Food));
            k = k + 1;
        }
        proof {
            assert forall|j2: int| n <= j2 < r@.len() - m implies (r@[j2]).1 == CellGlyph::Wall
                && self.area.on_boundary(r@[j2].0) by {
                let t = j2 - n;
                assert(r@[n + t] == (walls@[t], CellGlyph::Wall));
                assert(walls@.contains(walls@[t]));
            }
            assert forall|p: (u16, u16)| self.area.on_boundary(p) implies exists|j2: int|
                #![trigger r@[j2]]
                n <= j2 < r@.len() - m && r@[j2].0 == p by {
                assert(walls@.contains(p));
                let t = choose|t: int| 0 <= t < walls@.len() && walls@[t] == p;
                assert(r@[n + t] == (walls@[t], CellGlyph::Wall));
                assert(r@[n + t].0 == p);
            }
            assert forall|k2: int| r@.len() - m <= k2 < r@.len() implies r@[k2] == (
                self.food.lq@[k2 - (r@.len() - m)],
                CellGlyph::Food,
            ) by {
                let t = k2 - nw;
                assert(r@[nw + t] == (self.food.lq@[t], CellGlyph::Food));
            }
        }
        r
    }
}

/// Law: a run of plain moves never changes the body's length, and the head
/// it produces is the starting head advanced once per direction, in order.
pub proof fn lemma_moves_keep_length_and_advance_head(body: Seq<(u16, u16)>, dirs: Seq<Direction>)
    requires
        body.len() > 0,
    ensures
        run_moves(body, dirs).len() == body.len(),
        run_moves(body, dirs)[0] == crate::point::advance_n(body[0], dirs),
    decreases dirs.len(),
{
    if dirs.len() == 0 {
    } else {
        let next = next_point_spec(body[0], dirs[0]);
        body.insert_ensures(0, next);
        let stepped = move_step(body, dirs[0]);
        assert(stepped.len() == body.len());
        assert(stepped[0] == next);
        lemma_moves_keep_length_and_advance_head(stepped, dirs.skip(1));
    }
}

/// The direction each state of a run is heading in, one entry per tick
/// taken.
pub open spec fn run_directions(states: Seq<GameState>) -> Seq<Direction>
    recommends
        states.len() > 0,
{
    Seq::new((states.len() - 1) as nat, |i: int| states[i].direction)
}

/// Law: across any chain of ticks in which nothing collides and no food is
/// consumed, the body's length never changes, and the final head is the
/// initial head advanced once per tick by the direction deltas, in order,
/// saturated at the grid bounds.
pub proof fn lemma_deterministic_run(states: Seq<GameState>)
    requires
        states.len() > 0,
        states[0].snake.lq@.len() > 0,
        forall|i: int|
            #![trigger states[i]]
            0 <= i < states.len() - 1 ==> {
                &&& tick_rel(states[i], states[i + 1])
                &&& states[i].status == GameStatus::Running
                &&& !states[i].snake.hits(states[i].next_head())
                &&& !states[i].area.hits(states[i].next_head())
                &&& !states[i].food.hits(states[i].next_head())
            },
    ensures
        states.last().snake.lq@ == run_moves(states[0].snake.lq@, run_directions(states)),
        states.last().snake.lq@.len() == states[0].snake.lq@.len(),
        states.last().head_spec() == crate::point::advance_n(
            states[0].head_spec(),
            run_directions(states),
        ),
    decreases states.len(),
{
    let dirs = run_directions(states);
    if states.len() == 1 {
        assert(dirs =~= Seq::<Direction>::empty());
    } else {
        assert(tick_rel(states[0], states[1]));
        assert(states[1].snake.lq@ == move_step(states[0].snake.lq@, states[0].direction));
        states[0].snake.lq@.insert_ensures(0, states[0].next_head());
        let rest = states.skip(1);
        assert forall|i: int|
            #![trigger rest[i]]
            0 <= i < rest.len() - 1 implies {
            &&& tick_rel(rest[i], rest[i + 1])
            &&& rest[i].status == GameStatus::Running
            &&& !rest[i].snake.hits(rest[i].next_head())
            &&& !rest[i].area.hits(rest[i].next_head())
            &&& !rest[i].food.hits(rest[i].next_head())
        } by {
            assert(rest[i] == states[i + 1]);
            assert(rest[i + 1] == states[i + 2]);
            assert(tick_rel(states[i + 1], states[i + 2]));
        }
        lemma_deterministic_run(rest);
        assert(run_directions(rest) =~= dirs.skip(1));
        assert(dirs[0] == states[0].direction);
        assert(states.last() == rest.last());
    }
    lemma_moves_keep_length_and_advance_head(states[0].snake.lq@, dirs);
}

/// Law: when the candidate next head lies inside the body, the tick ends the
/// session with a self collision and leaves body and food untouched.
pub proof fn lemma_self_collision_terminates(pre: GameState, post: GameState)
    requires
        tick_rel(pre, post),
        pre.status == GameStatus::Running,
        pre.snake.hits(pre.next_head()),
    ensures
        post.status == GameStatus::Terminated(TerminationReason::SelfCollision),
        post.snake.lq@ == pre.snake.lq@,
        post.food.lq@ == pre.food.lq@,
{
}

/// Law: eating grows the body by exactly one cell in the same tick, removes
/// the eaten cell from the food, and, as long as the board still has a free
/// cell, leaves a new food cell distinct from the eaten one in place.
pub proof fn lemma_growth_on_food(pre: GameState, post: GameState)
    requires
        pre.inv(),
        tick_rel(pre, post),
        pre.status == GameStatus::Running,
        !pre.snake.hits(pre.next_head()),
        !pre.area.hits(pre.next_head()),
        pre.food.hits(pre.next_head()),
    ensures
        post.snake.lq@.len() == pre.snake.lq@.len() + 1,
        !post.food.lq@.contains(pre.next_head()),
        (exists|p: (u16, u16)| #[trigger] open_cell(pre.area, post.snake.lq@, p)) ==> (
        post.food.lq@.len() == 1 && post.food.lq@[0] != pre.next_head()),
{
    let next = pre.next_head();
    pre.snake.lq@.insert_ensures(0, next);
    assert(post.snake.lq@.len() == pre.snake.lq@.len() + 1);
    if exists|p: (u16, u16)| #[trigger] open_cell(pre.area, post.snake.lq@, p) {
        assert(open_cell(pre.area, post.snake.lq@, post.food.lq@[0]));
        assert(post.snake.lq@[0] == next);
        assert(post.snake.lq@.contains(next));
    }
}

} // verus!
