//! The match engine: grid cells, players, movement, collisions and scoring.

use std::collections::VecDeque;
use vstd::prelude::*;

verus! {

/// Match progress: waiting for joins, running, or over.
#[derive(Debug, Clone, Copy, PartialEq, Eq, Structural)]
pub enum GameStatus {
    WaitingForPlayers,
    Running,
    Finished,
}

/// A player in a match: position, facing, trail history and bookkeeping.
#[derive(Debug, Clone)]
pub struct Player {
    pub name: String,
    pub x: i32,
    pub y: i32,
    pub direction: Direction,
    pub alive: bool,
    pub trail: VecDeque<(i32, i32)>,
    pub distance_traveled: u32,
    pub score: u32,
    pub pending_action: Option<SteerAction>,
}

/// Cell types on the game grid.
#[derive(Debug, Clone, Copy, PartialEq, Eq, Structural)]
pub enum Cell {
    Empty,
    Wall,
    Obstruction,
    /// A trail marker tagged with the index of the player that laid it.
    Trail(usize),
}

/// Movement direction.
#[derive(Debug, Clone, Copy, PartialEq, Eq, Structural)]
pub enum Direction {
    Up,
    Down,
    Left,
    Right,
}

/// A steering command submitted by a player.
#[derive(Debug, Clone, Copy, PartialEq, Eq, Structural)]
pub enum SteerAction {
    Left,
    Right,
    Straight,
}

/// What `turn_left` returns: one step along the cycle Up, Left, Down, Right.
pub open spec fn spec_turn_left(d: Direction) -> Direction {
    match d {
        Direction::Up => Direction::Left,
        Direction::Left => Direction::Down,
        Direction::Down => Direction::Right,
        Direction::Right => Direction::Up,
    }
}

/// What `turn_right` returns: one step along the cycle Up, Right, Down, Left.
pub open spec fn spec_turn_right(d: Direction) -> Direction {
    match d {
        Direction::Up => Direction::Right,
        Direction::Right => Direction::Down,
        Direction::Down => Direction::Left,
        Direction::Left => Direction::Up,
    }
}

/// The unit step (dx, dy) for a facing; y grows downward.
pub open spec fn spec_delta(d: Direction) -> (int, int) {
    match d {
        Direction::Up => (0, -1),
        Direction::Down => (0, 1),
        Direction::Left => (-1, 0),
        Direction::Right => (1, 0),
    }
}

/// The compass word shown to players for a facing.
pub open spec fn spec_direction_name(d: Direction) -> Seq<char> {
    match d {
        Direction::Up => "NORTH"@,
        Direction::Down => "SOUTH"@,
        Direction::Left => "WEST"@,
        Direction::Right => "EAST"@,
    }
}

impl Direction {
    pub fn turn_left(self) -> (r: Self)
        ensures
            r == spec_turn_left(self),
    {
        match self {
            Direction::Up => Direction::Left,
            Direction::Left => Direction::Down,
            Direction::Down => Direction::Right,
            Direction::Right => Direction::Up,
        }
    }

    pub fn turn_right(self) -> (r: Self)
        ensures
            r == spec_turn_right(self),
    {
        match self {
            Direction::Up => Direction::Right,
            Direction::Right => Direction::Down,
            Direction::Down => Direction::Left,
            Direction::Left => Direction::Up,
        }
    }

    pub fn delta(self) -> (r: (i32, i32))
        ensures
            (r.0 as int, r.1 as int) == spec_delta(self),
    {
        match self {
            Direction::Up => (0, -1),
            Direction::Down => (0, 1),
            Direction::Left => (-1, 0),
            Direction::Right => (1, 0),
        }
    }

    pub fn name(self) -> (r: &'static str)
        ensures
            r@ == spec_direction_name(self),
    {
        match self {
            Direction::Up => "NORTH",
            Direction::Down => "SOUTH",
            Direction::Left => "WEST",
            Direction::Right => "EAST",
        }
    }
}

/// Four left turns bring a facing back to itself.
pub proof fn lemma_turn_left_four_is_identity(d: Direction)
    ensures
        spec_turn_left(spec_turn_left(spec_turn_left(spec_turn_left(d)))) == d,
{
}

/// A left turn followed by a right turn restores the facing, and vice versa.
pub proof fn lemma_turn_left_right_is_identity(d: Direction)
    ensures
        spec_turn_right(spec_turn_left(d)) == d,
        spec_turn_left(spec_turn_right(d)) == d,
{
}

/// A match instance: the grid, the players, and the match state machine.
#[derive(Debug, Clone)]
pub struct Game {
    pub id: u64,
    pub grid: Vec<Vec<Cell>>,
    pub width: usize,
    pub height: usize,
    pub players: Vec<Player>,
    pub status: GameStatus,
    pub tick: u32,
    pub max_trail_length: usize,
    pub course_name: String,
    pub course_level: u32,
    pub winner: Option<usize>,
    /// Creation time, milliseconds since the Unix epoch.
    pub created_at: i64,
    /// Finish time, milliseconds since the Unix epoch; set exactly when the
    /// match finishes.
    pub finished_at: Option<i64>,
}

/// The fixed spawn table: four corners set back three cells from the border
/// and four edge midpoints, each with a preset inward facing.
pub open spec fn spec_spawn(w: int, h: int, i: int) -> (int, int, Direction) {
    if i == 0 {
        (3, 3, Direction::Right)
    } else if i == 1 {
        (w - 4, h - 4, Direction::Left)
    } else if i == 2 {
        (w - 4, 3, Direction::Down)
    } else if i == 3 {
        (3, h - 4, Direction::Up)
    } else if i == 4 {
        (w / 2, 3, Direction::Down)
    } else if i == 5 {
        (3, h / 2, Direction::Right)
    } else if i == 6 {
        (w - 4, h / 2, Direction::Left)
    } else {
        (w / 2, h - 4, Direction::Up)
    }
}

/// Player `i` still sits untouched on its spawn cell (true for every player
/// before the match starts).
pub open spec fn is_spawn_player(g: Game, i: int) -> bool {
    let p = g.players@[i];
    let s = spec_spawn(g.width as int, g.height as int, i);
    &&& p.x as int == s.0
    &&& p.y as int == s.1
    &&& p.direction == s.2
    &&& p.alive
    &&& p.trail@.len() == 0
    &&& p.distance_traveled == 0
    &&& p.score == 0
}

/// Player `i` claims cell (x, y): it stands there or its trail covers it.
pub open spec fn owns_cell(g: Game, i: int, x: int, y: int) -> bool {
    let p = g.players@[i];
    ||| (p.x as int == x && p.y as int == y)
    ||| exists|k: int|
        0 <= k < p.trail@.len() && #[trigger] p.trail@[k].0 as int == x && p.trail@[k].1 as int
            == y
}

impl Game {
    pub open spec fn in_bounds(self, x: int, y: int) -> bool {
        0 <= x < self.width && 0 <= y < self.height
    }

    pub open spec fn cell_at(self, x: int, y: int) -> Cell {
        self.grid@[y]@[x]
    }

    /// The grid is a height-by-width matrix and the board is big enough for
    /// the spawn table (all eight spawn cells interior and distinct) while
    /// coordinates still fit in `i32`.
    pub open spec fn grid_wf(self) -> bool {
        &&& self.grid@.len() == self.height
        &&& forall|y: int|
            0 <= y < self.height ==> (#[trigger] self.grid@[y])@.len() == self.width
        &&& 9 <= self.width <= 0x7fff_ffff
        &&& 9 <= self.height <= 0x7fff_ffff
    }

    /// Positional sanity of player `i`: on the board, trail on the board and
    /// within the course cap.
    pub open spec fn player_wf(self, i: int) -> bool {
        let p = self.players@[i];
        &&& self.in_bounds(p.x as int, p.y as int)
        &&& p.trail@.len() <= self.max_trail_length
        &&& forall|k: int|
            0 <= k < p.trail@.len() ==> self.in_bounds(
                #[trigger] p.trail@[k].0 as int,
                p.trail@[k].1 as int,
            )
    }

    /// The trail of player `i` lists pairwise distinct cells, none of them
    /// the cell the player stands on.
    pub open spec fn trail_distinct(self, i: int) -> bool {
        let p = self.players@[i];
        &&& forall|k1: int, k2: int|
            0 <= k1 < k2 < p.trail@.len() ==> !(#[trigger] p.trail@[k1].0 == #[trigger] p.trail@[k2].0
                && p.trail@[k1].1 == p.trail@[k2].1)
        &&& forall|k: int|
            0 <= k < p.trail@.len() ==> !(#[trigger] p.trail@[k].0 == p.x && p.trail@[k].1 == p.y)
    }

    /// The grid and the players agree: a cell shows `Trail(i)` exactly when
    /// player `i` claims it.
    pub open spec fn trails_wf(self) -> bool {
        &&& forall|x: int, y: int|
            self.in_bounds(x, y) ==> match #[trigger] self.cell_at(x, y) {
                Cell::Trail(k) => k < self.players@.len() && owns_cell(self, k as int, x, y),
                _ => true,
            }
        &&& forall|x: int, y: int, i: int|
            self.in_bounds(x, y) && 0 <= i < self.players@.len() && #[trigger] owns_cell(
                self,
                i,
                x,
                y,
            ) ==> self.cell_at(x, y) == Cell::Trail(i as usize)
    }

    /// No cell of the grid shows any trail marker.
    pub open spec fn no_trails(self) -> bool {
        forall|x: int, y: int|
            self.in_bounds(x, y) ==> !(#[trigger] self.cell_at(x, y) matches Cell::Trail(_))
    }

    /// Well-formedness: every operation of the engine preserves it.
    pub open spec fn wf(self) -> bool {
        &&& self.grid_wf()
        &&& self.players@.len() <= 8
        &&& forall|i: int| 0 <= i < self.players@.len() ==> self.player_wf(i)
        &&& forall|i: int| 0 <= i < self.players@.len() ==> self.trail_distinct(i)
        &&& match self.status {
            GameStatus::WaitingForPlayers => {
                &&& self.tick == 0
                &&& self.winner is None
                &&& self.finished_at is None
                &&& self.no_trails()
                &&& forall|i: int| 0 <= i < self.players@.len() ==> is_spawn_player(self, i)
            },
            GameStatus::Running => {
                &&& self.winner is None
                &&& self.finished_at is None
                &&& self.trails_wf()
            },
            GameStatus::Finished => {
                &&& self.finished_at is Some
                &&& (self.winner matches Some(w) ==> w < self.players@.len())
                &&& self.trails_wf()
            },
        }
    }
}

/// Relies on chrono's Utc::now, converted to milliseconds since the Unix
/// epoch by DateTime::timestamp_millis. Nothing is promised of the result:
/// the system clock may say anything.
#[verifier::external_body]
fn now_millis() -> i64 {
    chrono::Utc::now().timestamp_millis()
}

/// Everything of the two games agrees except possibly the player list.
pub open spec fn same_game_except_players(a: Game, b: Game) -> bool {
    &&& a.id == b.id
    &&& a.grid == b.grid
    &&& a.width == b.width
    &&& a.height == b.height
    &&& a.status == b.status
    &&& a.tick == b.tick
    &&& a.max_trail_length == b.max_trail_length
    &&& a.course_name == b.course_name
    &&& a.course_level == b.course_level
    &&& a.winner == b.winner
    &&& a.created_at == b.created_at
    &&& a.finished_at == b.finished_at
}

/// On a board at least nine cells wide and high, the eight spawn cells are
/// pairwise distinct.
pub proof fn lemma_spawns_distinct(w: int, h: int)
    requires
        9 <= w,
        9 <= h,
    ensures
        forall|i: int, j: int|
            0 <= i < j < 8 ==> !(#[trigger] spec_spawn(w, h, i).0 == #[trigger] spec_spawn(
                w,
                h,
                j,
            ).0 && spec_spawn(w, h, i).1 == spec_spawn(w, h, j).1),
{
    assert(4 <= w / 2 && w / 2 <= w - 5);
    assert(4 <= h / 2 && h / 2 <= h - 5);
}

/// Player `q` stands where `p` stands, drags the same trail, and is alive
/// exactly when `p` is: the fields the board cares about.
pub open spec fn same_geometry(p: Player, q: Player) -> bool {
    &&& q.x == p.x
    &&& q.y == p.y
    &&& q.trail@ == p.trail@
    &&& q.alive == p.alive
    &&& q.direction == p.direction
    &&& q.distance_traveled == p.distance_traveled
    &&& q.score == p.score
}

/// Well-formedness does not depend on names or pending commands: it carries
/// over to a game whose players differ only in those fields.
pub proof fn lemma_wf_same_geometry(a: Game, b: Game)
    requires
        a.wf(),
        b.grid == a.grid,
        b.width == a.width,
        b.height == a.height,
        b.status == a.status,
        b.tick == a.tick,
        b.max_trail_length == a.max_trail_length,
        b.winner == a.winner,
        b.finished_at == a.finished_at,
        b.players@.len() == a.players@.len(),
        forall|i: int|
            0 <= i < a.players@.len() ==> same_geometry(
                #[trigger] a.players@[i],
                b.players@[i],
            ),
    ensures
        b.wf(),
{
    assert forall|i: int| 0 <= i < b.players@.len() implies b.player_wf(i) by {
        assert(a.player_wf(i));
    }
    assert forall|i: int| 0 <= i < b.players@.len() implies b.trail_distinct(i) by {
        assert(a.trail_distinct(i));
    }
    assert(b.grid@ == a.grid@);
    if b.status == GameStatus::WaitingForPlayers {
        assert forall|i: int| 0 <= i < b.players@.len() implies is_spawn_player(b, i) by {
            assert(is_spawn_player(a, i));
            assert(same_geometry(a.players@[i], b.players@[i]));
        }
        assert(b.no_trails()) by {
            assert forall|x: int, y: int| b.in_bounds(x, y) implies !(#[trigger] b.cell_at(x, y)
                matches Cell::Trail(_)) by {
                assert(b.cell_at(x, y) == a.cell_at(x, y));
            }
        }
    } else {
        assert(a.trails_wf());
        assert forall|x: int, y: int| b.in_bounds(x, y) implies match b.cell_at(x, y) {
            Cell::Trail(k) => k < b.players@.len() && owns_cell(b, k as int, x, y),
            _ => true,
        } by {
            assert(b.cell_at(x, y) == a.cell_at(x, y));
            match a.cell_at(x, y) {
                Cell::Trail(k) => {
                    assert(owns_cell(a, k as int, x, y));
                    assert(same_geometry(a.players@[k as int], b.players@[k as int]));
                },
                _ => {},
            }
        }
        assert forall|x: int, y: int, i: int|
            b.in_bounds(x, y) && 0 <= i < b.players@.len() && #[trigger] owns_cell(
            b,
            i,
            x,
            y,
        ) implies b.cell_at(x, y) == Cell::Trail(i as usize) by {
            assert(same_geometry(a.players@[i], b.players@[i]));
            assert(owns_cell(a, i, x, y));
            assert(a.cell_at(x, y) == Cell::Trail(i as usize));
            assert(b.cell_at(x, y) == a.cell_at(x, y));
        }
    }
}

/// True on the border ring of a width-by-height board.
pub open spec fn on_border(w: int, h: int, x: int, y: int) -> bool {
    x == 0 || y == 0 || x == w - 1 || y == h - 1
}

/// The coordinate list holds (x, y).
pub open spec fn lists_cell(cells: Seq<(usize, usize)>, x: int, y: int) -> bool {
    exists|k: int| 0 <= k < cells.len() && #[trigger] cells[k].0 as int == x && cells[k].1 as int == y
}

/// What a fresh grid shows at (x, y): course walls beat course obstructions,
/// which beat the border walls; everything else is empty.
pub open spec fn initial_cell(course: &crate::course::Course, x: int, y: int) -> Cell {
    if lists_cell(course.walls@, x, y) {
        Cell::Wall
    } else if lists_cell(course.obstructions@, x, y) {
        Cell::Obstruction
    } else if on_border(course.width as int, course.height as int, x, y) {
        Cell::Wall
    } else {
        Cell::Empty
    }
}

impl Game {
    /// Create a new match from a course definition: a bordered grid with the
    /// course's obstructions and walls stamped on it, waiting for players.
    ///
    /// The board must be at least nine cells wide and high — smaller boards
    /// could not seat the spawn table — and fit `i32` coordinates.
    #[verifier::loop_isolation(false)]
    pub fn new(course: &crate::course::Course, id: u64) -> (g: Game)
        requires
            9 <= course.width <= 0x7fff_ffff,
            9 <= course.height <= 0x7fff_ffff,
        ensures
            g.wf(),
            g.id == id,
            g.width == course.width,
            g.height == course.height,
            g.players@.len() == 0,
            g.status == GameStatus::WaitingForPlayers,
            g.tick == 0,
            g.max_trail_length == course.max_trail_length,
            g.course_name@ == course.name@,
            g.course_level == course.level,
            g.winner is None,
            g.finished_at is None,
            forall|x: int, y: int|
                g.in_bounds(x, y) ==> #[trigger] g.cell_at(x, y) == initial_cell(course, x, y),
    {
        let w = course.width;
        let h = course.height;
        let mut grid: Vec<Vec<Cell>> = Vec::new();
        let mut y: usize = 0;
        while y < h
            invariant
                y <= h,
                grid@.len() == y,
                forall|r: int| 0 <= r < y ==> (#[trigger] grid@[r])@.len() == w,
                forall|r: int, c: int|
                    0 <= r < y && 0 <= c < w ==> #[trigger] grid@[r]@[c] == Cell::Empty,
            decreases h - y,
        {
            let mut row: Vec<Cell> = Vec::new();
            let mut x: usize = 0;
            while x < w
                invariant
                    x <= w,
                    row@.len() == x,
                    forall|c: int| 0 <= c < x ==> #[trigger] row@[c] == Cell::Empty,
                decreases w - x,
            {
                row.push(Cell::Empty);
                x += 1;
            }
            grid.push(row);
            y += 1;
        }

        // Walls around the border
        let mut x: usize = 0;
        while x < w
            invariant
                x <= w,
                grid@.len() == h,
                forall|r: int| 0 <= r < h ==> (#[trigger] grid@[r])@.len() == w,
                forall|r: int, c: int|
                    0 <= r < h && 0 <= c < w ==> #[trigger] grid@[r]@[c] == (if (r == 0 || r == h
                        - 1) && c < x {
                        Cell::Wall
                    } else {
                        Cell::Empty
                    }),
            decreases w - x,
        {
            grid[0][x] = Cell::Wall;
            let h1 = h - 1;
            grid[h1][x] = Cell::Wall;
            x += 1;
        }
        let mut yb: usize = 0;
        while yb < h
            invariant
                yb <= h,
                grid@.len() == h,
                forall|r: int| 0 <= r < h ==> (#[trigger] grid@[r])@.len() == w,
                forall|r: int, c: int|
                    0 <= r < h && 0 <= c < w ==> #[trigger] grid@[r]@[c] == (if (r == 0 || r == h
                        - 1) || ((c == 0 || c == w - 1) && r < yb) {
                        Cell::Wall
                    } else {
                        Cell::Empty
                    }),
            decreases h - yb,
        {
            grid[yb][0] = Cell::Wall;
            let w1 = w - 1;
            grid[yb][w1] = Cell::Wall;
            yb += 1;
        }

        // Course obstructions
        let mut k: usize = 0;
        while k < course.obstructions.len()
            invariant
                k <= course.obstructions@.len(),
                grid@.len() == h,
                forall|r: int| 0 <= r < h ==> (#[trigger] grid@[r])@.len() == w,
                forall|r: int, c: int|
                    0 <= r < h && 0 <= c < w ==> #[trigger] grid@[r]@[c] == (if lists_cell(
                        course.obstructions@.subrange(0, k as int),
                        c,
                        r,
                    ) {
                        Cell::Obstruction
                    } else if on_border(w as int, h as int, c, r) {
                        Cell::Wall
                    } else {
                        Cell::Empty
                    }),
            decreases course.obstructions@.len() - k,
        {
            let (ox, oy) = course.obstructions[k];
            if ox < w && oy < h {
                grid[oy][ox] = Cell::Obstruction;
            }
            proof {
                let pre = course.obstructions@.subrange(0, k as int);
                let post = course.obstructions@.subrange(0, k + 1);
                assert(forall|c: int, r: int|
                    #[trigger] lists_cell(post, c, r) <==> lists_cell(pre, c, r) || (
                    course.obstructions@[k as int].0 == c && course.obstructions@[k as int].1
                        == r)) by {
                    assert(forall|c: int, r: int| #[trigger] lists_cell(pre, c, r) ==> lists_cell(
                        post,
                        c,
                        r,
                    )) by {
                        assert(forall|j: int| 0 <= j < pre.len() ==> pre[j] == #[trigger] post[j]);
                    }
                    assert(post[k as int] == course.obstructions@[k as int]);
                }
            }
            k += 1;
        }
        proof {
            assert(course.obstructions@.subrange(0, course.obstructions@.len() as int)
                =~= course.obstructions@);
        }

        // Course walls (stamped last: they win over obstructions)
        let mut k2: usize = 0;
        while k2 < course.walls.len()
            invariant
                k2 <= course.walls@.len(),
                grid@.len() == h,
                forall|r: int| 0 <= r < h ==> (#[trigger] grid@[r])@.len() == w,
                forall|r: int, c: int|
                    0 <= r < h && 0 <= c < w ==> #[trigger] grid@[r]@[c] == (if lists_cell(
                        course.walls@.subrange(0, k2 as int),
                        c,
                        r,
                    ) {
                        Cell::Wall
                    } else if lists_cell(course.obstructions@, c, r) {
                        Cell::Obstruction
                    } else if on_border(w as int, h as int, c, r) {
                        Cell::Wall
                    } else {
                        Cell::Empty
                    }),
            decreases course.walls@.len() - k2,
        {
            let (wx, wy) = course.walls[k2];
            if wx < w && wy < h {
                grid[wy][wx] = Cell::Wall;
            }
            proof {
                let pre = course.walls@.subrange(0, k2 as int);
                let post = course.walls@.subrange(0, k2 + 1);
                assert(forall|c: int, r: int|
                    #[trigger] lists_cell(post, c, r) <==> lists_cell(pre, c, r) || (
                    course.walls@[k2 as int].0 == c && course.walls@[k2 as int].1 == r)) by {
                    assert(forall|c: int, r: int| #[trigger] lists_cell(pre, c, r) ==> lists_cell(
                        post,
                        c,
                        r,
                    )) by {
                        assert(forall|j: int| 0 <= j < pre.len() ==> pre[j] == #[trigger] post[j]);
                    }
                    assert(post[k2 as int] == course.walls@[k2 as int]);
                }
            }
            k2 += 1;
        }
        proof {
            assert(course.walls@.subrange(0, course.walls@.len() as int) =~= course.walls@);
        }

        let g = Game {
            id,
            width: w,
            height: h,
            grid,
            players: Vec::new(),
            status: GameStatus::WaitingForPlayers,
            tick: 0,
            max_trail_length: course.max_trail_length,
            course_name: course.name.clone(),
            course_level: course.level,
            winner: None,
            created_at: now_millis(),
            finished_at: None,
        };
        g
    }

    /// The fixed list of up to eight spawn slots for this board.
    fn spawn_positions(&self) -> (r: Vec<(i32, i32, Direction)>)
        requires
            self.grid_wf(),
        ensures
            r@.len() == 8,
            forall|i: int|
                0 <= i < 8 ==> (#[trigger] r@[i].0 as int, r@[i].1 as int, r@[i].2) == spec_spawn(
                    self.width as int,
                    self.height as int,
                    i,
                ),
    {
        let w = self.width as i32;
        let h = self.height as i32;
        let mut r: Vec<(i32, i32, Direction)> = Vec::new();
        r.push((3, 3, Direction::Right));
        r.push((w - 4, h - 4, Direction::Left));
        r.push((w - 4, 3, Direction::Down));
        r.push((3, h - 4, Direction::Up));
        r.push((w / 2, 3, Direction::Down));
        r.push((3, h / 2, Direction::Right));
        r.push((w - 4, h / 2, Direction::Left));
        r.push((w / 2, h - 4, Direction::Up));
        r
    }

    /// Add a player to a match that has not started. The new player takes
    /// the next free spawn slot; with all eight slots taken nothing changes
    /// and no index is handed out.
    pub fn add_player(&mut self, name: String) -> (r: Option<usize>)
        requires
            old(self).wf(),
            old(self).status == GameStatus::WaitingForPlayers,
        ensures
            final(self).wf(),
            same_game_except_players(*final(self), *old(self)),
            old(self).players@.len() >= 8 ==> r is None && *final(self) == *old(self),
            old(self).players@.len() < 8 ==> {
                let p = final(self).players@.last();
                &&& r == Some(old(self).players@.len() as usize)
                &&& final(self).players@.len() == old(self).players@.len() + 1
                &&& forall|i: int|
                    0 <= i < old(self).players@.len() ==> final(self).players@[i] == old(
                        self,
                    ).players@[i]
                &&& p.name == name
                &&& is_spawn_player(*final(self), old(self).players@.len() as int)
                &&& p.alive
                &&& p.trail@.len() == 0
                &&& p.distance_traveled == 0
                &&& p.score == 0
                &&& p.pending_action is None
            },
    {
        let spawns = self.spawn_positions();
        let idx = self.players.len();
        if idx >= spawns.len() {
            return None;
        }
        let (x, y, dir) = spawns[idx];
        proof {
            assert(spec_spawn(self.width as int, self.height as int, idx as int).0 == x as int);
            assert(3 <= (x as int) && (x as int) < self.width as int);
            assert(3 <= (y as int) && (y as int) < self.height as int);
        }
        self.players.push(
            Player {
                name,
                x,
                y,
                direction: dir,
                alive: true,
                trail: VecDeque::new(),
                distance_traveled: 0,
                score: 0,
                pending_action: None,
            },
        );
        proof {
            let a = *old(self);
            let b = *self;
            assert(is_spawn_player(b, idx as int));
            assert(b.player_wf(idx as int));
            assert(b.trail_distinct(idx as int));
            assert forall|i: int| 0 <= i < b.players@.len() implies b.player_wf(i) by {
                if i < idx {
                    assert(a.player_wf(i));
                }
            }
            assert forall|i: int| 0 <= i < b.players@.len() implies b.trail_distinct(i) by {
                if i < idx {
                    assert(a.trail_distinct(i));
                }
            }
            assert forall|i: int| 0 <= i < b.players@.len() implies is_spawn_player(b, i) by {
                if i < idx {
                    assert(is_spawn_player(a, i));
                }
            }
            assert(b.no_trails()) by {
                assert forall|x2: int, y2: int| b.in_bounds(x2, y2) implies !(#[trigger] b.cell_at(
                    x2,
                    y2,
                ) matches Cell::Trail(_)) by {
                    assert(b.cell_at(x2, y2) == a.cell_at(x2, y2));
                }
            }
        }
        Some(idx)
    }

    /// Record a steering command for a player; it is applied on the next
    /// tick. Unknown indexes and crashed players are ignored.
    pub fn apply_action(&mut self, player_idx: usize, action: SteerAction)
        requires
            old(self).wf(),
        ensures
            final(self).wf(),
            player_idx < old(self).players@.len() && old(self).players@[player_idx as int].alive
                ==> {
                &&& same_game_except_players(*final(self), *old(self))
                &&& final(self).players@ == old(self).players@.update(
                    player_idx as int,
                    Player {
                        pending_action: Some(action),
                        ..old(self).players@[player_idx as int]
                    },
                )
            },
            !(player_idx < old(self).players@.len() && old(
                self,
            ).players@[player_idx as int].alive) ==> *final(self) == *old(self),
    {
        if player_idx < self.players.len() {
            if self.players[player_idx].alive {
                self.players[player_idx].pending_action = Some(action);
                proof {
                    assert(self.players@ =~= old(self).players@.update(
                        player_idx as int,
                        Player {
                            pending_action: Some(action),
                            ..old(self).players@[player_idx as int]
                        },
                    ));
                    lemma_wf_same_geometry(*old(self), *self);
                }
            }
        }
    }

    /// Start the match: the status moves to `Running` and every player's
    /// spawn cell is stamped with its trail marker.
    pub fn start(&mut self)
        requires
            old(self).wf(),
            old(self).status == GameStatus::WaitingForPlayers,
        ensures
            final(self).wf(),
            final(self).status == GameStatus::Running,
            final(self).players == old(self).players,
            final(self).id == old(self).id,
            final(self).width == old(self).width,
            final(self).height == old(self).height,
            final(self).tick == old(self).tick,
            final(self).max_trail_length == old(self).max_trail_length,
            final(self).course_name == old(self).course_name,
            final(self).course_level == old(self).course_level,
            final(self).winner is None,
            final(self).finished_at is None,
            final(self).created_at == old(self).created_at,
            forall|i: int|
                0 <= i < old(self).players@.len() ==> {
                    let p = #[trigger] old(self).players@[i];
                    final(self).cell_at(p.x as int, p.y as int) == Cell::Trail(i as usize)
                },
            forall|x: int, y: int|
                old(self).in_bounds(x, y) && (forall|i: int|
                    0 <= i < old(self).players@.len() ==> !(#[trigger] old(self).players@[i].x
                        as int == x && old(self).players@[i].y as int == y))
                    ==> final(self).cell_at(x, y) == old(self).cell_at(x, y),
    {
        proof {
            lemma_spawns_distinct(self.width as int, self.height as int);
            assert forall|p: int, q: int|
                0 <= p < q < old(self).players@.len() implies !(#[trigger] old(
                self,
            ).players@[p].x == #[trigger] old(self).players@[q].x && old(self).players@[p].y
                == old(self).players@[q].y) by {
                assert(is_spawn_player(*old(self), p));
                assert(is_spawn_player(*old(self), q));
            }
        }
        self.status = GameStatus::Running;
        let n = self.players.len();
        let mut i: usize = 0;
        while i < n
            invariant
                n == self.players@.len(),
                i <= n,
                self.players == old(self).players,
                self.id == old(self).id,
                self.width == old(self).width,
                self.height == old(self).height,
                self.status == GameStatus::Running,
                self.tick == old(self).tick,
                self.max_trail_length == old(self).max_trail_length,
                self.course_name == old(self).course_name,
                self.course_level == old(self).course_level,
                self.winner == old(self).winner,
                self.created_at == old(self).created_at,
                self.finished_at == old(self).finished_at,
                old(self).wf(),
                old(self).status == GameStatus::WaitingForPlayers,
                forall|p: int, q: int|
                    0 <= p < q < old(self).players@.len() ==> !(#[trigger] old(self).players@[p].x
                        == #[trigger] old(self).players@[q].x && old(self).players@[p].y == old(
                        self,
                    ).players@[q].y),
                self.grid@.len() == self.height,
                forall|y: int|
                    0 <= y < self.height ==> (#[trigger] self.grid@[y])@.len() == self.width,
                forall|j: int|
                    0 <= j < i ==> {
                        let p = #[trigger] old(self).players@[j];
                        self.cell_at(p.x as int, p.y as int) == Cell::Trail(j as usize)
                    },
                forall|x: int, y: int|
                    old(self).in_bounds(x, y) && (forall|j: int|
                        0 <= j < i ==> !(#[trigger] old(self).players@[j].x as int == x && old(
                            self,
                        ).players@[j].y as int == y)) ==> self.cell_at(x, y) == old(self).cell_at(
                        x,
                        y,
                    ),
            decreases n - i,
        {
            let ghost pre = *self;
            let x = self.players[i].x as usize;
            let y = self.players[i].y as usize;
            if y < self.height && x < self.width {
                self.grid[y][x] = Cell::Trail(i);
            }
            proof {
                let g0 = *old(self);
                assert(g0.player_wf(i as int));
                assert(x as int == g0.players@[i as int].x as int);
                assert(y as int == g0.players@[i as int].y as int);
                assert(self.grid@.len() == pre.grid@.len());
                assert(forall|r: int|
                    0 <= r < pre.grid@.len() && r != y as int ==> #[trigger] self.grid@[r]
                        == pre.grid@[r]);
                assert(forall|c: int|
                    0 <= c < self.width && c != x as int ==> #[trigger] self.grid@[y as int]@[c]
                        == pre.grid@[y as int]@[c]);
                assert(self.grid@[y as int]@[x as int] == Cell::Trail(i));
                assert forall|j: int|
                    0 <= j <= i implies self.cell_at(
                    #[trigger] g0.players@[j].x as int,
                    g0.players@[j].y as int,
                ) == Cell::Trail(j as usize) by {
                    if j < i {
                        assert(g0.player_wf(j));
                        assert(!(g0.players@[j].x == g0.players@[i as int].x && g0.players@[j].y
                            == g0.players@[i as int].y));
                        assert(pre.cell_at(g0.players@[j].x as int, g0.players@[j].y as int)
                            == Cell::Trail(j as usize));
                        if g0.players@[j].y as int != y as int {
                            assert(self.grid@[g0.players@[j].y as int] == pre.grid@[g0.players@[j].y as int]);
                        }
                    }
                }
            }
            i += 1;
        }
        proof {
            lemma_start_wf(*old(self), *self);
        }
    }
}

/// The facing after the pending steering command is applied.
pub open spec fn steered_dir(p: Player) -> Direction {
    match p.pending_action {
        Some(SteerAction::Left) => spec_turn_left(p.direction),
        Some(SteerAction::Right) => spec_turn_right(p.direction),
        _ => p.direction,
    }
}

/// The x coordinate one step ahead after steering.
pub open spec fn dest_x(p: Player) -> int {
    p.x + spec_delta(steered_dir(p)).0
}

/// The y coordinate one step ahead after steering.
pub open spec fn dest_y(p: Player) -> int {
    p.y + spec_delta(steered_dir(p)).1
}

/// `v + 1`, stuck at the top of the `u32` range.
pub open spec fn sat_inc_u32(v: u32) -> u32 {
    if v < 0xffff_ffffu32 {
        (v + 1) as u32
    } else {
        v
    }
}

/// A non-negative value clamped into the `u32` range.
pub open spec fn clamp_u32(v: int) -> u32 {
    if v > 0xffff_ffff {
        0xffff_ffffu32
    } else {
        v as u32
    }
}

/// The speed bonus of the winning score: 1000 divided by the ticks elapsed,
/// capped at 200.
pub open spec fn spec_speed_bonus(t: u32) -> int {
    if t == 0 {
        0int
    } else if 1000int / (t as int) > 200 {
        200int
    } else {
        1000int / (t as int)
    }
}

/// The trail after a successful move: the vacated cell joins at the back,
/// and the oldest cell leaves once the course cap is exceeded.
pub open spec fn spec_advanced_trail(p: Player, cap: nat) -> Seq<(i32, i32)> {
    let t = p.trail@.push((p.x, p.y));
    if t.len() > cap {
        t.drop_first()
    } else {
        t
    }
}

/// How a crashing player changes in a tick: steering is applied, the pending
/// command is consumed, the alive flag drops; nothing else moves.
pub open spec fn crashed_rel(p0: Player, p1: Player) -> bool {
    &&& p1.name == p0.name
    &&& p1.x == p0.x
    &&& p1.y == p0.y
    &&& p1.direction == steered_dir(p0)
    &&& !p1.alive
    &&& p1.trail@ == p0.trail@
    &&& p1.distance_traveled == p0.distance_traveled
    &&& p1.pending_action is None
}

/// How a surviving player changes in a tick: steering is applied, the player
/// moves one cell, the vacated cell joins the trail under the cap, and the
/// distance grows by one.
pub open spec fn advanced_rel(p0: Player, p1: Player, cap: nat) -> bool {
    &&& p1.name == p0.name
    &&& p1.x as int == dest_x(p0)
    &&& p1.y as int == dest_y(p0)
    &&& p1.direction == steered_dir(p0)
    &&& p1.alive
    &&& p1.trail@ == spec_advanced_trail(p0, cap)
    &&& p1.distance_traveled == sat_inc_u32(p0.distance_traveled)
    &&& p1.pending_action is None
}

impl Game {
    /// The destination of player `i` is off the board or shows anything but
    /// an empty cell on the pre-move grid.
    pub open spec fn blocked_dest(self, i: int) -> bool {
        let p = self.players@[i];
        !self.in_bounds(dest_x(p), dest_y(p)) || self.cell_at(dest_x(p), dest_y(p)) != Cell::Empty
    }

    /// Another still-alive player computes the same destination in this step.
    pub open spec fn head_on(self, i: int) -> bool {
        exists|j: int|
            0 <= j < self.players@.len() && j != i && self.players@[j].alive && dest_x(
                #[trigger] self.players@[j],
            ) == dest_x(self.players@[i]) && dest_y(self.players@[j]) == dest_y(self.players@[i])
    }

    /// Player `i` dies this tick: it is alive and its move is fatal.
    pub open spec fn crashes(self, i: int) -> bool {
        self.players@[i].alive && (self.blocked_dest(i) || self.head_on(i))
    }

    /// Player `i` moves this tick: it is alive and its move is safe.
    pub open spec fn advances(self, i: int) -> bool {
        self.players@[i].alive && !self.blocked_dest(i) && !self.head_on(i)
    }

    /// Moving would push the trail of player `i` over the course cap, so its
    /// oldest cell is evicted.
    pub open spec fn evicts(self, i: int) -> bool {
        self.players@[i].trail@.len() + 1 > self.max_trail_length
    }

    /// The cell evicted from the trail of player `i`: the front of the trail
    /// as it stands right after the vacated cell was pushed.
    pub open spec fn evict_cell(self, i: int) -> (int, int) {
        let p = self.players@[i];
        let t = p.trail@.push((p.x, p.y));
        (t[0].0 as int, t[0].1 as int)
    }

    /// How many of the first `n` players advance (and so survive) this tick.
    pub open spec fn survivors(self, n: int) -> int
        decreases n,
    {
        if n <= 0 {
            0
        } else {
            self.survivors(n - 1) + if self.advances(n - 1) {
                1int
            } else {
                0int
            }
        }
    }
}

/// The whole effect of one tick on a running game `g0`, leaving `g1`: every
/// alive player is steered and advanced one cell against the one pre-move
/// grid, fatal moves drop the alive flag, trails shift under the cap, and
/// the win check runs.
pub open spec fn tick_rel(g0: Game, g1: Game) -> bool {
    let n = g0.players@.len() as int;
    let nt = sat_inc_u32(g0.tick);
    let surv = g0.survivors(n);
    &&& g1.players@.len() == n
    &&& g1.id == g0.id
    &&& g1.width == g0.width
    &&& g1.height == g0.height
    &&& g1.max_trail_length == g0.max_trail_length
    &&& g1.course_name == g0.course_name
    &&& g1.course_level == g0.course_level
    &&& g1.created_at == g0.created_at
    &&& g1.tick == nt
    // players, one by one
    &&& forall|i: int|
        0 <= i < n && !g0.players@[i].alive ==> g1.players@[i] == #[trigger] g0.players@[i]
    &&& forall|i: int|
        0 <= i < n && g0.crashes(i) ==> crashed_rel(#[trigger] g0.players@[i], g1.players@[i])
    &&& forall|i: int|
        0 <= i < n && g0.advances(i) ==> advanced_rel(
            #[trigger] g0.players@[i],
            g1.players@[i],
            g0.max_trail_length as nat,
        )
    // the grid after the step
    &&& g1.grid@.len() == g0.grid@.len()
    &&& forall|y: int| 0 <= y < g1.height ==> (#[trigger] g1.grid@[y])@.len() == g1.width
    &&& forall|i: int|
        0 <= i < n && g0.advances(i) ==> g1.cell_at(
            dest_x(#[trigger] g0.players@[i]),
            dest_y(g0.players@[i]),
        ) == Cell::Trail(i as usize)
    &&& forall|i: int|
        0 <= i < n && #[trigger] g0.advances(i) && g0.evicts(i) ==> g1.cell_at(
            g0.evict_cell(i).0,
            g0.evict_cell(i).1,
        ) == Cell::Empty
    &&& forall|x: int, y: int|
        g0.in_bounds(x, y) && (forall|i: int|
            0 <= i < n && #[trigger] g0.advances(i) ==> !(dest_x(g0.players@[i]) == x && dest_y(
                g0.players@[i],
            ) == y) && !(g0.evicts(i) && g0.evict_cell(i).0 == x && g0.evict_cell(i).1 == y))
            ==> g1.cell_at(x, y) == g0.cell_at(x, y)
    // the win check
    &&& if surv == 0 || (surv == 1 && n >= 2) {
        &&& g1.status == GameStatus::Finished
        &&& g1.finished_at is Some
        &&& if surv == 1 && n >= 2 {
            &&& g1.winner matches Some(w)
            &&& (g1.winner matches Some(w) ==> w < n && g0.advances(w as int)
                && g1.players@[w as int].score == clamp_u32(
                100 + g1.players@[w as int].distance_traveled + spec_speed_bonus(nt),
            ))
        } else {
            g1.winner is None
        }
    } else {
        &&& g1.status == GameStatus::Running
        &&& g1.winner is None
        &&& g1.finished_at is None
    }
    // only the winner's score changes
    &&& forall|i: int|
        0 <= i < n && g1.winner != Some(i as usize) ==> g1.players@[i].score
            == #[trigger] g0.players@[i].score
}

/// With no survivor among the first `k` players, none of them advances.
proof fn lemma_survivors_zero(g: Game, k: int)
    requires
        0 <= k,
        g.survivors(k) == 0,
    ensures
        forall|m: int| 0 <= m < k ==> !g.advances(m),
    decreases k,
{
    if k > 0 {
        assert(g.survivors(k - 1) + (if g.advances(k - 1) {
            1int
        } else {
            0int
        }) == 0);
        lemma_survivors_bounds(g, k - 1);
        lemma_survivors_zero(g, k - 1);
    }
}

/// The survivor count of the first `k` players sits between 0 and `k`.
proof fn lemma_survivors_bounds(g: Game, k: int)
    requires
        0 <= k,
    ensures
        0 <= g.survivors(k) <= k,
    decreases k,
{
    if k > 0 {
        lemma_survivors_bounds(g, k - 1);
    }
}

/// A ticked game is well-formed: the shifted trails still agree with the
/// grid, cell by cell.
#[verifier::rlimit(100)]
proof fn lemma_tick_wf(g0: Game, g1: Game)
    requires
        g0.wf(),
        g0.status == GameStatus::Running,
        tick_rel(g0, g1),
    ensures
        g1.wf(),
{
    let n = g0.players@.len() as int;
    let cap = g0.max_trail_length as nat;

    // Distinct movers land on distinct cells, else both would be head-on.
    assert forall|i: int, j: int|
        0 <= i < n && 0 <= j < n && i != j && #[trigger] g0.advances(i) && #[trigger] g0.advances(
            j,
        ) implies !(dest_x(g0.players@[i]) == dest_x(g0.players@[j]) && dest_y(g0.players@[i])
        == dest_y(g0.players@[j])) by {
        if dest_x(g0.players@[i]) == dest_x(g0.players@[j]) && dest_y(g0.players@[i]) == dest_y(
            g0.players@[j],
        ) {
            assert(g0.head_on(i));
        }
    }
    // A mover's destination shows empty on the pre-move grid.
    assert forall|i: int| 0 <= i < n && #[trigger] g0.advances(i) implies g0.in_bounds(
        dest_x(g0.players@[i]),
        dest_y(g0.players@[i]),
    ) && g0.cell_at(dest_x(g0.players@[i]), dest_y(g0.players@[i])) == Cell::Empty by {
        assert(!g0.blocked_dest(i));
    }
    // An evicted cell shows the evicting player's own marker beforehand.
    assert forall|i: int|
        0 <= i < n && #[trigger] g0.advances(i) && g0.evicts(i) implies g0.in_bounds(
        g0.evict_cell(i).0,
        g0.evict_cell(i).1,
    ) && g0.cell_at(g0.evict_cell(i).0, g0.evict_cell(i).1) == Cell::Trail(i as usize) by {
        let p = g0.players@[i];
        let t = p.trail@.push((p.x, p.y));
        assert(g0.player_wf(i));
        if p.trail@.len() > 0 {
            assert(t[0] == p.trail@[0]);
            assert(owns_cell(g0, i, t[0].0 as int, t[0].1 as int));
        } else {
            assert(t[0] == (p.x, p.y));
            assert(owns_cell(g0, i, t[0].0 as int, t[0].1 as int));
        }
    }

    // Per-player positional sanity and trail distinctness.
    assert forall|i: int| 0 <= i < n implies g1.player_wf(i) && g1.trail_distinct(i) by {
        assert(g0.player_wf(i));
        assert(g0.trail_distinct(i));
        let p0 = g0.players@[i];
        let p1 = g1.players@[i];
        if g0.advances(i) {
            assert(advanced_rel(p0, p1, cap));
            let t = p0.trail@.push((p0.x, p0.y));
            // every cell of the new trail was a cell of the old trail or the
            // old position
            assert(forall|k: int| 0 <= k < t.len() - 1 ==> t[k] == p0.trail@[k]);
            assert(t[t.len() - 1] == (p0.x, p0.y));
            assert forall|k: int| 0 <= k < p1.trail@.len() implies g1.in_bounds(
                #[trigger] p1.trail@[k].0 as int,
                p1.trail@[k].1 as int,
            ) by {
                if p1.trail@.len() == t.len() {
                    assert(p1.trail@[k] == t[k]);
                } else {
                    assert(p1.trail@[k] == t[k + 1]);
                }
            }
            // the new trail stays under the cap
            if g0.evicts(i) {
                assert(p1.trail@.len() == p0.trail@.len());
            } else {
                assert(p1.trail@.len() == p0.trail@.len() + 1 <= cap);
            }
            // distinctness: the old trail plus the old position is distinct,
            // and the new position was empty, hence claimed by nobody
            assert(forall|k1: int, k2: int|
                #![trigger t[k1], t[k2]]
                0 <= k1 < k2 < t.len() ==> !(t[k1].0 == t[k2].0 && t[k1].1 == t[k2].1));
            assert forall|k: int| 0 <= k < p1.trail@.len() implies !(#[trigger] p1.trail@[k].0
                == p1.x && p1.trail@[k].1 == p1.y) by {
                let c = if p1.trail@.len() == t.len() {
                    t[k]
                } else {
                    t[k + 1]
                };
                assert(p1.trail@[k] == c);
                assert(owns_cell(g0, i, c.0 as int, c.1 as int));
                assert(g0.cell_at(c.0 as int, c.1 as int) == Cell::Trail(i as usize));
                assert(g0.cell_at(dest_x(p0), dest_y(p0)) == Cell::Empty);
            }
        } else if g0.crashes(i) {
            assert(crashed_rel(p0, p1));
        } else {
            assert(p1 == p0);
        }
    }

    // The grid and the trails still agree, cell by cell.
    assert forall|x: int, y: int| g1.in_bounds(x, y) implies match g1.cell_at(x, y) {
        Cell::Trail(k) => k < g1.players@.len() && owns_cell(g1, k as int, x, y),
        _ => true,
    } by {
        if exists|m: int|
            0 <= m < n && #[trigger] g0.advances(m) && dest_x(g0.players@[m]) == x && dest_y(
                g0.players@[m],
            ) == y {
            let m = choose|m: int|
                0 <= m < n && #[trigger] g0.advances(m) && dest_x(g0.players@[m]) == x && dest_y(
                    g0.players@[m],
                ) == y;
            assert(g1.cell_at(x, y) == Cell::Trail(m as usize));
            assert(g1.players@[m].x as int == x && g1.players@[m].y as int == y);
            assert(owns_cell(g1, m, x, y));
        } else if exists|m: int|
            0 <= m < n && #[trigger] g0.advances(m) && g0.evicts(m) && g0.evict_cell(m).0 == x
                && g0.evict_cell(m).1 == y {
            let m = choose|m: int|
                0 <= m < n && #[trigger] g0.advances(m) && g0.evicts(m) && g0.evict_cell(m).0 == x
                    && g0.evict_cell(m).1 == y;
            assert(g1.cell_at(x, y) == Cell::Empty);
        } else {
            assert(g1.cell_at(x, y) == g0.cell_at(x, y));
            match g0.cell_at(x, y) {
                Cell::Trail(k) => {
                    assert(k < n && owns_cell(g0, k as int, x, y));
                    let ki = k as int;
                    let p0 = g0.players@[ki];
                    let p1 = g1.players@[ki];
                    if g0.advances(ki) {
                        let t = p0.trail@.push((p0.x, p0.y));
                        assert(forall|j: int| 0 <= j < t.len() - 1 ==> t[j] == p0.trail@[j]);
                        if p0.x as int == x && p0.y as int == y {
                            // the vacated cell sits at the back of the trail
                            assert(t[t.len() - 1] == (p0.x, p0.y));
                            if g0.evicts(ki) {
                                assert(t.len() >= 2) by {
                                    if t.len() < 2 {
                                        assert(g0.evict_cell(ki).0 == x && g0.evict_cell(ki).1
                                            == y);
                                    }
                                }
                                assert(p1.trail@[t.len() - 2] == t[t.len() - 1]);
                                assert(p1.trail@[t.len() - 2].0 as int == x
                                    && p1.trail@[t.len() - 2].1 as int == y);
                            } else {
                                assert(p1.trail@[t.len() - 1] == t[t.len() - 1]);
                                assert(p1.trail@[t.len() - 1].0 as int == x
                                    && p1.trail@[t.len() - 1].1 as int == y);
                            }
                            assert(owns_cell(g1, ki, x, y));
                        } else {
                            let j = choose|j: int|
                                0 <= j < p0.trail@.len() && #[trigger] p0.trail@[j].0 as int == x
                                    && p0.trail@[j].1 as int == y;
                            if g0.evicts(ki) {
                                assert(j != 0) by {
                                    if j == 0 {
                                        assert(t[0] == p0.trail@[0]);
                                        assert(g0.evict_cell(ki).0 == x && g0.evict_cell(ki).1
                                            == y);
                                    }
                                }
                                assert(p1.trail@[j - 1] == t[j]);
                                assert(t[j] == p0.trail@[j]);
                                assert(p1.trail@[j - 1].0 as int == x && p1.trail@[j - 1].1 as int
                                    == y);
                            } else {
                                assert(p1.trail@[j] == t[j]);
                                assert(t[j] == p0.trail@[j]);
                                assert(p1.trail@[j].0 as int == x && p1.trail@[j].1 as int == y);
                            }
                            assert(owns_cell(g1, ki, x, y));
                        }
                    } else if g0.crashes(ki) {
                        assert(crashed_rel(p0, p1));
                        assert(owns_cell(g1, ki, x, y));
                    } else {
                        assert(p1 == p0);
                        assert(owns_cell(g1, ki, x, y));
                    }
                },
                _ => {},
            }
        }
    }
    assert forall|x: int, y: int, i: int|
        g1.in_bounds(x, y) && 0 <= i < g1.players@.len() && #[trigger] owns_cell(
        g1,
        i,
        x,
        y,
    ) implies g1.cell_at(x, y) == Cell::Trail(i as usize) by {
        let p0 = g0.players@[i];
        let p1 = g1.players@[i];
        if g0.advances(i) {
            let t = p0.trail@.push((p0.x, p0.y));
            assert(forall|j: int| 0 <= j < t.len() - 1 ==> t[j] == p0.trail@[j]);
            if p1.x as int == x && p1.y as int == y {
                assert(g1.cell_at(x, y) == Cell::Trail(i as usize));
            } else {
                let j = choose|j: int|
                    0 <= j < p1.trail@.len() && #[trigger] p1.trail@[j].0 as int == x
                        && p1.trail@[j].1 as int == y;
                let jt = if p1.trail@.len() == t.len() {
                    j
                } else {
                    j + 1
                };
                assert(p1.trail@[j] == t[jt]);
                assert(owns_cell(g0, i, x, y)) by {
                    if jt == t.len() - 1 {
                        assert(t[jt] == (p0.x, p0.y));
                    } else {
                        assert(t[jt] == p0.trail@[jt]);
                    }
                }
                assert(g0.cell_at(x, y) == Cell::Trail(i as usize));
                // this cell is nobody's destination and is not evicted
                assert forall|m: int|
                    0 <= m < n && #[trigger] g0.advances(m) implies !(dest_x(g0.players@[m]) == x
                    && dest_y(g0.players@[m]) == y) && !(g0.evicts(m) && g0.evict_cell(m).0 == x
                    && g0.evict_cell(m).1 == y) by {
                    assert(g0.cell_at(dest_x(g0.players@[m]), dest_y(g0.players@[m]))
                        == Cell::Empty);
                    if g0.evicts(m) {
                        assert(g0.cell_at(g0.evict_cell(m).0, g0.evict_cell(m).1) == Cell::Trail(
                            m as usize,
                        ));
                        if m == i && g0.evict_cell(m).0 == x && g0.evict_cell(m).1 == y {
                            // the evicted front is gone from the new trail
                            assert(g0.trail_distinct(i));
                            assert(forall|k1: int, k2: int|
                                #![trigger t[k1], t[k2]]
                                0 <= k1 < k2 < t.len() ==> !(t[k1].0 == t[k2].0
                                    && t[k1].1 == t[k2].1));
                            assert(t[0].0 as int == x && t[0].1 as int == y);
                            assert(p1.trail@.len() == t.len() - 1);
                            assert(jt >= 1);
                            assert(!(t[jt].0 == t[0].0 && t[jt].1 == t[0].1));
                        }
                    }
                }
                assert(g1.cell_at(x, y) == g0.cell_at(x, y));
            }
        } else {
            if g0.crashes(i) {
                assert(crashed_rel(p0, p1));
            } else {
                assert(p1 == p0);
            }
            assert(owns_cell(g0, i, x, y));
            assert(g0.cell_at(x, y) == Cell::Trail(i as usize));
            assert forall|m: int|
                0 <= m < n && #[trigger] g0.advances(m) implies !(dest_x(g0.players@[m]) == x
                && dest_y(g0.players@[m]) == y) && !(g0.evicts(m) && g0.evict_cell(m).0 == x
                && g0.evict_cell(m).1 == y) by {
                assert(g0.cell_at(dest_x(g0.players@[m]), dest_y(g0.players@[m])) == Cell::Empty);
                if g0.evicts(m) {
                    assert(g0.cell_at(g0.evict_cell(m).0, g0.evict_cell(m).1) == Cell::Trail(
                        m as usize,
                    ));
                }
            }
            assert(g1.cell_at(x, y) == g0.cell_at(x, y));
        }
    }
}

impl Game {
    /// The fields a tick never touches.
    pub open spec fn tick_frame(self, g0: Game) -> bool {
        &&& self.id == g0.id
        &&& self.width == g0.width
        &&& self.height == g0.height
        &&& self.max_trail_length == g0.max_trail_length
        &&& self.course_name == g0.course_name
        &&& self.course_level == g0.course_level
        &&& self.created_at == g0.created_at
    }

    /// Advance the match by one tick: apply every alive player's queued
    /// steering, move them all one cell against the one pre-move grid,
    /// resolve all collisions jointly, shift trails under the cap, and run
    /// the win check. On a match that is not running, nothing happens.
    pub fn tick(&mut self)
        requires
            old(self).wf(),
        ensures
            final(self).wf(),
            old(self).status != GameStatus::Running ==> *final(self) == *old(self),
            old(self).status == GameStatus::Running ==> tick_rel(*old(self), *final(self)),
    {
        if !(self.status == GameStatus::Running) {
            return ;
        }
        let ghost g0 = *old(self);
        let ghost cap = g0.max_trail_length as nat;
        let n = self.players.len();
        // the tick counter, stuck at the top of its range
        if self.tick < u32::MAX {
            self.tick = self.tick + 1;
        }
        proof {
            assert(self.tick == sat_inc_u32(g0.tick));
            // movers' facts used throughout: distinct destinations, empty
            // destination cells, owned eviction cells
            assert forall|i: int, j: int|
                0 <= i < n && 0 <= j < n && i != j && #[trigger] g0.advances(i)
                    && #[trigger] g0.advances(j) implies !(dest_x(g0.players@[i]) == dest_x(
                g0.players@[j],
            ) && dest_y(g0.players@[i]) == dest_y(g0.players@[j])) by {
                if dest_x(g0.players@[i]) == dest_x(g0.players@[j]) && dest_y(g0.players@[i])
                    == dest_y(g0.players@[j]) {
                    assert(g0.head_on(i));
                }
            }
            assert forall|i: int| 0 <= i < n && #[trigger] g0.advances(i) implies g0.in_bounds(
                dest_x(g0.players@[i]),
                dest_y(g0.players@[i]),
            ) && g0.cell_at(dest_x(g0.players@[i]), dest_y(g0.players@[i])) == Cell::Empty by {
                assert(!g0.blocked_dest(i));
            }
            assert forall|i: int|
                0 <= i < n && #[trigger] g0.advances(i) && g0.evicts(i) implies g0.in_bounds(
                g0.evict_cell(i).0,
                g0.evict_cell(i).1,
            ) && g0.cell_at(g0.evict_cell(i).0, g0.evict_cell(i).1) == Cell::Trail(i as usize) by {
                let p = g0.players@[i];
                let t = p.trail@.push((p.x, p.y));
                assert(g0.player_wf(i));
                if p.trail@.len() > 0 {
                    assert(t[0] == p.trail@[0]);
                    assert(owns_cell(g0, i, t[0].0 as int, t[0].1 as int));
                } else {
                    assert(t[0] == (p.x, p.y));
                    assert(owns_cell(g0, i, t[0].0 as int, t[0].1 as int));
                }
            }
        }

        // apply steering and compute every destination against the one
        // pre-move state
        let mut dests: Vec<(i32, i32)> = Vec::new();
        let mut ia: usize = 0;
        while ia < n
            invariant
                g0.wf(),
                g0.status == GameStatus::Running,
                n == g0.players@.len(),
                self.tick_frame(g0),
                self.status == GameStatus::Running,
                self.winner is None,
                self.finished_at is None,
                self.tick == sat_inc_u32(g0.tick),
                self.players == g0.players,
                self.grid == g0.grid,
                ia <= n,
                dests@.len() == ia,
                forall|k: int|
                    0 <= k < ia ==> #[trigger] dests@[k].0 as int == dest_x(g0.players@[k])
                        && dests@[k].1 as int == dest_y(g0.players@[k]),
            decreases n - ia,
        {
            proof {
                assert(g0.player_wf(ia as int));
            }
            let p = &self.players[ia];
            let d = match p.pending_action {
                Some(SteerAction::Left) => p.direction.turn_left(),
                Some(SteerAction::Right) => p.direction.turn_right(),
                _ => p.direction,
            };
            let (dx, dy) = d.delta();
            let nx = p.x + dx;
            let ny = p.y + dy;
            dests.push((nx, ny));
            ia += 1;
        }

        // resolve every alive player's move against the pre-move grid: out
        // of bounds, a non-empty cell, or a shared destination is fatal
        let mut killed: Vec<bool> = Vec::new();
        let mut ib: usize = 0;
        while ib < n
            invariant
                g0.wf(),
                g0.status == GameStatus::Running,
                n == g0.players@.len(),
                self.tick_frame(g0),
                self.status == GameStatus::Running,
                self.winner is None,
                self.finished_at is None,
                self.tick == sat_inc_u32(g0.tick),
                self.players == g0.players,
                self.grid == g0.grid,
                ib <= n,
                dests@.len() == n,
                forall|k: int|
                    0 <= k < n ==> #[trigger] dests@[k].0 as int == dest_x(g0.players@[k])
                        && dests@[k].1 as int == dest_y(g0.players@[k]),
                killed@.len() == ib,
                forall|m: int| 0 <= m < ib ==> #[trigger] killed@[m] == g0.crashes(m),
            decreases n - ib,
        {
            let mut kflag = false;
            if self.players[ib].alive {
                let (nx, ny) = dests[ib];
                if nx < 0 || ny < 0 || nx >= self.width as i32 || ny >= self.height as i32 {
                    kflag = true;
                } else {
                    let c = self.grid[ny as usize][nx as usize];
                    if !(c == Cell::Empty) {
                        kflag = true;
                    }
                }
                proof {
                    assert(kflag == g0.blocked_dest(ib as int));
                }
                let mut jb: usize = 0;
                while jb < n
                    invariant
                        n == g0.players@.len(),
                        ib < n,
                        jb <= n,
                        self.players == g0.players,
                        dests@.len() == n,
                        forall|k: int|
                            0 <= k < n ==> #[trigger] dests@[k].0 as int == dest_x(
                                g0.players@[k],
                            ) && dests@[k].1 as int == dest_y(g0.players@[k]),
                        kflag == (g0.blocked_dest(ib as int) || exists|j2: int|
                            0 <= j2 < jb && j2 != ib && #[trigger] g0.players@[j2].alive && dest_x(
                                g0.players@[j2],
                            ) == dest_x(g0.players@[ib as int]) && dest_y(g0.players@[j2])
                                == dest_y(g0.players@[ib as int])),
                    decreases n - jb,
                {
                    if jb != ib && self.players[jb].alive {
                        let a = dests[ib];
                        let b = dests[jb];
                        if a.0 == b.0 && a.1 == b.1 {
                            kflag = true;
                        }
                    }
                    proof {
                        let j2 = jb as int;
                        let i2 = ib as int;
                        if j2 != i2 && g0.players@[j2].alive && dest_x(g0.players@[j2]) == dest_x(
                            g0.players@[i2],
                        ) && dest_y(g0.players@[j2]) == dest_y(g0.players@[i2]) {
                            assert(dests@[j2].0 == dests@[i2].0 && dests@[j2].1 == dests@[i2].1);
                            assert(kflag);
                        }
                    }
                    jb += 1;
                }
                proof {
                    assert(kflag == g0.crashes(ib as int));
                }
            }
            killed.push(kflag);
            ib += 1;
        }

        // apply the moves: steer, drop the dead, advance the movers, shift
        // their trails under the cap, and restamp the grid
        let mut id: usize = 0;
        while id < n
            invariant
                g0.wf(),
                g0.status == GameStatus::Running,
                n == g0.players@.len(),
                self.tick_frame(g0),
                self.status == GameStatus::Running,
                self.winner is None,
                self.finished_at is None,
                self.tick == sat_inc_u32(g0.tick),
                id <= n,
                self.players@.len() == n,
                dests@.len() == n,
                killed@.len() == n,
                forall|k: int|
                    0 <= k < n ==> #[trigger] dests@[k].0 as int == dest_x(g0.players@[k])
                        && dests@[k].1 as int == dest_y(g0.players@[k]),
                forall|m: int| 0 <= m < n ==> #[trigger] killed@[m] == g0.crashes(m),
                forall|i: int, j: int|
                    0 <= i < n && 0 <= j < n && i != j && #[trigger] g0.advances(i)
                        && #[trigger] g0.advances(j) ==> !(dest_x(g0.players@[i]) == dest_x(
                        g0.players@[j],
                    ) && dest_y(g0.players@[i]) == dest_y(g0.players@[j])),
                forall|i: int|
                    0 <= i < n && #[trigger] g0.advances(i) ==> g0.in_bounds(
                        dest_x(g0.players@[i]),
                        dest_y(g0.players@[i]),
                    ) && g0.cell_at(dest_x(g0.players@[i]), dest_y(g0.players@[i]))
                        == Cell::Empty,
                forall|i: int|
                    0 <= i < n && #[trigger] g0.advances(i) && g0.evicts(i) ==> g0.in_bounds(
                        g0.evict_cell(i).0,
                        g0.evict_cell(i).1,
                    ) && g0.cell_at(g0.evict_cell(i).0, g0.evict_cell(i).1) == Cell::Trail(
                        i as usize,
                    ),
                self.grid@.len() == self.height,
                forall|y: int|
                    0 <= y < self.height ==> (#[trigger] self.grid@[y])@.len() == self.width,
                forall|m: int| id <= m < n ==> self.players@[m] == #[trigger] g0.players@[m],
                forall|m: int|
                    0 <= m < id && !g0.players@[m].alive ==> self.players@[m]
                        == #[trigger] g0.players@[m],
                forall|m: int|
                    0 <= m < id && g0.crashes(m) ==> crashed_rel(
                        #[trigger] g0.players@[m],
                        self.players@[m],
                    ),
                forall|m: int|
                    0 <= m < id && g0.advances(m) ==> advanced_rel(
                        #[trigger] g0.players@[m],
                        self.players@[m],
                        g0.max_trail_length as nat,
                    ),
                forall|m: int|
                    0 <= m < n ==> self.players@[m].score == #[trigger] g0.players@[m].score,
                forall|m: int|
                    0 <= m < id && #[trigger] g0.advances(m) ==> self.cell_at(
                        dest_x(g0.players@[m]),
                        dest_y(g0.players@[m]),
                    ) == Cell::Trail(m as usize),
                forall|m: int|
                    0 <= m < id && #[trigger] g0.advances(m) && g0.evicts(m) ==> self.cell_at(
                        g0.evict_cell(m).0,
                        g0.evict_cell(m).1,
                    ) == Cell::Empty,
                forall|x: int, y: int|
                    g0.in_bounds(x, y) && (forall|m: int|
                        0 <= m < id && #[trigger] g0.advances(m) ==> !(dest_x(g0.players@[m]) == x
                            && dest_y(g0.players@[m]) == y) && !(g0.evicts(m) && g0.evict_cell(
                            m,
                        ).0 == x && g0.evict_cell(m).1 == y)) ==> self.cell_at(x, y)
                        == g0.cell_at(x, y),
            decreases n - id,
        {
            let ghost pre = *self;
            if self.players[id].alive {
                let d = {
                    let p = &self.players[id];
                    match p.pending_action {
                        Some(SteerAction::Left) => p.direction.turn_left(),
                        Some(SteerAction::Right) => p.direction.turn_right(),
                        _ => p.direction,
                    }
                };
                self.players[id].direction = d;
                self.players[id].pending_action = None;
                if killed[id] {
                    self.players[id].alive = false;
                    proof {
                        assert(crashed_rel(g0.players@[id as int], self.players@[id as int]));
                        assert(forall|x: int, y: int|
                            g0.in_bounds(x, y) ==> #[trigger] self.cell_at(x, y) == pre.cell_at(
                                x,
                                y,
                            ));
                    }
                } else {
                    proof {
                        assert(g0.advances(id as int));
                        assert(g0.player_wf(id as int));
                    }
                    let ox = self.players[id].x;
                    let oy = self.players[id].y;
                    self.players[id].trail.push_back((ox, oy));
                    if self.players[id].trail.len() > self.max_trail_length {
                        proof {
                            assert(g0.evicts(id as int));
                        }
                        let front = self.players[id].trail.pop_front();
                        if let Some(fc) = front {
                            proof {
                                assert((fc.0 as int, fc.1 as int) == g0.evict_cell(id as int));
                                assert(g0.cell_at(fc.0 as int, fc.1 as int) == Cell::Trail(id));
                                assert(self.cell_at(fc.0 as int, fc.1 as int) == g0.cell_at(
                                    fc.0 as int,
                                    fc.1 as int,
                                )) by {
                                    assert forall|m: int|
                                        0 <= m < id && #[trigger] g0.advances(m) implies !(dest_x(
                                        g0.players@[m],
                                    ) == fc.0 as int && dest_y(g0.players@[m]) == fc.1 as int)
                                        && !(g0.evicts(m) && g0.evict_cell(m).0 == fc.0 as int
                                        && g0.evict_cell(m).1 == fc.1 as int) by {
                                        assert(g0.cell_at(
                                            dest_x(g0.players@[m]),
                                            dest_y(g0.players@[m]),
                                        ) == Cell::Empty);
                                        if g0.evicts(m) {
                                            assert(g0.cell_at(
                                                g0.evict_cell(m).0,
                                                g0.evict_cell(m).1,
                                            ) == Cell::Trail(m as usize));
                                        }
                                    }
                                }
                            }
                            let fx = fc.0 as usize;
                            let fy = fc.1 as usize;
                            if fy < self.height && fx < self.width {
                                let c = self.grid[fy][fx];
                                if c == Cell::Trail(id) {
                                    self.grid[fy][fx] = Cell::Empty;
                                }
                            }
                        }
                    }
                    let dxy = dests[id];
                    self.players[id].x = dxy.0;
                    self.players[id].y = dxy.1;
                    let dist = self.players[id].distance_traveled;
                    if dist < u32::MAX {
                        self.players[id].distance_traveled = dist + 1;
                    }
                    self.grid[dxy.1 as usize][dxy.0 as usize] = Cell::Trail(id);
                    proof {
                        assert(advanced_rel(
                            g0.players@[id as int],
                            self.players@[id as int],
                            g0.max_trail_length as nat,
                        ));
                    }
                }
            }
            proof {
                let i = id as int;
                // the grid clauses survive this player's writes
                assert forall|m: int|
                    0 <= m < i + 1 && #[trigger] g0.advances(m) implies self.cell_at(
                    dest_x(g0.players@[m]),
                    dest_y(g0.players@[m]),
                ) == Cell::Trail(m as usize) by {
                    if m < i {
                        assert(pre.cell_at(dest_x(g0.players@[m]), dest_y(g0.players@[m]))
                            == Cell::Trail(m as usize));
                        assert(g0.cell_at(dest_x(g0.players@[m]), dest_y(g0.players@[m]))
                            == Cell::Empty);
                        if g0.advances(i) && g0.evicts(i) {
                            assert(g0.cell_at(g0.evict_cell(i).0, g0.evict_cell(i).1)
                                == Cell::Trail(id));
                        }
                    }
                }
                assert forall|m: int|
                    0 <= m < i + 1 && #[trigger] g0.advances(m) && g0.evicts(m) implies
                    self.cell_at(g0.evict_cell(m).0, g0.evict_cell(m).1) == Cell::Empty by {
                    if m < i {
                        assert(pre.cell_at(g0.evict_cell(m).0, g0.evict_cell(m).1)
                            == Cell::Empty);
                        assert(g0.cell_at(g0.evict_cell(m).0, g0.evict_cell(m).1) == Cell::Trail(
                            m as usize,
                        ));
                        if g0.advances(i) {
                            assert(g0.cell_at(dest_x(g0.players@[i]), dest_y(g0.players@[i]))
                                == Cell::Empty);
                            if g0.evicts(i) {
                                assert(g0.cell_at(g0.evict_cell(i).0, g0.evict_cell(i).1)
                                    == Cell::Trail(id));
                            }
                        }
                    }
                }
                assert forall|x: int, y: int|
                    g0.in_bounds(x, y) && (forall|m: int|
                        0 <= m < i + 1 && #[trigger] g0.advances(m) ==> !(dest_x(g0.players@[m])
                            == x && dest_y(g0.players@[m]) == y) && !(g0.evicts(m)
                            && g0.evict_cell(m).0 == x && g0.evict_cell(m).1 == y)) implies
                    self.cell_at(x, y) == g0.cell_at(x, y) by {
                    assert(pre.cell_at(x, y) == g0.cell_at(x, y));
                    if g0.advances(i) {
                        assert(!(dest_x(g0.players@[i]) == x && dest_y(g0.players@[i]) == y));
                        assert(!(g0.evicts(i) && g0.evict_cell(i).0 == x && g0.evict_cell(i).1
                            == y));
                    }
                }
            }
            id += 1;
        }

        // the win check, over the one post-move state
        proof {
            assert forall|m: int|
                0 <= m < n implies self.players@[m].alive == #[trigger] g0.advances(m) by {
                if !g0.players@[m].alive {
                    assert(self.players@[m] == g0.players@[m]);
                } else if g0.crashes(m) {
                    assert(crashed_rel(g0.players@[m], self.players@[m]));
                }
            }
        }
        let mut alive_count: usize = 0;
        let mut last_alive: usize = 0;
        let mut ie: usize = 0;
        while ie < n
            invariant
                n == g0.players@.len(),
                self.players@.len() == n,
                ie <= n,
                forall|m: int|
                    0 <= m < n ==> self.players@[m].alive == #[trigger] g0.advances(m),
                alive_count == g0.survivors(ie as int),
                alive_count <= ie,
                alive_count >= 1 ==> last_alive < ie && g0.advances(last_alive as int),
                alive_count == 1 ==> forall|m: int|
                    0 <= m < ie && #[trigger] g0.advances(m) ==> m == last_alive as int,
            decreases n - ie,
        {
            if self.players[ie].alive {
                alive_count += 1;
                last_alive = ie;
            }
            proof {
                if g0.advances(ie as int) && alive_count == 1 {
                    lemma_survivors_zero(g0, ie as int);
                }
            }
            ie += 1;
        }
        if alive_count == 0 || (alive_count == 1 && n >= 2) {
            self.status = GameStatus::Finished;
            self.finished_at = Some(now_millis());
            if alive_count == 1 && n >= 2 {
                self.winner = Some(last_alive);
                let d = self.players[last_alive].distance_traveled;
                let t = self.tick;
                let b = 1000 / t;
                let bonus = if b > 200 {
                    200
                } else {
                    b
                };
                let raw: u64 = 100u64 + d as u64 + bonus as u64;
                let score = if raw > 0xffff_ffffu64 {
                    u32::MAX
                } else {
                    raw as u32
                };
                self.players[last_alive].score = score;
            }
        }
        proof {
            assert(tick_rel(g0, *self));
            lemma_tick_wf(g0, *self);
        }
    }
}

/// A started game is well-formed: the stamped spawn cells are exactly the
/// cells the players claim.
proof fn lemma_start_wf(g0: Game, s: Game)
    requires
        g0.wf(),
        g0.status == GameStatus::WaitingForPlayers,
        s.players == g0.players,
        s.width == g0.width,
        s.height == g0.height,
        s.max_trail_length == g0.max_trail_length,
        s.status == GameStatus::Running,
        s.winner is None,
        s.finished_at is None,
        s.grid@.len() == s.height,
        forall|y: int| 0 <= y < s.height ==> (#[trigger] s.grid@[y])@.len() == s.width,
        forall|j: int|
            0 <= j < g0.players@.len() ==> {
                let p = #[trigger] g0.players@[j];
                s.cell_at(p.x as int, p.y as int) == Cell::Trail(j as usize)
            },
        forall|x: int, y: int|
            g0.in_bounds(x, y) && (forall|j: int|
                0 <= j < g0.players@.len() ==> !(#[trigger] g0.players@[j].x as int == x
                    && g0.players@[j].y as int == y)) ==> s.cell_at(x, y) == g0.cell_at(x, y),
    ensures
        s.wf(),
{
    assert forall|i: int| 0 <= i < s.players@.len() implies s.player_wf(i) by {
        assert(g0.player_wf(i));
    }
    assert forall|i: int| 0 <= i < s.players@.len() implies s.trail_distinct(i) by {
        assert(g0.trail_distinct(i));
    }
    assert forall|x: int, y: int| s.in_bounds(x, y) implies match s.cell_at(x, y) {
        Cell::Trail(k) => k < s.players@.len() && owns_cell(s, k as int, x, y),
        _ => true,
    } by {
        if forall|j: int|
            0 <= j < g0.players@.len() ==> !(#[trigger] g0.players@[j].x as int == x
                && g0.players@[j].y as int == y) {
            assert(s.cell_at(x, y) == g0.cell_at(x, y));
            assert(!(g0.cell_at(x, y) matches Cell::Trail(_)));
        } else {
            let j = choose|j: int|
                0 <= j < g0.players@.len() && #[trigger] g0.players@[j].x as int == x
                    && g0.players@[j].y as int == y;
            assert(s.cell_at(x, y) == Cell::Trail(j as usize));
            assert(owns_cell(s, j, x, y));
        }
    }
    assert forall|x: int, y: int, idx: int|
        s.in_bounds(x, y) && 0 <= idx < s.players@.len() && #[trigger] owns_cell(
        s,
        idx,
        x,
        y,
    ) implies s.cell_at(x, y) == Cell::Trail(idx as usize) by {
        assert(is_spawn_player(g0, idx));
        assert(g0.players@[idx].trail@.len() == 0);
        assert(g0.players@[idx].x as int == x && g0.players@[idx].y as int == y);
    }
}

/// A match snapshot with every field coded in plain values, as presentation
/// adapters consume it.
#[derive(Debug, Clone)]
pub struct WebGameState {
    pub id: String,
    pub width: usize,
    pub height: usize,
    pub grid: Vec<Vec<u8>>,
    pub players: Vec<WebPlayer>,
    pub status: GameStatus,
    pub tick: u32,
    pub course_name: String,
    pub course_level: u32,
    pub winner: Option<usize>,
    pub created_at: String,
    pub finished_at: Option<String>,
}

/// The public fields of one player inside a match snapshot.
#[derive(Debug, Clone)]
pub struct WebPlayer {
    pub index: usize,
    pub name: String,
    pub x: i32,
    pub y: i32,
    pub alive: bool,
    pub direction: Direction,
    pub distance: u32,
    pub score: u32,
}

/// What chrono's RFC 3339 renderer prints for a Utc timestamp given as
/// milliseconds since the Unix epoch (the empty string where the stamp is
/// outside chrono's range). The result depends on the milliseconds alone.
pub uninterp spec fn rfc3339_of(ms: i64) -> Seq<char>;

/// Relies on chrono's DateTime::from_timestamp_millis and
/// DateTime::to_rfc3339: the RFC 3339 text of a Utc timestamp.
#[verifier::external_body]
fn format_rfc3339(ms: i64) -> (r: String)
    ensures
        r@ == rfc3339_of(ms),
{
    match chrono::DateTime::<chrono::Utc>::from_timestamp_millis(ms) {
        Some(t) => t.to_rfc3339(),
        None => String::new(),
    }
}

/// The cell coding of match snapshots: empty, wall and obstruction first,
/// then one code per player index.
pub open spec fn cell_code(c: Cell) -> u8 {
    match c {
        Cell::Empty => 0u8,
        Cell::Wall => 1u8,
        Cell::Obstruction => 2u8,
        Cell::Trail(idx) => (3 + idx) as u8,
    }
}

/// Read a lowercase steering token; anything else is unrecognized input.
pub fn parse_steer_action(token: &str) -> (r: Option<SteerAction>)
    ensures
        token@ == "left"@ ==> r == Some(SteerAction::Left),
        token@ == "right"@ ==> r == Some(SteerAction::Right),
        token@ == "straight"@ ==> r == Some(SteerAction::Straight),
        token@ != "left"@ && token@ != "right"@ && token@ != "straight"@ ==> r is None,
{
    proof {
        reveal_strlit("left");
        reveal_strlit("right");
        reveal_strlit("straight");
        assert(("left"@).len() == 4);
        assert(("right"@).len() == 5);
        assert(("straight"@).len() == 8);
    }
    if crate::text::str_eq(token, "left") {
        Some(SteerAction::Left)
    } else if crate::text::str_eq(token, "right") {
        Some(SteerAction::Right)
    } else if crate::text::str_eq(token, "straight") {
        Some(SteerAction::Straight)
    } else {
        None
    }
}

/// Two still-alive players that compute the identical destination in one
/// step both die, whatever order they are looked at in.
pub proof fn lemma_shared_destination_kills_both(g: Game, i: int, j: int)
    requires
        0 <= i < g.players@.len(),
        0 <= j < g.players@.len(),
        i != j,
        g.players@[i].alive,
        g.players@[j].alive,
        dest_x(g.players@[i]) == dest_x(g.players@[j]),
        dest_y(g.players@[i]) == dest_y(g.players@[j]),
    ensures
        g.crashes(i),
        g.crashes(j),
{
    assert(g.head_on(i)) by {
        assert(0 <= j < g.players@.len() && j != i && g.players@[j].alive && dest_x(
            g.players@[j],
        ) == dest_x(g.players@[i]) && dest_y(g.players@[j]) == dest_y(g.players@[i]));
    }
    assert(g.head_on(j)) by {
        assert(0 <= i < g.players@.len() && i != j && g.players@[i].alive && dest_x(
            g.players@[i],
        ) == dest_x(g.players@[j]) && dest_y(g.players@[i]) == dest_y(g.players@[j]));
    }
}

/// The cells strictly inside the border ring of a width-by-height board.
pub open spec fn interior_cells(w: int, h: int) -> Set<(int, int)> {
    Set::new(|c: (int, int)| 1 <= c.0 < w - 1 && 1 <= c.1 < h - 1)
}

/// One row of interior cells.
pub open spec fn interior_row(w: int, y: int) -> Set<(int, int)> {
    Set::new(|c: (int, int)| 1 <= c.0 < w - 1 && c.1 == y)
}

proof fn lemma_interior_row_card(w: int, y: int)
    requires
        2 <= w,
    ensures
        interior_row(w, y).finite(),
        interior_row(w, y).len() == w - 2,
    decreases w,
{
    if w == 2 {
        assert(interior_row(w, y) =~= Set::<(int, int)>::empty());
    } else {
        lemma_interior_row_card(w - 1, y);
        assert(interior_row(w, y) =~= interior_row(w - 1, y).insert((w - 2, y)));
        assert(!interior_row(w - 1, y).contains((w - 2, y)));
    }
}

/// The playable area inside the border ring counts
/// `(width - 2) * (height - 2)` cells.
pub proof fn lemma_playable_area(w: int, h: int)
    requires
        2 <= w,
        2 <= h,
    ensures
        interior_cells(w, h).finite(),
        interior_cells(w, h).len() == (w - 2) * (h - 2),
    decreases h,
{
    if h == 2 {
        assert(interior_cells(w, h) =~= Set::<(int, int)>::empty());
        assert(interior_cells(w, h).len() == 0);
        assert((w - 2) * (h - 2) == 0) by (nonlinear_arith)
            requires h == 2;
    } else {
        lemma_playable_area(w, h - 1);
        lemma_interior_row_card(w, h - 2);
        let a = interior_cells(w, h - 1);
        let b = interior_row(w, h - 2);
        assert(interior_cells(w, h) =~= a + b);
        assert(a.disjoint(b));
        vstd::set_lib::lemma_set_disjoint_lens(a, b);
        assert((a + b).len() == a.len() + b.len());
        assert(a.len() == (w - 2) * (h - 1 - 2));
        assert(b.len() == w - 2);
        assert((w - 2) * (h - 2) == (w - 2) * (h - 1 - 2) + (w - 2)) by (nonlinear_arith);
    }
}

/// For any course whose obstructions keep off the border ring, the fresh
/// grid's border ring is entirely wall.
pub proof fn lemma_border_is_wall(g: Game, course: &crate::course::Course)
    requires
        g.width == course.width,
        g.height == course.height,
        forall|x: int, y: int|
            g.in_bounds(x, y) ==> #[trigger] g.cell_at(x, y) == initial_cell(course, x, y),
        forall|k: int|
            0 <= k < course.obstructions@.len() ==> !on_border(
                course.width as int,
                course.height as int,
                (#[trigger] course.obstructions@[k]).0 as int,
                course.obstructions@[k].1 as int,
            ),
    ensures
        forall|x: int, y: int|
            g.in_bounds(x, y) && on_border(g.width as int, g.height as int, x, y)
                ==> #[trigger] g.cell_at(x, y) == Cell::Wall,
{
    assert forall|x: int, y: int|
        g.in_bounds(x, y) && on_border(g.width as int, g.height as int, x, y) implies
        #[trigger] g.cell_at(x, y) == Cell::Wall by {
        assert(g.cell_at(x, y) == initial_cell(course, x, y));
        if lists_cell(course.obstructions@, x, y) {
            let k = choose|k: int|
                0 <= k < course.obstructions@.len() && #[trigger] course.obstructions@[k].0 as int
                    == x && course.obstructions@[k].1 as int == y;
            assert(!on_border(course.width as int, course.height as int, x, y));
        }
    }
}

/// The grid cells tagged with one player's index.
pub open spec fn tagged_cells(g: Game, i: int) -> Set<(int, int)> {
    Set::new(
        |c: (int, int)| g.in_bounds(c.0, c.1) && g.cell_at(c.0, c.1) == Cell::Trail(i as usize),
    )
}

/// A player's trail never exceeds its course's cap, and the grid never
/// tags more than one cell beyond that cap with its index: its trail cells
/// plus the cell it stands on.
pub proof fn lemma_trail_capped(g: Game, i: int)
    requires
        g.wf(),
        g.status != GameStatus::WaitingForPlayers,
        0 <= i < g.players@.len(),
    ensures
        g.players@[i].trail@.len() <= g.max_trail_length,
        tagged_cells(g, i).finite(),
        tagged_cells(g, i).len() <= g.max_trail_length + 1,
{
    broadcast use vstd::seq_lib::seq_to_set_is_finite;

    let p = g.players@[i];
    assert(g.player_wf(i));
    let mapped = p.trail@.map_values(|c: (i32, i32)| (c.0 as int, c.1 as int));
    let owned = mapped.to_set().insert((p.x as int, p.y as int));
    assert(g.trails_wf());
    assert forall|c: (int, int)| tagged_cells(g, i).contains(c) implies owned.contains(c) by {
        assert(g.cell_at(c.0, c.1) == Cell::Trail(i as usize));
        assert(owns_cell(g, i, c.0, c.1));
        if p.x as int == c.0 && p.y as int == c.1 {
        } else {
            let k = choose|k: int|
                0 <= k < p.trail@.len() && #[trigger] p.trail@[k].0 as int == c.0
                    && p.trail@[k].1 as int == c.1;
            assert(mapped[k] == c);
            assert(mapped.contains(c));
        }
    }
    mapped.lemma_cardinality_of_set();
    assert(owned.finite());
    assert(owned.len() <= mapped.len() + 1);
    assert(tagged_cells(g, i).subset_of(owned));
    vstd::set_lib::lemma_len_subset(tagged_cells(g, i), owned);
}

/// A non-negative difference.
pub open spec fn abs_int(a: int) -> int {
    if a < 0 {
        -a
    } else {
        a
    }
}

/// The symbol the look report shows for one window cell: the viewer, walls
/// and the world outside the board, obstructions, trails (the viewer's own,
/// or another player's index folded to one digit), or empty ground.
pub open spec fn look_cell(g: Game, v: int, gx: int, gy: int) -> Seq<char> {
    let p = g.players@[v];
    if gx == p.x as int && gy == p.y as int {
        "@"@
    } else if !g.in_bounds(gx, gy) {
        "#"@
    } else {
        match g.cell_at(gx, gy) {
            Cell::Empty => "."@,
            Cell::Wall => "#"@,
            Cell::Obstruction => "X"@,
            Cell::Trail(idx) => if idx as int == v {
                "|"@
            } else {
                crate::text::dec_str(idx as int % 9 + 1)
            },
        }
    }
}

/// The first `k` cells of one window row, blank-separated.
pub open spec fn look_row(g: Game, v: int, gy: int, x0: int, k: int) -> Seq<char>
    decreases k,
{
    if k <= 0 {
        Seq::empty()
    } else if k == 1 {
        look_cell(g, v, x0, gy)
    } else {
        look_row(g, v, gy, x0, k - 1) + " "@ + look_cell(g, v, x0 + (k - 1), gy)
    }
}

/// The first `m` window rows, each on a line of its own.
pub open spec fn look_rows(g: Game, v: int, x0: int, y0: int, w: int, m: int) -> Seq<char>
    decreases m,
{
    if m <= 0 {
        Seq::empty()
    } else {
        look_rows(g, v, x0, y0, w, m - 1) + "\n"@ + look_row(g, v, y0 + (m - 1), x0, w)
    }
}

/// The look line about another player: status and Manhattan distance.
pub open spec fn look_player_line(g: Game, v: int, j: int) -> Seq<char> {
    let p = g.players@[j];
    let q = g.players@[v];
    "Player '"@ + p.name@ + "': "@ + (if p.alive {
        "ALIVE"@
    } else {
        "CRASHED"@
    }) + " (manhattan distance: "@ + crate::text::dec_str(
        abs_int(p.x - q.x) + abs_int(p.y - q.y),
    ) + ")"@
}

/// The look lines about the first `j` players other than the viewer.
pub open spec fn look_player_lines(g: Game, v: int, j: int) -> Seq<char>
    decreases j,
{
    if j <= 0 {
        Seq::empty()
    } else {
        look_player_lines(g, v, j - 1) + (if j - 1 == v {
            Seq::empty()
        } else {
            "\n"@ + look_player_line(g, v, j - 1)
        })
    }
}

/// The whole look report for player `v` with the given view radius.
pub open spec fn look_text(g: Game, v: int, radius: int) -> Seq<char> {
    let p = g.players@[v];
    let head = "Your light-cycle '"@ + p.name@ + "' is at ("@ + crate::text::int_str(p.x as int)
        + ", "@ + crate::text::int_str(p.y as int) + ") heading "@ + spec_direction_name(
        p.direction,
    ) + "."@;
    if !p.alive {
        head + "\n"@ + "YOU HAVE CRASHED! Game over for you."@
    } else {
        let n = g.players@.len() as int;
        let side = 2 * radius + 1;
        head + "\n"@ + "Distance traveled: "@ + crate::text::dec_str(p.distance_traveled as int)
            + ". Tick: "@ + crate::text::dec_str(g.tick as int) + "."@ + "\n"@ + "Players alive: "@
            + crate::text::dec_str(alive_upto(g, n)) + "/"@ + crate::text::dec_str(n) + "\n"@
            + "Grid ("@ + crate::text::dec_str(side) + "x"@ + crate::text::dec_str(side)
            + " view centered on you):"@ + look_rows(
            g,
            v,
            p.x - radius,
            p.y - radius,
            side,
            side,
        ) + "\n"@ + "\n"@
            + "Legend: @ = you, | = your trail, 1-9 = other players/trails, # = wall, X = obstruction, . = empty"@
            + look_player_lines(g, v, n)
    }
}

/// How many of the first `k` players are alive.
pub open spec fn alive_upto(g: Game, k: int) -> int
    decreases k,
{
    if k <= 0 {
        0
    } else {
        alive_upto(g, k - 1) + if g.players@[k - 1].alive {
            1int
        } else {
            0int
        }
    }
}

/// The snapshot `w` is the plain rendering of match `g`, field by field.
pub open spec fn is_web_state_of(w: WebGameState, g: Game) -> bool {
    &&& w.id@ == crate::text::dec_str(g.id as int)
    &&& w.width == g.width
    &&& w.height == g.height
    &&& w.grid@.len() == g.height
    &&& forall|y: int| 0 <= y < g.height ==> (#[trigger] w.grid@[y])@.len() == g.width
    &&& forall|x: int, y: int|
        g.in_bounds(x, y) ==> #[trigger] w.grid@[y]@[x] == cell_code(g.cell_at(x, y))
    &&& w.players@.len() == g.players@.len()
    &&& forall|i: int|
        0 <= i < g.players@.len() ==> {
            let p = #[trigger] g.players@[i];
            let wp = w.players@[i];
            &&& wp.index == i
            &&& wp.name == p.name
            &&& wp.x == p.x
            &&& wp.y == p.y
            &&& wp.alive == p.alive
            &&& wp.direction == p.direction
            &&& wp.distance == p.distance_traveled
            &&& wp.score == p.score
        }
    &&& w.status == g.status
    &&& w.tick == g.tick
    &&& w.course_name == g.course_name
    &&& w.course_level == g.course_level
    &&& w.winner == g.winner
    &&& w.created_at@ == rfc3339_of(g.created_at)
    &&& match g.finished_at {
        Some(ms) => w.finished_at matches Some(s) && s@ == rfc3339_of(ms),
        None => w.finished_at is None,
    }
}

impl Game {
    /// The symbol shown for one cell of the look window.
    fn look_cell_string(&self, v: usize, gx: i64, gy: i64) -> (r: String)
        requires
            self.wf(),
            v < self.players@.len(),
        ensures
            r@ == look_cell(*self, v as int, gx as int, gy as int),
    {
        proof {
            reveal_strlit("@");
            reveal_strlit("#");
            reveal_strlit(".");
            reveal_strlit("X");
            reveal_strlit("|");
        }
        let px = self.players[v].x;
        let py = self.players[v].y;
        if gx == px as i64 && gy == py as i64 {
            String::from_str("@")
        } else if gx < 0 || gy < 0 || gx >= self.width as i64 || gy >= self.height as i64 {
            String::from_str("#")
        } else {
            match self.grid[gy as usize][gx as usize] {
                Cell::Empty => String::from_str("."),
                Cell::Wall => String::from_str("#"),
                Cell::Obstruction => String::from_str("X"),
                Cell::Trail(idx) => {
                    if idx == v {
                        String::from_str("|")
                    } else {
                        crate::text::usize_string(idx % 9 + 1)
                    }
                },
            }
        }
    }

    /// Render the `(2 * radius + 1)`-square window centered on a player,
    /// with its status header, the legend, and the distance to every other
    /// player.
    pub fn look(&self, player_idx: usize, view_radius: usize) -> (r: String)
        requires
            self.wf(),
            player_idx < self.players@.len(),
            view_radius <= 0x3fff_ffff,
        ensures
            r@ == look_text(*self, player_idx as int, view_radius as int),
    {
        proof {
            reveal_strlit("Your light-cycle '");
            reveal_strlit("' is at (");
            reveal_strlit(", ");
            reveal_strlit(") heading ");
            reveal_strlit(".");
            reveal_strlit("\n");
            reveal_strlit("YOU HAVE CRASHED! Game over for you.");
            reveal_strlit("Distance traveled: ");
            reveal_strlit(". Tick: ");
            reveal_strlit("Players alive: ");
            reveal_strlit("/");
            reveal_strlit("Grid (");
            reveal_strlit("x");
            reveal_strlit(" view centered on you):");
            reveal_strlit(
                "Legend: @ = you, | = your trail, 1-9 = other players/trails, # = wall, X = obstruction, . = empty",
            );
            reveal_strlit("Player '");
            reveal_strlit("': ");
            reveal_strlit("ALIVE");
            reveal_strlit("CRASHED");
            reveal_strlit(" (manhattan distance: ");
            reveal_strlit(")");
        }
        let ghost g = *self;
        let ghost v = player_idx as int;
        let px = self.players[player_idx].x;
        let py = self.players[player_idx].y;
        let mut s = String::from_str("Your light-cycle '");
        s.append(self.players[player_idx].name.as_str());
        s.append("' is at (");
        s.append(crate::text::i32_string(px).as_str());
        s.append(", ");
        s.append(crate::text::i32_string(py).as_str());
        s.append(") heading ");
        s.append(self.players[player_idx].direction.name());
        s.append(".");

        if !self.players[player_idx].alive {
            s.append("\n");
            s.append("YOU HAVE CRASHED! Game over for you.");
            proof {
                assert(s@ =~= look_text(g, v, view_radius as int));
            }
            return s;
        }
        let n = self.players.len();

        let mut alive_count: usize = 0;
        let mut k: usize = 0;
        while k < n
            invariant
                n == self.players@.len(),
                k <= n,
                alive_count <= k,
                alive_count == alive_upto(*self, k as int),
            decreases n - k,
        {
            if self.players[k].alive {
                alive_count += 1;
            }
            k += 1;
        }

        let side: usize = 2 * view_radius + 1;
        s.append("\n");
        s.append("Distance traveled: ");
        s.append(crate::text::u32_string(self.players[player_idx].distance_traveled).as_str());
        s.append(". Tick: ");
        s.append(crate::text::u32_string(self.tick).as_str());
        s.append(".");
        s.append("\n");
        s.append("Players alive: ");
        s.append(crate::text::usize_string(alive_count).as_str());
        s.append("/");
        s.append(crate::text::usize_string(n).as_str());
        s.append("\n");
        s.append("Grid (");
        s.append(crate::text::usize_string(side).as_str());
        s.append("x");
        s.append(crate::text::usize_string(side).as_str());
        s.append(" view centered on you):");

        // the window rows
        let ghost x0 = px - view_radius as int;
        let ghost y0 = py - view_radius as int;
        let mut rows = String::new();
        let mut m: usize = 0;
        while m < side
            invariant
                g == *self,
                self.wf(),
                player_idx < self.players@.len(),
                v == player_idx as int,
                px == self.players@[v].x,
                py == self.players@[v].y,
                side == 2 * view_radius + 1,
                view_radius <= 0x3fff_ffff,
                x0 == px - view_radius as int,
                y0 == py - view_radius as int,
                m <= side,
                rows@ == look_rows(g, v, x0, y0, side as int, m as int),
            decreases side - m,
        {
            let gy: i64 = py as i64 + m as i64 - view_radius as i64;
            let mut row = String::new();
            let mut kx: usize = 0;
            while kx < side
                invariant
                    g == *self,
                    self.wf(),
                    player_idx < self.players@.len(),
                    v == player_idx as int,
                    px == self.players@[v].x,
                    side == 2 * view_radius + 1,
                    view_radius <= 0x3fff_ffff,
                    x0 == px - view_radius as int,
                    gy as int == y0 + m as int,
                    kx <= side,
                    row@ == look_row(g, v, gy as int, x0, kx as int),
                decreases side - kx,
            {
                let gx: i64 = px as i64 + kx as i64 - view_radius as i64;
                if kx > 0 {
                    row.append(" ");
                    proof {
                        reveal_strlit(" ");
                    }
                }
                let cs = self.look_cell_string(player_idx, gx, gy);
                row.append(cs.as_str());
                kx += 1;
            }
            rows.append("\n");
            rows.append(row.as_str());
            m += 1;
        }
        s.append(rows.as_str());
        s.append("\n");
        s.append("\n");
        s.append(
            "Legend: @ = you, | = your trail, 1-9 = other players/trails, # = wall, X = obstruction, . = empty",
        );

        // the other players
        let mut others = String::new();
        let mut j: usize = 0;
        while j < n
            invariant
                g == *self,
                self.wf(),
                n == self.players@.len(),
                player_idx < n,
                v == player_idx as int,
                px == self.players@[v].x,
                py == self.players@[v].y,
                j <= n,
                others@ == look_player_lines(g, v, j as int),
            decreases n - j,
        {
            if j != player_idx {
                let p = &self.players[j];
                others.append("\n");
                others.append("Player '");
                others.append(p.name.as_str());
                others.append("': ");
                if p.alive {
                    others.append("ALIVE");
                } else {
                    others.append("CRASHED");
                }
                others.append(" (manhattan distance: ");
                let dx: i64 = p.x as i64 - px as i64;
                let dy: i64 = p.y as i64 - py as i64;
                let adx: i64 = if dx < 0 {
                    -dx
                } else {
                    dx
                };
                let ady: i64 = if dy < 0 {
                    -dy
                } else {
                    dy
                };
                let md: i64 = adx + ady;
                others.append(crate::text::u64_string(md as u64).as_str());
                others.append(")");
                proof {
                    assert(others@ =~= look_player_lines(g, v, j + 1));
                }
            }
            j += 1;
        }
        s.append(others.as_str());
        proof {
            assert(s@ =~= look_text(g, v, view_radius as int));
        }
        s
    }

    /// Serialize the match state into the plain snapshot form.
    pub fn to_web_state(&self) -> (r: WebGameState)
        requires
            self.wf(),
        ensures
            is_web_state_of(r, *self),
    {
        let mut grid_data: Vec<Vec<u8>> = Vec::new();
        let mut y: usize = 0;
        while y < self.height
            invariant
                self.wf(),
                y <= self.height,
                grid_data@.len() == y,
                forall|r2: int|
                    0 <= r2 < y ==> (#[trigger] grid_data@[r2])@.len() == self.width,
                forall|x2: int, y2: int|
                    0 <= y2 < y && 0 <= x2 < self.width ==> #[trigger] grid_data@[y2]@[x2]
                        == cell_code(self.cell_at(x2, y2)),
            decreases self.height - y,
        {
            let mut row: Vec<u8> = Vec::new();
            let mut x: usize = 0;
            while x < self.width
                invariant
                    self.wf(),
                    y < self.height,
                    x <= self.width,
                    row@.len() == x,
                    forall|x2: int|
                        0 <= x2 < x ==> #[trigger] row@[x2] == cell_code(
                            self.cell_at(x2, y as int),
                        ),
                decreases self.width - x,
            {
                let code: u8 = match self.grid[y][x] {
                    Cell::Empty => 0,
                    Cell::Wall => 1,
                    Cell::Obstruction => 2,
                    Cell::Trail(idx) => {
                        proof {
                            assert(self.cell_at(x as int, y as int) == Cell::Trail(idx));
                            match self.status {
                                GameStatus::WaitingForPlayers => {
                                    assert(self.no_trails());
                                },
                                _ => {
                                    assert(self.trails_wf());
                                },
                            }
                            assert(idx < 8);
                        }
                        (3 + idx) as u8
                    },
                };
                row.push(code);
                x += 1;
            }
            grid_data.push(row);
            y += 1;
        }

        let mut players: Vec<WebPlayer> = Vec::new();
        let mut i: usize = 0;
        while i < self.players.len()
            invariant
                self.wf(),
                i <= self.players@.len(),
                players@.len() == i,
                forall|j: int|
                    0 <= j < i ==> {
                        let p = #[trigger] self.players@[j];
                        let wp = players@[j];
                        &&& wp.index == j
                        &&& wp.name == p.name
                        &&& wp.x == p.x
                        &&& wp.y == p.y
                        &&& wp.alive == p.alive
                        &&& wp.direction == p.direction
                        &&& wp.distance == p.distance_traveled
                        &&& wp.score == p.score
                    },
            decreases self.players@.len() - i,
        {
            let p = &self.players[i];
            players.push(
                WebPlayer {
                    index: i,
                    name: p.name.clone(),
                    x: p.x,
                    y: p.y,
                    alive: p.alive,
                    direction: p.direction,
                    distance: p.distance_traveled,
                    score: p.score,
                },
            );
            i += 1;
        }

        WebGameState {
            id: crate::text::u64_string(self.id),
            width: self.width,
            height: self.height,
            grid: grid_data,
            players,
            status: self.status,
            tick: self.tick,
            course_name: self.course_name.clone(),
            course_level: self.course_level,
            winner: self.winner,
            created_at: format_rfc3339(self.created_at),
            finished_at: match self.finished_at {
                Some(ms) => Some(format_rfc3339(ms)),
                None => None,
            },
        }
    }
}

} // verus!
