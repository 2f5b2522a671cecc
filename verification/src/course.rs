//! The course catalog: immutable board templates ordered by difficulty.

use vstd::prelude::*;

verus! {

/// A course / level definition.
#[derive(Debug, Clone)]
pub struct Course {
    pub name: String,
    pub level: u32,
    pub width: usize,
    pub height: usize,
    pub max_trail_length: usize,
    pub max_players: usize,
    pub obstructions: Vec<(usize, usize)>,
    pub walls: Vec<(usize, usize)>,
}

/// Relies on rand::random_range: a uniform draw from `lo..hi`. It panics on
/// an empty range, which the precondition rules out; nothing more than the
/// range is promised of the draw.
#[verifier::external_body]
fn rand_range(lo: usize, hi: usize) -> (r: usize)
    requires
        lo < hi,
    ensures
        lo <= r < hi,
{
    rand::random_range(lo..hi)
}

/// The wall list of "The Maze": two horizontal runs and three vertical runs.
pub open spec fn maze_walls() -> Seq<(usize, usize)> {
    Seq::new(
        28,
        |k: int|
            if k % 2 == 0 {
                ((8 + k / 2) as usize, 10usize)
            } else {
                ((8 + (k - 1) / 2) as usize, 25usize)
            },
    ) + Seq::new(10, |k: int| (15usize, (10 + k) as usize)) + Seq::new(
        10,
        |k: int| (25usize, (5 + k) as usize),
    ) + Seq::new(10, |k: int| (8usize, (20 + k) as usize))
}

/// The wall list of "Narrow Corridors" up to column `n`: two horizontal
/// dividers, each with one gap.
pub open spec fn corridor_walls(n: int) -> Seq<(usize, usize)>
    decreases n,
{
    if n <= 0 {
        Seq::empty()
    } else {
        corridor_walls(n - 1) + (if n - 1 < 10 || n - 1 > 15 {
            seq![((n - 1) as usize, 7usize)]
        } else {
            Seq::empty()
        }) + (if n - 1 < 30 || n - 1 > 40 {
            seq![((n - 1) as usize, 14usize)]
        } else {
            Seq::empty()
        })
    }
}

/// One two-by-two block of obstructions with corner (x, y).
pub open spec fn gauntlet_block(x: int, y: int) -> Seq<(usize, usize)> {
    seq![
        (x as usize, y as usize),
        ((x + 1) as usize, y as usize),
        (x as usize, (y + 1) as usize),
        ((x + 1) as usize, (y + 1) as usize),
    ]
}

/// The first `n` blocks of one gauntlet column at abscissa `x`.
pub open spec fn gauntlet_col(x: int, n: int) -> Seq<(usize, usize)>
    decreases n,
{
    if n <= 0 {
        Seq::empty()
    } else {
        gauntlet_col(x, n - 1) + gauntlet_block(x, 5 + 6 * (n - 1))
    }
}

/// The first `m` columns of the gauntlet obstruction pattern.
pub open spec fn gauntlet_obstructions(m: int) -> Seq<(usize, usize)>
    decreases m,
{
    if m <= 0 {
        Seq::empty()
    } else {
        gauntlet_obstructions(m - 1) + gauntlet_col(5 + 6 * (m - 1), 5)
    }
}

pub open spec fn is_open_arena(c: Course) -> bool {
    &&& c.name@ == "Open Arena"@
    &&& c.level == 1
    &&& c.width == 30
    &&& c.height == 30
    &&& c.max_trail_length == 50
    &&& c.max_players == 4
    &&& c.obstructions@ == Seq::<(usize, usize)>::empty()
    &&& c.walls@ == Seq::<(usize, usize)>::empty()
}

pub open spec fn is_the_maze(c: Course) -> bool {
    &&& c.name@ == "The Maze"@
    &&& c.level == 2
    &&& c.width == 40
    &&& c.height == 35
    &&& c.max_trail_length == 80
    &&& c.max_players == 4
    &&& c.obstructions@ == Seq::<(usize, usize)>::empty()
    &&& c.walls@ == maze_walls()
}

pub open spec fn is_narrow_corridors(c: Course) -> bool {
    &&& c.name@ == "Narrow Corridors"@
    &&& c.level == 3
    &&& c.width == 50
    &&& c.height == 22
    &&& c.max_trail_length == 100
    &&& c.max_players == 4
    &&& c.obstructions@ == Seq::<(usize, usize)>::empty()
    &&& c.walls@ == corridor_walls(50)
}

pub open spec fn is_the_gauntlet(c: Course) -> bool {
    &&& c.name@ == "The Gauntlet"@
    &&& c.level == 4
    &&& c.width == 60
    &&& c.height == 40
    &&& c.max_trail_length == 150
    &&& c.max_players == 6
    &&& c.obstructions@ == gauntlet_obstructions(9)
    &&& c.walls@ == Seq::<(usize, usize)>::empty()
}

/// "Chaos" draws its wall segments from a random generator; only the frame
/// of the course and the bounds of the segments are fixed.
pub open spec fn is_chaos(c: Course) -> bool {
    &&& c.name@ == "Chaos"@
    &&& c.level == 5
    &&& c.width == 80
    &&& c.height == 80
    &&& c.max_trail_length == 300
    &&& c.max_players == 8
    &&& c.obstructions@ == Seq::<(usize, usize)>::empty()
    &&& c.walls@.len() <= 270
    &&& forall|k: int|
        0 <= k < c.walls@.len() ==> 5 <= #[trigger] c.walls@[k].0 < 79 && 5 <= c.walls@[k].1 < 79
}

/// The course a clamped 1-indexed level selects.
pub open spec fn is_course_for_level(level: u32, c: Course) -> bool {
    if level <= 1 {
        is_open_arena(c)
    } else if level == 2 {
        is_the_maze(c)
    } else if level == 3 {
        is_narrow_corridors(c)
    } else if level == 4 {
        is_the_gauntlet(c)
    } else {
        is_chaos(c)
    }
}

fn course_open_arena() -> (c: Course)
    ensures
        is_open_arena(c),
{
    Course {
        name: "Open Arena".to_owned(),
        level: 1,
        width: 30,
        height: 30,
        max_trail_length: 50,
        max_players: 4,
        obstructions: Vec::new(),
        walls: Vec::new(),
    }
}

fn course_the_maze() -> (c: Course)
    ensures
        is_the_maze(c),
{
    let mut walls: Vec<(usize, usize)> = Vec::new();
    // Horizontal walls
    let mut x: usize = 8;
    while x < 22
        invariant
            8 <= x <= 22,
            walls@.len() == 2 * (x - 8),
            forall|j: int| 0 <= j < walls@.len() ==> walls@[j] == maze_walls()[j],
        decreases 22 - x,
    {
        walls.push((x, 10));
        walls.push((x, 25));
        x += 1;
    }
    // Vertical walls
    let mut y: usize = 10;
    while y < 20
        invariant
            10 <= y <= 20,
            walls@.len() == 28 + (y - 10),
            forall|j: int| 0 <= j < walls@.len() ==> walls@[j] == maze_walls()[j],
        decreases 20 - y,
    {
        walls.push((15, y));
        y += 1;
    }
    let mut y2: usize = 5;
    while y2 < 15
        invariant
            5 <= y2 <= 15,
            walls@.len() == 38 + (y2 - 5),
            forall|j: int| 0 <= j < walls@.len() ==> walls@[j] == maze_walls()[j],
        decreases 15 - y2,
    {
        walls.push((25, y2));
        y2 += 1;
    }
    let mut y3: usize = 20;
    while y3 < 30
        invariant
            20 <= y3 <= 30,
            walls@.len() == 48 + (y3 - 20),
            forall|j: int| 0 <= j < walls@.len() ==> walls@[j] == maze_walls()[j],
        decreases 30 - y3,
    {
        walls.push((8, y3));
        y3 += 1;
    }
    proof {
        assert(walls@ =~= maze_walls());
    }
    Course {
        name: "The Maze".to_owned(),
        level: 2,
        width: 40,
        height: 35,
        max_trail_length: 80,
        max_players: 4,
        obstructions: Vec::new(),
        walls,
    }
}

fn course_narrow_corridors() -> (c: Course)
    ensures
        is_narrow_corridors(c),
{
    let mut walls: Vec<(usize, usize)> = Vec::new();
    // Horizontal corridor dividers, each broken by one gap
    let mut x: usize = 0;
    while x < 50
        invariant
            x <= 50,
            walls@ == corridor_walls(x as int),
        decreases 50 - x,
    {
        if x < 10 || x > 15 {
            walls.push((x, 7));
        }
        if x < 30 || x > 40 {
            walls.push((x, 14));
        }
        proof {
            assert(walls@ =~= corridor_walls(x + 1));
        }
        x += 1;
    }
    Course {
        name: "Narrow Corridors".to_owned(),
        level: 3,
        width: 50,
        height: 22,
        max_trail_length: 100,
        max_players: 4,
        obstructions: Vec::new(),
        walls,
    }
}

fn course_the_gauntlet() -> (c: Course)
    ensures
        is_the_gauntlet(c),
{
    let mut obstructions: Vec<(usize, usize)> = Vec::new();
    // Scatter two-by-two obstruction blocks in a regular pattern
    let mut x: usize = 5;
    let ghost mut m: int = 0;
    while x < 55
        invariant
            0 <= m <= 9,
            x == 5 + 6 * m,
            obstructions@ == gauntlet_obstructions(m),
        decreases 9 - m,
    {
        let mut y: usize = 5;
        let ghost mut n: int = 0;
        while y < 35
            invariant
                0 <= n <= 5,
                y == 5 + 6 * n,
                x == 5 + 6 * m,
                m < 9,
                obstructions@ == gauntlet_obstructions(m) + gauntlet_col(x as int, n),
            decreases 5 - n,
        {
            obstructions.push((x, y));
            obstructions.push((x + 1, y));
            obstructions.push((x, y + 1));
            obstructions.push((x + 1, y + 1));
            proof {
                assert(obstructions@ =~= gauntlet_obstructions(m) + gauntlet_col(
                    x as int,
                    n + 1,
                ));
                n = n + 1;
            }
            y += 6;
        }
        proof {
            assert(obstructions@ =~= gauntlet_obstructions(m + 1));
            m = m + 1;
        }
        x += 6;
    }
    Course {
        name: "The Gauntlet".to_owned(),
        level: 4,
        width: 60,
        height: 40,
        max_trail_length: 150,
        max_players: 6,
        obstructions,
        walls: Vec::new(),
    }
}

fn course_chaos() -> (c: Course)
    ensures
        is_chaos(c),
{
    let mut walls: Vec<(usize, usize)> = Vec::new();
    // Random wall segments, kept inside the border ring
    let mut seg: usize = 0;
    while seg < 30
        invariant
            seg <= 30,
            walls@.len() <= 9 * seg,
            forall|k: int|
                0 <= k < walls@.len() ==> 5 <= #[trigger] walls@[k].0 < 79 && 5 <= walls@[k].1
                    < 79,
        decreases 30 - seg,
    {
        let sx = rand_range(5, 70);
        let sy = rand_range(5, 70);
        let horizontal = rand_range(0, 2) == 1;
        let length = rand_range(3, 10);

        let mut i: usize = 0;
        while i < length
            invariant
                i <= length < 10,
                5 <= sx < 70,
                5 <= sy < 70,
                seg < 30,
                walls@.len() <= 9 * seg + i,
                forall|k: int|
                    0 <= k < walls@.len() ==> 5 <= #[trigger] walls@[k].0 < 79 && 5
                        <= walls@[k].1 < 79,
            decreases length - i,
        {
            let (wx, wy) = if horizontal {
                (sx + i, sy)
            } else {
                (sx, sy + i)
            };
            if wx < 79 && wy < 79 {
                walls.push((wx, wy));
            }
            i += 1;
        }
        seg += 1;
    }
    Course {
        name: "Chaos".to_owned(),
        level: 5,
        width: 80,
        height: 80,
        max_trail_length: 300,
        max_players: 8,
        obstructions: Vec::new(),
        walls,
    }
}

/// All available courses, ordered by difficulty.
pub fn all_courses() -> (r: Vec<Course>)
    ensures
        r@.len() == 5,
        is_open_arena(r@[0]),
        is_the_maze(r@[1]),
        is_narrow_corridors(r@[2]),
        is_the_gauntlet(r@[3]),
        is_chaos(r@[4]),
{
    let mut r: Vec<Course> = Vec::new();
    r.push(course_open_arena());
    r.push(course_the_maze());
    r.push(course_narrow_corridors());
    r.push(course_the_gauntlet());
    r.push(course_chaos());
    r
}

/// The course for a 1-indexed level, clamped into the catalog.
pub fn get_course(level: u32) -> (c: Course)
    ensures
        is_course_for_level(level, c),
{
    let mut courses = all_courses();
    let lv = if level > 0 {
        level - 1
    } else {
        0
    };
    let idx: usize = if lv as usize > 4 {
        4
    } else {
        lv as usize
    };
    courses.remove(idx)
}

} // verus!
