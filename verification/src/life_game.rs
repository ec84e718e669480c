//! Conway's game of life on a board whose edges are joined: the left edge to
//! the right one, the top to the bottom.

use vstd::prelude::*;

verus! {

/// Number of columns of the board.
pub const GRID_WIDTH: usize = 100;

/// Number of rows of the board.
pub const GRID_HEIGHT: usize = 30;

/// Number of cells that `init_cells` draws.
pub const SEED_DRAWS: usize = 230;

/// A board as rows of cells.
pub open spec fn grid_of(cells: Seq<Vec<bool>>) -> Seq<Seq<bool>> {
    Seq::new(cells.len(), |y: int| cells[y]@)
}

/// The board has at least the rows and columns that a generation is
/// computed from.
pub open spec fn covers_board(grid: Seq<Seq<bool>>) -> bool {
    &&& grid.len() >= GRID_HEIGHT
    &&& forall|y: int| 0 <= y < GRID_HEIGHT ==> (#[trigger] grid[y]).len() >= GRID_WIDTH
}

/// The board has exactly the rows and columns of a generation.
pub open spec fn is_board(grid: Seq<Seq<bool>>) -> bool {
    &&& grid.len() == GRID_HEIGHT
    &&& forall|y: int| 0 <= y < GRID_HEIGHT ==> (#[trigger] grid[y]).len() == GRID_WIDTH
}

/// 1 if the cell `dy` rows and `dx` columns away from `(y, x)` lives, going
/// round the edges, and 0 if not.
pub open spec fn lives_at(grid: Seq<Seq<bool>>, y: int, x: int, dy: int, dx: int) -> int {
    if grid[(y + dy + GRID_HEIGHT) % (GRID_HEIGHT as int)][(x + dx + GRID_WIDTH) % (
    GRID_WIDTH as int)] {
        1
    } else {
        0
    }
}

/// Number of living cells among the eight around `(y, x)`.
pub open spec fn neighbours(grid: Seq<Seq<bool>>, y: int, x: int) -> int {
    lives_at(grid, y, x, -1, -1) + lives_at(grid, y, x, -1, 0) + lives_at(grid, y, x, -1, 1)
        + lives_at(grid, y, x, 0, -1) + lives_at(grid, y, x, 0, 1) + lives_at(grid, y, x, 1, -1)
        + lives_at(grid, y, x, 1, 0) + lives_at(grid, y, x, 1, 1)
}

/// Whether the cell `(y, x)` lives in the next generation: a living cell
/// stays with two or three neighbours, a dead one is born with three.
pub open spec fn lives_next(grid: Seq<Seq<bool>>, y: int, x: int) -> bool {
    if grid[y][x] {
        neighbours(grid, y, x) == 2 || neighbours(grid, y, x) == 3
    } else {
        neighbours(grid, y, x) == 3
    }
}

/// The cell that a pair of random numbers picks.
pub open spec fn drawn_cell(draw: (usize, usize)) -> (int, int) {
    (draw.0 as int % GRID_HEIGHT as int, draw.1 as int % GRID_WIDTH as int)
}

/// The board on which exactly the cells picked by `draws` live.
pub open spec fn seeded(grid: Seq<Seq<bool>>, draws: Seq<(usize, usize)>) -> bool {
    &&& is_board(grid)
    &&& forall|y: int, x: int|
        0 <= y < GRID_HEIGHT && 0 <= x < GRID_WIDTH ==> (#[trigger] grid[y][x] <==> exists|i: int|
            0 <= i < draws.len() && drawn_cell(#[trigger] draws[i]) == (y, x))
}

/// `lazyrand::rand_usize` draws a number from the process-wide generator;
/// any value may come.
pub assume_specification[ lazyrand::rand_usize ]() -> (r: usize)
;

fn lives(cells: &Vec<Vec<bool>>, y: usize, x: usize, down: usize, right: usize) -> (n: u32)
    requires
        covers_board(grid_of(cells@)),
        y < GRID_HEIGHT,
        x < GRID_WIDTH,
        down <= 2,
        right <= 2,
    ensures
        n == lives_at(grid_of(cells@), y as int, x as int, down - 1, right - 1),
{
    let ny = (y + down + GRID_HEIGHT - 1) % GRID_HEIGHT;
    let nx = (x + right + GRID_WIDTH - 1) % GRID_WIDTH;
    assert(grid_of(cells@)[ny as int] == cells@[ny as int]@);
    if cells[ny][nx] {
        1
    } else {
        0
    }
}

fn next_cell(cells: &Vec<Vec<bool>>, y: usize, x: usize) -> (alive: bool)
    requires
        covers_board(grid_of(cells@)),
        y < GRID_HEIGHT,
        x < GRID_WIDTH,
    ensures
        alive == lives_next(grid_of(cells@), y as int, x as int),
{
    let alive_cnt: u32 = lives(cells, y, x, 0, 0) + lives(cells, y, x, 0, 1) + lives(
        cells,
        y,
        x,
        0,
        2,
    ) + lives(cells, y, x, 1, 0) + lives(cells, y, x, 1, 2) + lives(cells, y, x, 2, 0) + lives(
        cells,
        y,
        x,
        2,
        1,
    ) + lives(cells, y, x, 2, 2);
    assert(grid_of(cells@)[y as int] == cells@[y as int]@);
    if cells[y][x] {
        alive_cnt == 2 || alive_cnt == 3
    } else {
        alive_cnt == 3
    }
}

/// The generation that follows `cells`.
pub fn calc_next_gen(cells: &Vec<Vec<bool>>) -> (new_gen_cells: Vec<Vec<bool>>)
    requires
        covers_board(grid_of(cells@)),
    ensures
        is_board(grid_of(new_gen_cells@)),
        forall|y: int, x: int|
            0 <= y < GRID_HEIGHT && 0 <= x < GRID_WIDTH ==> #[trigger] grid_of(
                new_gen_cells@,
            )[y][x] == lives_next(grid_of(cells@), y, x),
{
    let mut new_gen_cells: Vec<Vec<bool>> = Vec::new();
    for y in 0..GRID_HEIGHT
        invariant
            covers_board(grid_of(cells@)),
            new_gen_cells@.len() == y,
            forall|j: int| 0 <= j < y ==> (#[trigger] new_gen_cells@[j])@.len() == GRID_WIDTH,
            forall|j: int, x: int|
                0 <= j < y && 0 <= x < GRID_WIDTH ==> #[trigger] new_gen_cells@[j]@[x]
                    == lives_next(grid_of(cells@), j, x),
    {
        let mut row: Vec<bool> = Vec::new();
        for x in 0..GRID_WIDTH
            invariant
                covers_board(grid_of(cells@)),
                y < GRID_HEIGHT,
                row@.len() == x,
                forall|i: int|
                    0 <= i < x ==> #[trigger] row@[i] == lives_next(grid_of(cells@), y as int, i),
        {
            row.push(next_cell(cells, y, x));
        }
        new_gen_cells.push(row);
    }
    new_gen_cells
}

/// A board without a living cell.
fn empty_board() -> (cells: Vec<Vec<bool>>)
    ensures
        is_board(grid_of(cells@)),
        forall|y: int, x: int|
            0 <= y < GRID_HEIGHT && 0 <= x < GRID_WIDTH ==> !(#[trigger] grid_of(cells@)[y][x]),
{
    let mut cells: Vec<Vec<bool>> = Vec::new();
    for y in 0..GRID_HEIGHT
        invariant
            cells@.len() == y,
            forall|j: int| 0 <= j < y ==> (#[trigger] cells@[j])@.len() == GRID_WIDTH,
            forall|j: int, x: int| 0 <= j < y && 0 <= x < GRID_WIDTH ==> !(#[trigger] cells@[j]@[x]),
    {
        let mut row: Vec<bool> = Vec::new();
        for x in 0..GRID_WIDTH
            invariant
                row@.len() == x,
                forall|i: int| 0 <= i < x ==> !(#[trigger] row@[i]),
        {
            row.push(false);
        }
        cells.push(row);
    }
    cells
}

/// The board on which the cells picked by `draws` live and no others.
pub fn seed_cells(draws: &Vec<(usize, usize)>) -> (cells: Vec<Vec<bool>>)
    ensures
        seeded(grid_of(cells@), draws@),
{
    let mut cells = empty_board();
    for i in 0..draws.len()
        invariant
            seeded(grid_of(cells@), draws@.take(i as int)),
    {
        let ghost before = grid_of(cells@);
        let ghost rows = cells@;
        let y = draws[i].0 % GRID_HEIGHT;
        let x = draws[i].1 % GRID_WIDTH;
        assert(before[y as int] == cells@[y as int]@);
        cells[y][x] = true;
        proof {
            let after = grid_of(cells@);
            assert(cells@.len() == rows.len());
            assert(cells@[y as int]@ == rows[y as int]@.update(x as int, true));
            assert(forall|r: int| 0 <= r < rows.len() && r != y ==> cells@[r] == rows[r]);
            assert forall|r: int| 0 <= r < GRID_HEIGHT implies (#[trigger] after[r]).len()
                == GRID_WIDTH by {
                assert(before[r] == rows[r]@);
                assert(before[r].len() == GRID_WIDTH);
            }
            let sofar = draws@.take(i as int);
            let now = draws@.take(i + 1);
            assert(now.drop_last() =~= sofar);
            assert(now.last() == draws@[i as int]);
            assert forall|r: int, c: int| 0 <= r < GRID_HEIGHT && 0 <= c < GRID_WIDTH implies (
            #[trigger] after[r][c] <==> exists|k: int|
                0 <= k < now.len() && drawn_cell(#[trigger] now[k]) == (r, c)) by {
                if r == y && c == x {
                    assert(drawn_cell(now[i as int]) == (r, c));
                } else {
                    assert(after[r][c] == before[r][c]);
                    if before[r][c] {
                        let k = choose|k: int|
                            0 <= k < sofar.len() && drawn_cell(#[trigger] sofar[k]) == (r, c);
                        assert(now[k] == sofar[k]);
                    }
                    if exists|k: int| 0 <= k < now.len() && drawn_cell(#[trigger] now[k]) == (r, c) {
                        let k = choose|k: int|
                            0 <= k < now.len() && drawn_cell(#[trigger] now[k]) == (r, c);
                        assert(k < i);
                        assert(sofar[k] == now[k]);
                    }
                }
            }
        }
    }
    assert(draws@.take(draws@.len() as int) =~= draws@);
    cells
}

/// A first generation: `SEED_DRAWS` cells are drawn at random, with
/// repetition, and these live.
pub fn init_cells() -> (cells: Vec<Vec<bool>>)
    ensures
        exists|draws: Seq<(usize, usize)>|
            draws.len() == SEED_DRAWS && #[trigger] seeded(grid_of(cells@), draws),
{
    let mut draws: Vec<(usize, usize)> = Vec::new();
    for i in 0..SEED_DRAWS
        invariant
            draws@.len() == i,
    {
        let row = lazyrand::rand_usize();
        let column = lazyrand::rand_usize();
        draws.push((row, column));
    }
    seed_cells(&draws)
}

} // verus!
