//! Board rule evaluator: win detection around the most recently placed
//! stone, and draw detection over the whole board.

use vstd::prelude::*;

verus! {

/// The two stone colors.
#[derive(Clone, Copy, Debug, PartialEq, Eq, Structural)]
pub enum StoneType {
    Black,
    White,
}

/// Outcome of a finished game as reported to the layer above the relay
/// core: an optional winner, or a draw.
#[derive(Debug)]
pub struct GameResult {
    pub winner: Option<StoneType>,
    pub is_draw: bool,
}

/// One of the four axes a five-in-a-row can lie on.
#[derive(Clone, Copy, Debug, PartialEq, Eq, Structural)]
pub enum Axis {
    Horizontal,
    Vertical,
    DiagonalDown,
    DiagonalUp,
}

/// The board as a mathematical value: a sequence of rows of cells.
pub open spec fn grid(b: Seq<Vec<Option<StoneType>>>) -> Seq<Seq<Option<StoneType>>> {
    b.map_values(|row: Vec<Option<StoneType>>| row@)
}

/// Every row has the length of the first one.
pub open spec fn rectangular(g: Seq<Seq<Option<StoneType>>>) -> bool {
    forall|i: int| 0 <= i < g.len() ==> (#[trigger] g[i]).len() == g[0].len()
}

/// The position one step away from (r, c) along `axis`, in the forward or
/// the backward orientation.
pub open spec fn step(axis: Axis, forward: bool, r: int, c: int) -> (int, int) {
    match axis {
        Axis::Horizontal => if forward { (r, c + 1) } else { (r, c - 1) },
        Axis::Vertical => if forward { (r + 1, c) } else { (r - 1, c) },
        Axis::DiagonalDown => if forward { (r + 1, c + 1) } else { (r - 1, c - 1) },
        Axis::DiagonalUp => if forward { (r + 1, c - 1) } else { (r - 1, c + 1) },
    }
}

/// The cell (r, c) exists and holds a stone of the given color.
pub open spec fn cell_matches(
    g: Seq<Seq<Option<StoneType>>>,
    r: int,
    c: int,
    stone: StoneType,
) -> bool {
    &&& 0 <= r < g.len()
    &&& 0 <= c < g[r].len()
    &&& g[r][c] == Some(stone)
}

/// Termination measure for `ray`: a bound on how many steps remain before
/// the walk leaves the board.
pub open spec fn ray_measure(
    g: Seq<Seq<Option<StoneType>>>,
    r: int,
    c: int,
    axis: Axis,
    forward: bool,
) -> int {
    match axis {
        Axis::Horizontal => if forward { g[r].len() - c } else { c },
        Axis::Vertical => if forward { g.len() - r } else { r },
        Axis::DiagonalDown => if forward { g.len() - r } else { r },
        Axis::DiagonalUp => if forward { g.len() - r } else { r },
    }
}

/// Length of the contiguous run of `stone`-colored cells that starts one
/// step away from (r, c) along `axis` and extends outward until an
/// out-of-bounds index or a non-matching cell is hit.
pub open spec fn ray(
    g: Seq<Seq<Option<StoneType>>>,
    r: int,
    c: int,
    axis: Axis,
    forward: bool,
    stone: StoneType,
) -> nat
    decreases ray_measure(g, r, c, axis, forward),
{
    let next = step(axis, forward, r, c);
    if cell_matches(g, next.0, next.1, stone) {
        ray(g, next.0, next.1, axis, forward, stone) + 1
    } else {
        0
    }
}

/// The run of `stone` cells through (r, c) along `axis` — the placed cell
/// itself plus the two outward rays — reaches five or more.
pub open spec fn wins_on_axis(
    g: Seq<Seq<Option<StoneType>>>,
    r: int,
    c: int,
    axis: Axis,
    stone: StoneType,
) -> bool {
    1 + ray(g, r, c, axis, true, stone) + ray(g, r, c, axis, false, stone) >= 5
}

/// Placing `stone` at (r, c) produced five or more in a row on some axis.
pub open spec fn winning_move(
    g: Seq<Seq<Option<StoneType>>>,
    r: int,
    c: int,
    stone: StoneType,
) -> bool {
    ||| wins_on_axis(g, r, c, Axis::Horizontal, stone)
    ||| wins_on_axis(g, r, c, Axis::Vertical, stone)
    ||| wins_on_axis(g, r, c, Axis::DiagonalDown, stone)
    ||| wins_on_axis(g, r, c, Axis::DiagonalUp, stone)
}

/// Every cell of the board is occupied.
pub open spec fn board_full(g: Seq<Seq<Option<StoneType>>>) -> bool {
    forall|i: int, j: int|
        0 <= i < g.len() && 0 <= j < g[i].len() ==> (#[trigger] g[i][j]) is Some
}

proof fn lemma_ray_extends_right(
    g: Seq<Seq<Option<StoneType>>>,
    r: int,
    c: int,
    stone: StoneType,
    k: int,
)
    requires
        0 <= k,
        forall|j: int| c + 1 <= j <= c + k ==> #[trigger] cell_matches(g, r, j, stone),
    ensures
        ray(g, r, c, Axis::Horizontal, true, stone) >= k,
    decreases k,
{
    if k > 0 {
        assert(cell_matches(g, r, c + 1, stone));
        lemma_ray_extends_right(g, r, c + 1, stone, k - 1);
    }
}

proof fn lemma_ray_extends_left(
    g: Seq<Seq<Option<StoneType>>>,
    r: int,
    c: int,
    stone: StoneType,
    k: int,
)
    requires
        0 <= k,
        forall|j: int| c - k <= j <= c - 1 ==> #[trigger] cell_matches(g, r, j, stone),
    ensures
        ray(g, r, c, Axis::Horizontal, false, stone) >= k,
    decreases k,
{
    if k > 0 {
        assert(cell_matches(g, r, c - 1, stone));
        lemma_ray_extends_left(g, r, c - 1, stone, k - 1);
    }
}

/// A horizontal run of five (or, within a longer run, any five consecutive)
/// same-colored cells that contains the placed position (r, col) is a win
/// for that color.
pub proof fn lemma_horizontal_run_of_five_wins(
    g: Seq<Seq<Option<StoneType>>>,
    r: int,
    col: int,
    start: int,
    stone: StoneType,
)
    requires
        start <= col < start + 5,
        forall|j: int| start <= j < start + 5 ==> #[trigger] cell_matches(g, r, j, stone),
    ensures
        winning_move(g, r, col, stone),
{
    lemma_ray_extends_right(g, r, col, stone, start + 4 - col);
    lemma_ray_extends_left(g, r, col, stone, col - start);
    assert(wins_on_axis(g, r, col, Axis::Horizontal, stone));
}

/// A position in (r, c) form lies on the board.
pub open spec fn on_board(rows: int, cols: int, pos: (int, int)) -> bool {
    &&& 0 <= pos.0 < rows
    &&& 0 <= pos.1 < cols
}

/// Step from an on-board position, returning the neighbouring position
/// along `axis` when it is still on the board.
fn step_cell(rows: usize, cols: usize, r: usize, c: usize, axis: Axis, forward: bool) -> (res:
    Option<(usize, usize)>)
    requires
        r < rows,
        c < cols,
    ensures
        res matches Some(p) ==> (p.0 as int, p.1 as int) == step(axis, forward, r as int, c as int)
            && p.0 < rows && p.1 < cols,
        res is None ==> !on_board(rows as int, cols as int, step(axis, forward, r as int, c as int)),
{
    match axis {
        Axis::Horizontal => {
            if forward {
                if c + 1 < cols { Some((r, c + 1)) } else { None }
            } else {
                if c > 0 { Some((r, c - 1)) } else { None }
            }
        },
        Axis::Vertical => {
            if forward {
                if r + 1 < rows { Some((r + 1, c)) } else { None }
            } else {
                if r > 0 { Some((r - 1, c)) } else { None }
            }
        },
        Axis::DiagonalDown => {
            if forward {
                if r + 1 < rows && c + 1 < cols { Some((r + 1, c + 1)) } else { None }
            } else {
                if r > 0 && c > 0 { Some((r - 1, c - 1)) } else { None }
            }
        },
        Axis::DiagonalUp => {
            if forward {
                if r + 1 < rows && c > 0 { Some((r + 1, c - 1)) } else { None }
            } else {
                if r > 0 && c + 1 < cols { Some((r - 1, c + 1)) } else { None }
            }
        },
    }
}

/// Count the outward run of `stone` cells adjacent to (r, c), but no more
/// than `budget` of them.
fn count_ray(
    board: &Vec<Vec<Option<StoneType>>>,
    r: usize,
    c: usize,
    axis: Axis,
    forward: bool,
    stone: StoneType,
    budget: usize,
) -> (n: usize)
    requires
        rectangular(grid(board@)),
        r < board@.len(),
        c < grid(board@)[r as int].len(),
        budget <= 4,
    ensures
        n == if ray(grid(board@), r as int, c as int, axis, forward, stone) >= budget {
            budget as nat
        } else {
            ray(grid(board@), r as int, c as int, axis, forward, stone)
        },
    decreases budget,
{
    let ghost g = grid(board@);
    if budget == 0 {
        return 0;
    }
    let rows = board.len();
    let cols = board[0].len();
    proof {
        assert(g[r as int] == board@[r as int]@);
        assert(g[0] == board@[0]@);
    }
    match step_cell(rows, cols, r, c, axis, forward) {
        None => {
            proof {
                let next = step(axis, forward, r as int, c as int);
                assert(!cell_matches(g, next.0, next.1, stone)) by {
                    if cell_matches(g, next.0, next.1, stone) {
                        assert(g[next.0].len() == g[0].len());
                    }
                };
            }
            0
        },
        Some(p) => {
            let (r2, c2) = p;
            let cell = board[r2][c2];
            let hit = match cell {
                Some(st) => st == stone,
                None => false,
            };
            proof {
                assert(g[r2 as int] == board@[r2 as int]@);
            }
            if hit {
                let m = count_ray(board, r2, c2, axis, forward, stone, budget - 1);
                proof {
                    assert(cell_matches(g, r2 as int, c2 as int, stone));
                    assert(ray(g, r as int, c as int, axis, forward, stone) == ray(
                        g,
                        r2 as int,
                        c2 as int,
                        axis,
                        forward,
                        stone,
                    ) + 1);
                }
                m + 1
            } else {
                proof {
                    assert(!cell_matches(g, r2 as int, c2 as int, stone));
                    assert(ray(g, r as int, c as int, axis, forward, stone) == 0);
                }
                0
            }
        },
    }
}

/// Together with the placed cell, does the run along `axis` reach five?
fn axis_reaches_five(
    board: &Vec<Vec<Option<StoneType>>>,
    r: usize,
    c: usize,
    axis: Axis,
    stone: StoneType,
) -> (won: bool)
    requires
        rectangular(grid(board@)),
        r < board@.len(),
        c < grid(board@)[r as int].len(),
    ensures
        won == wins_on_axis(grid(board@), r as int, c as int, axis, stone),
{
    let fwd = count_ray(board, r, c, axis, true, stone, 4);
    let bwd = count_ray(board, r, c, axis, false, stone, 4);
    fwd + bwd >= 4
}

/// Win detection: placing `stone` at (row, col) wins when, along one of
/// the four axes, the contiguous same-colored run through the placed cell
/// reaches five or more. The placed position must lie on a rectangular
/// board.
pub fn check_win(
    board: Vec<Vec<Option<StoneType>>>,
    row: usize,
    col: usize,
    stone: StoneType,
) -> (won: bool)
    requires
        rectangular(grid(board@)),
        row < board@.len(),
        col < grid(board@)[row as int].len(),
    ensures
        won == winning_move(grid(board@), row as int, col as int, stone),
{
    if axis_reaches_five(&board, row, col, Axis::Horizontal, stone) {
        return true;
    }
    if axis_reaches_five(&board, row, col, Axis::Vertical, stone) {
        return true;
    }
    if axis_reaches_five(&board, row, col, Axis::DiagonalDown, stone) {
        return true;
    }
    axis_reaches_five(&board, row, col, Axis::DiagonalUp, stone)
}

/// Draw detection: the board counts as a draw exactly when every cell is
/// occupied. A board with any empty cell is never a draw.
pub fn check_draw(board: Vec<Vec<Option<StoneType>>>) -> (draw: bool)
    ensures
        draw == board_full(grid(board@)),
{
    let ghost g = grid(board@);
    let mut i: usize = 0;
    while i < board.len()
        invariant
            i <= board@.len(),
            g == grid(board@),
            forall|a: int, b: int|
                0 <= a < i && 0 <= b < g[a].len() ==> (#[trigger] g[a][b]) is Some,
        decreases board@.len() - i,
    {
        let row = &board[i];
        proof {
            assert(g[i as int] == board@[i as int]@);
        }
        let mut j: usize = 0;
        while j < row.len()
            invariant
                i < board@.len(),
                j <= row@.len(),
                row@ == board@[i as int]@,
                g == grid(board@),
                g[i as int] == row@,
                forall|b: int| 0 <= b < j ==> (#[trigger] g[i as int][b]) is Some,
            decreases row@.len() - j,
        {
            if row[j].is_none() {
                return false;
            }
            j += 1;
        }
        i += 1;
    }
    true
}

} // verus!
