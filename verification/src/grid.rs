//! The mathematical model of the board: a grid of cell values, and what it
//! means to drop a piece, to have a line of four, and to obey gravity.

use vstd::prelude::*;

verus! {

/// Number of rows; row 0 is the top row.
pub const ROWS: usize = 6;

/// Number of columns.
pub const COLS: usize = 7;

/// Cell value of a piece of the automated player.
pub const BOT: i8 = -1;

/// Cell value of an empty cell.
pub const EMPTY: i8 = 0;

/// Cell value of a piece of the human player.
pub const PLAYER: i8 = 1;

/// A board as a sequence of rows, each a sequence of cell values.
pub type Grid = Seq<Seq<i8>>;

/// The grid has six rows of seven cells.
pub open spec fn well_shaped(g: Grid) -> bool {
    &&& g.len() == ROWS
    &&& forall|r: int| 0 <= r < ROWS ==> (#[trigger] g[r]).len() == COLS
}

/// The grid in which every cell is empty.
pub open spec fn empty_grid() -> Grid {
    Seq::new(ROWS as nat, |r: int| Seq::new(COLS as nat, |c: int| EMPTY))
}

/// A move into `col` is legal: the column exists and its top cell is empty.
pub open spec fn column_open(g: Grid, col: int) -> bool {
    0 <= col < COLS && g[0][col] == EMPTY
}

/// The open columns below `n`, in ascending order.
pub open spec fn open_columns_below(g: Grid, n: int) -> Seq<usize>
    decreases n,
{
    if n <= 0 {
        Seq::empty()
    } else if column_open(g, n - 1) {
        open_columns_below(g, n - 1).push((n - 1) as usize)
    } else {
        open_columns_below(g, n - 1)
    }
}

/// The legal moves: every open column, in ascending order.
pub open spec fn valid_moves(g: Grid) -> Seq<usize> {
    open_columns_below(g, COLS as int)
}

/// The lowest row whose cell in `col` is empty, or -1 if the column holds none.
pub open spec fn landing_row(g: Grid, col: int) -> int {
    if g[5][col] == EMPTY {
        5
    } else if g[4][col] == EMPTY {
        4
    } else if g[3][col] == EMPTY {
        3
    } else if g[2][col] == EMPTY {
        2
    } else if g[1][col] == EMPTY {
        1
    } else if g[0][col] == EMPTY {
        0
    } else {
        -1
    }
}

/// The column exists and has an empty cell left.
pub open spec fn has_room(g: Grid, col: int) -> bool {
    0 <= col < COLS && landing_row(g, col) >= 0
}

/// The grid with the cell at (`row`, `col`) replaced by `piece`.
pub open spec fn place(g: Grid, row: int, col: int, piece: i8) -> Grid {
    g.update(row, g[row].update(col, piece))
}

/// The grid after `piece` is dropped into `col`: it lands in the lowest empty
/// cell of the column; where the column has no room the grid stays as it is.
pub open spec fn dropped(g: Grid, col: int, piece: i8) -> Grid {
    if has_room(g, col) {
        place(g, landing_row(g, col), col, piece)
    } else {
        g
    }
}

/// Four cells in row `r` starting at column `c`, all holding `player`.
pub open spec fn horizontal_four(g: Grid, player: i8, r: int, c: int) -> bool {
    &&& 0 <= r < ROWS
    &&& 0 <= c <= COLS - 4
    &&& g[r][c] == player
    &&& g[r][c + 1] == player
    &&& g[r][c + 2] == player
    &&& g[r][c + 3] == player
}

/// Four cells in column `c` starting at row `r`, all holding `player`.
pub open spec fn vertical_four(g: Grid, player: i8, r: int, c: int) -> bool {
    &&& 0 <= r <= ROWS - 4
    &&& 0 <= c < COLS
    &&& g[r][c] == player
    &&& g[r + 1][c] == player
    &&& g[r + 2][c] == player
    &&& g[r + 3][c] == player
}

/// Four cells on the diagonal that runs down and to the right from (`r`, `c`).
pub open spec fn falling_four(g: Grid, player: i8, r: int, c: int) -> bool {
    &&& 0 <= r <= ROWS - 4
    &&& 0 <= c <= COLS - 4
    &&& g[r][c] == player
    &&& g[r + 1][c + 1] == player
    &&& g[r + 2][c + 2] == player
    &&& g[r + 3][c + 3] == player
}

/// Four cells on the diagonal that runs up and to the right from (`r + 3`, `c`).
pub open spec fn rising_four(g: Grid, player: i8, r: int, c: int) -> bool {
    &&& 0 <= r <= ROWS - 4
    &&& 0 <= c <= COLS - 4
    &&& g[r + 3][c] == player
    &&& g[r + 2][c + 1] == player
    &&& g[r + 1][c + 2] == player
    &&& g[r][c + 3] == player
}

/// Some line of four anchored at (`r`, `c`) is held by `player`.
pub open spec fn line_at(g: Grid, player: i8, r: int, c: int) -> bool {
    ||| horizontal_four(g, player, r, c)
    ||| vertical_four(g, player, r, c)
    ||| falling_four(g, player, r, c)
    ||| rising_four(g, player, r, c)
}

/// `player` holds four cells in a row, a column or a diagonal.
pub open spec fn wins(g: Grid, player: i8) -> bool {
    exists|r: int, c: int| #[trigger] line_at(g, player, r, c)
}

/// In every column, whatever lies below an occupied cell is occupied too: the
/// pieces of a column form one run that starts at the bottom row.
pub open spec fn gravity(g: Grid) -> bool {
    forall|r1: int, r2: int, c: int|
        0 <= r1 <= r2 < ROWS && 0 <= c < COLS && #[trigger] g[r1][c] != EMPTY ==> #[trigger] g[r2][c]
            != EMPTY
}

/// 1 for an empty cell, 0 for an occupied one.
pub open spec fn free(v: i8) -> int {
    if v == EMPTY {
        1
    } else {
        0
    }
}

/// The number of empty cells in column `col`.
pub open spec fn free_in_column(g: Grid, col: int) -> int {
    free(g[0][col]) + free(g[1][col]) + free(g[2][col]) + free(g[3][col]) + free(g[4][col]) + free(
        g[5][col],
    )
}

/// The number of empty cells on the board.
pub open spec fn free_cells(g: Grid) -> int {
    free_in_column(g, 0) + free_in_column(g, 1) + free_in_column(g, 2) + free_in_column(g, 3)
        + free_in_column(g, 4) + free_in_column(g, 5) + free_in_column(g, 6)
}

/// Replacing one cell leaves the shape and every other cell as they were.
pub proof fn lemma_place(g: Grid, row: int, col: int, piece: i8)
    requires
        well_shaped(g),
        0 <= row < ROWS,
        0 <= col < COLS,
    ensures
        well_shaped(place(g, row, col, piece)),
        place(g, row, col, piece)[row][col] == piece,
        forall|r: int, c: int|
            0 <= r < ROWS && 0 <= c < COLS && !(r == row && c == col) ==> #[trigger] place(
                g,
                row,
                col,
                piece,
            )[r][c] == g[r][c],
{
    let h = place(g, row, col, piece);
    assert forall|r: int| 0 <= r < ROWS implies (#[trigger] h[r]).len() == COLS by {
    }
}

/// Where a column has room, its landing row is empty and everything below it
/// in that column is occupied.
pub proof fn lemma_landing_row(g: Grid, col: int)
    requires
        has_room(g, col),
    ensures
        0 <= landing_row(g, col) < ROWS,
        g[landing_row(g, col)][col] == EMPTY,
        forall|r: int| landing_row(g, col) < r < ROWS ==> g[r][col] != EMPTY,
{
}

/// An open column has room; under gravity a column with room is open.
pub proof fn lemma_room_and_open(g: Grid, col: int)
    ensures
        column_open(g, col) ==> has_room(g, col),
        gravity(g) && has_room(g, col) ==> column_open(g, col),
{
}

/// A drop that finds room changes exactly the landing cell.
pub proof fn lemma_dropped(g: Grid, col: int, piece: i8)
    requires
        well_shaped(g),
        has_room(g, col),
    ensures
        well_shaped(dropped(g, col, piece)),
        dropped(g, col, piece)[landing_row(g, col)][col] == piece,
        forall|r: int, c: int|
            0 <= r < ROWS && 0 <= c < COLS && !(r == landing_row(g, col) && c == col)
                ==> #[trigger] dropped(g, col, piece)[r][c] == g[r][c],
{
    lemma_place(g, landing_row(g, col), col, piece);
}

/// A piece dropped into a column with room takes one empty cell of that
/// column and leaves the other columns as they were.
pub proof fn lemma_dropped_free_cells(g: Grid, col: int, piece: i8)
    requires
        well_shaped(g),
        has_room(g, col),
        piece != EMPTY,
    ensures
        free_in_column(dropped(g, col, piece), col) == free_in_column(g, col) - 1,
        forall|c: int|
            0 <= c < COLS && c != col ==> free_in_column(dropped(g, col, piece), c)
                == free_in_column(g, c),
        free_cells(dropped(g, col, piece)) == free_cells(g) - 1,
        0 <= free_cells(dropped(g, col, piece)),
{
    lemma_dropped(g, col, piece);
    let h = dropped(g, col, piece);
    let row = landing_row(g, col);
    assert forall|c: int| 0 <= c < COLS && c != col implies free_in_column(h, c) == free_in_column(
        g,
        c,
    ) by {
        assert(h[0][c] == g[0][c] && h[1][c] == g[1][c] && h[2][c] == g[2][c]);
        assert(h[3][c] == g[3][c] && h[4][c] == g[4][c] && h[5][c] == g[5][c]);
    }
    assert(free_in_column(h, col) == free_in_column(g, col) - 1) by {
        assert(row != 0 ==> h[0][col] == g[0][col]);
        assert(row != 1 ==> h[1][col] == g[1][col]);
        assert(row != 2 ==> h[2][col] == g[2][col]);
        assert(row != 3 ==> h[3][col] == g[3][col]);
        assert(row != 4 ==> h[4][col] == g[4][col]);
        assert(row != 5 ==> h[5][col] == g[5][col]);
    }
    lemma_free_cells_bounds(h);
}

/// Between 0 and 42 cells are empty.
pub proof fn lemma_free_cells_bounds(g: Grid)
    ensures
        0 <= free_cells(g) <= ROWS * COLS,
        forall|c: int| 0 <= #[trigger] free_in_column(g, c) <= ROWS,
{
}

/// A drop keeps gravity: the piece lands on the bottom row or on a piece.
pub proof fn lemma_dropped_gravity(g: Grid, col: int, piece: i8)
    requires
        well_shaped(g),
        gravity(g),
    ensures
        gravity(dropped(g, col, piece)),
{
    if has_room(g, col) {
        lemma_dropped(g, col, piece);
    }
}

/// What the list of legal moves holds: columns below `n` only, in strictly
/// ascending order, and each open column below `n`.
pub proof fn lemma_open_columns_below(g: Grid, n: int)
    requires
        0 <= n <= COLS,
    ensures
        open_columns_below(g, n).len() <= n,
        forall|i: int|
            0 <= i < open_columns_below(g, n).len() ==> (#[trigger] open_columns_below(g, n)[i]) < n
                && column_open(g, open_columns_below(g, n)[i] as int),
        forall|i: int, j: int|
            0 <= i < j < open_columns_below(g, n).len() ==> open_columns_below(g, n)[i]
                < open_columns_below(g, n)[j],
        forall|c: int|
            0 <= c < n && column_open(g, c) ==> open_columns_below(g, n).contains(c as usize),
    decreases n,
{
    if n > 0 {
        lemma_open_columns_below(g, n - 1);
        let prev = open_columns_below(g, n - 1);
        let cur = open_columns_below(g, n);
        if column_open(g, n - 1) {
            assert forall|c: int| 0 <= c < n && column_open(g, c) implies cur.contains(
                c as usize,
            ) by {
                if c < n - 1 {
                    let i = choose|i: int| 0 <= i < prev.len() && prev[i] == c as usize;
                    assert(cur[i] == c as usize);
                } else {
                    assert(cur[cur.len() - 1] == c as usize);
                }
            }
        }
    }
}

/// The legal moves are the open columns, each once, in ascending order.
pub proof fn lemma_valid_moves(g: Grid)
    ensures
        valid_moves(g).len() <= COLS,
        forall|i: int|
            0 <= i < valid_moves(g).len() ==> column_open(g, (#[trigger] valid_moves(g)[i]) as int),
        forall|i: int, j: int|
            0 <= i < j < valid_moves(g).len() ==> valid_moves(g)[i] < valid_moves(g)[j],
        forall|c: usize| valid_moves(g).contains(c) <==> column_open(g, c as int),
{
    lemma_open_columns_below(g, COLS as int);
}

} // verus!
