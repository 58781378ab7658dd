//! The playing board: a fixed 6x7 array of cells with piece drop, legal-move
//! enumeration and win detection.

use vstd::prelude::*;
use vstd::string::StringExecFns;
use crate::grid::{
    column_open, dropped, empty_grid, falling_four, gravity, has_room, horizontal_four,
    landing_row, lemma_dropped_gravity, lemma_landing_row, lemma_valid_moves, line_at,
    open_columns_below, place, rising_four, valid_moves, vertical_four, well_shaped, wins, Grid,
    BOT, COLS, EMPTY, PLAYER, ROWS,
};

verus! {

/// A Connect Four board.
pub struct ConnectFour {
    /// The cells, row by row; `board[0]` is the top row.
    pub board: [[i8; COLS]; ROWS],
}

impl View for ConnectFour {
    type V = Grid;

    open spec fn view(&self) -> Grid {
        Seq::new(ROWS as nat, |r: int| self.board@[r]@)
    }
}

/// The glyph that stands for a cell value: `x` for the automated player, `o`
/// for the human, `.` for an empty cell, a blank for anything else.
pub open spec fn glyph(v: i8) -> char {
    if v == BOT {
        'x'
    } else if v == EMPTY {
        '.'
    } else if v == PLAYER {
        'o'
    } else {
        ' '
    }
}

/// Number of characters in a rendered row: a blank and a glyph per cell, then
/// a line feed.
pub const LINE_WIDTH: usize = 15;

/// The board as text: one line per row from the top, each cell as a blank
/// followed by its glyph, each line closed by a line feed.
pub open spec fn rendered(g: Grid) -> Seq<char> {
    Seq::new(
        (ROWS * LINE_WIDTH) as nat,
        |i: int|
            if i % (LINE_WIDTH as int) == LINE_WIDTH - 1 {
                '\n'
            } else if (i % (LINE_WIDTH as int)) % 2 == 0 {
                ' '
            } else {
                glyph(g[i / (LINE_WIDTH as int)][(i % (LINE_WIDTH as int)) / 2])
            },
    )
}

/// The glyph of a cell value, as text.
fn symbol(v: i8) -> (s: &'static str)
    ensures
        s@ == seq![glyph(v)],
{
    if v == BOT {
        proof {
            reveal_strlit("x");
        }
        "x"
    } else if v == EMPTY {
        proof {
            reveal_strlit(".");
        }
        "."
    } else if v == PLAYER {
        proof {
            reveal_strlit("o");
        }
        "o"
    } else {
        proof {
            reveal_strlit(" ");
        }
        " "
    }
}

impl ConnectFour {
    /// The view of a board always has six rows of seven cells.
    pub proof fn lemma_well_shaped(&self)
        ensures
            well_shaped(self@),
    {
    }

    /// Boards with the same view are the same board.
    pub proof fn lemma_view_determines_board(a: ConnectFour, b: ConnectFour)
        requires
            a@ == b@,
        ensures
            a == b,
    {
        assert forall|r: int| 0 <= r < ROWS implies a.board[r] == b.board[r] by {
            assert(a@[r] == b@[r]);
            assert(a.board[r] =~= b.board[r]);
        }
        assert(a.board =~= b.board);
    }

    /// A fresh board: every cell empty.
    pub fn new() -> (game: Self)
        ensures
            game@ == empty_grid(),
            gravity(game@),
    {
        let game = Self { board: [[EMPTY; COLS]; ROWS] };
        assert(game@ =~~= empty_grid());
        game
    }

    /// The legal moves: every column whose top cell is empty, in ascending
    /// order. An empty list means that no move is left.
    pub fn get_valid_moves(&self) -> (moves: Vec<usize>)
        ensures
            moves@ == valid_moves(self@),
            forall|c: usize| moves@.contains(c) <==> column_open(self@, c as int),
            forall|i: int, j: int| 0 <= i < j < moves@.len() ==> moves@[i] < moves@[j],
    {
        let mut moves: Vec<usize> = Vec::new();
        let mut col: usize = 0;
        while col < COLS
            invariant
                col <= COLS,
                moves@ == open_columns_below(self@, col as int),
            decreases COLS - col,
        {
            if self.board[0][col] == EMPTY {
                moves.push(col);
            }
            col += 1;
        }
        proof {
            lemma_valid_moves(self@);
        }
        moves
    }

    /// Whether `player` holds four cells in a row, a column or a diagonal.
    pub fn check_win(&self, player: i8) -> (won: bool)
        ensures
            won == wins(self@, player),
    {
        let ghost g = self@;
        let mut row: usize = 0;
        while row < ROWS
            invariant
                row <= ROWS,
                g == self@,
                forall|r: int, c: int| 0 <= r < row ==> !#[trigger] horizontal_four(g, player, r, c),
            decreases ROWS - row,
        {
            let mut col: usize = 0;
            while col < COLS - 3
                invariant
                    row < ROWS,
                    col <= COLS - 3,
                    g == self@,
                    forall|r: int, c: int|
                        0 <= r < row ==> !#[trigger] horizontal_four(g, player, r, c),
                    forall|c: int|
                        0 <= c < col ==> !#[trigger] horizontal_four(g, player, row as int, c),
                decreases COLS - 3 - col,
            {
                if self.board[row][col] == player && self.board[row][col + 1] == player
                    && self.board[row][col + 2] == player && self.board[row][col + 3] == player {
                    assert(line_at(g, player, row as int, col as int));
                    return true;
                }
                col += 1;
            }
            row += 1;
        }
        row = 0;
        while row < ROWS - 3
            invariant
                row <= ROWS - 3,
                g == self@,
                forall|r: int, c: int| !#[trigger] horizontal_four(g, player, r, c),
                forall|r: int, c: int| 0 <= r < row ==> !#[trigger] vertical_four(g, player, r, c),
            decreases ROWS - 3 - row,
        {
            let mut col: usize = 0;
            while col < COLS
                invariant
                    row < ROWS - 3,
                    col <= COLS,
                    g == self@,
                    forall|r: int, c: int|
                        0 <= r < row ==> !#[trigger] vertical_four(g, player, r, c),
                    forall|c: int|
                        0 <= c < col ==> !#[trigger] vertical_four(g, player, row as int, c),
                decreases COLS - col,
            {
                if self.board[row][col] == player && self.board[row + 1][col] == player
                    && self.board[row + 2][col] == player && self.board[row + 3][col] == player {
                    assert(line_at(g, player, row as int, col as int));
                    return true;
                }
                col += 1;
            }
            row += 1;
        }
        row = 0;
        while row < ROWS - 3
            invariant
                row <= ROWS - 3,
                g == self@,
                forall|r: int, c: int| !#[trigger] horizontal_four(g, player, r, c),
                forall|r: int, c: int| !#[trigger] vertical_four(g, player, r, c),
                forall|r: int, c: int| 0 <= r < row ==> !#[trigger] falling_four(g, player, r, c),
                forall|r: int, c: int| 0 <= r < row ==> !#[trigger] rising_four(g, player, r, c),
            decreases ROWS - 3 - row,
        {
            let mut col: usize = 0;
            while col < COLS - 3
                invariant
                    row < ROWS - 3,
                    col <= COLS - 3,
                    g == self@,
                    forall|r: int, c: int|
                        0 <= r < row ==> !#[trigger] falling_four(g, player, r, c),
                    forall|r: int, c: int|
                        0 <= r < row ==> !#[trigger] rising_four(g, player, r, c),
                    forall|c: int|
                        0 <= c < col ==> !#[trigger] falling_four(g, player, row as int, c),
                    forall|c: int|
                        0 <= c < col ==> !#[trigger] rising_four(g, player, row as int, c),
                decreases COLS - 3 - col,
            {
                if self.board[row][col] == player && self.board[row + 1][col + 1] == player
                    && self.board[row + 2][col + 2] == player && self.board[row + 3][col + 3]
                    == player {
                    assert(line_at(g, player, row as int, col as int));
                    return true;
                }
                if self.board[row + 3][col] == player && self.board[row + 2][col + 1] == player
                    && self.board[row + 1][col + 2] == player && self.board[row][col + 3]
                    == player {
                    assert(line_at(g, player, row as int, col as int));
                    return true;
                }
                col += 1;
            }
            row += 1;
        }
        assert forall|r: int, c: int| !#[trigger] line_at(g, player, r, c) by {
        }
        false
    }

    /// The row in which a piece dropped into `col` would land: the lowest
    /// empty cell of the column. `None` where the column does not exist or
    /// holds no empty cell.
    pub fn lowest_empty_row(&self, col: usize) -> (found: Option<usize>)
        ensures
            found is Some <==> has_room(self@, col as int),
            found matches Some(row) ==> row == landing_row(self@, col as int),
    {
        if col >= COLS {
            return None;
        }
        let mut row: usize = ROWS;
        while row > 0
            invariant
                row <= ROWS,
                col < COLS,
                forall|r: int| row <= r < ROWS ==> self@[r][col as int] != EMPTY,
            decreases row,
        {
            row -= 1;
            if self.board[row][col] == EMPTY {
                return Some(row);
            }
        }
        None
    }

    /// Drops `piece` into `col`. Where the column has room the piece lands in
    /// its lowest empty cell and the result is `true`; where the column is
    /// full or does not exist the board stays as it is and the result is
    /// `false`.
    pub fn drop_piece(&mut self, col: usize, piece: i8) -> (placed: bool)
        ensures
            placed == has_room(old(self)@, col as int),
            final(self)@ == dropped(old(self)@, col as int, piece),
            !placed ==> *final(self) == *old(self),
            gravity(old(self)@) ==> gravity(final(self)@),
    {
        let ghost g = self@;
        proof {
            self.lemma_well_shaped();
            if gravity(g) {
                lemma_dropped_gravity(g, col as int, piece);
            }
        }
        match self.lowest_empty_row(col) {
            Some(row) => {
                proof {
                    lemma_landing_row(g, col as int);
                }
                self.board[row][col] = piece;
                proof {
                    let h = place(g, row as int, col as int, piece);
                    assert forall|r: int| 0 <= r < ROWS implies #[trigger] self@[r] == h[r] by {
                    }
                }
                true
            },
            None => false,
        }
    }

    /// A copy of the board.
    pub fn clone(&self) -> (copy: Self)
        ensures
            copy == *self,
    {
        Self { board: self.board }
    }

    /// The board as text, for display: one line per row from the top; on a
    /// line each cell is a blank followed by `.` (empty), `o` (human) or `x`
    /// (automated player); each line ends with a line feed.
    pub fn render(&self) -> (text: String)
        ensures
            text@ == rendered(self@),
    {
        let ghost want = rendered(self@);
        let mut text = String::new();
        let mut row: usize = 0;
        while row < ROWS
            invariant
                row <= ROWS,
                want == rendered(self@),
                text@.len() == LINE_WIDTH * row,
                forall|i: int| 0 <= i < text@.len() ==> text@[i] == want[i],
            decreases ROWS - row,
        {
            let mut col: usize = 0;
            while col < COLS
                invariant
                    row < ROWS,
                    col <= COLS,
                    want == rendered(self@),
                    text@.len() == LINE_WIDTH * row + 2 * col,
                    forall|i: int| 0 <= i < text@.len() ==> text@[i] == want[i],
                decreases COLS - col,
            {
                proof {
                    reveal_strlit(" ");
                }
                text.append(" ");
                text.append(symbol(self.board[row][col]));
                col += 1;
            }
            proof {
                reveal_strlit("\n");
            }
            text.append("\n");
            row += 1;
        }
        text
    }
}

} // verus!
