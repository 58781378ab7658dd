//! Laws of the game and of the engine, each proved from the definitions that
//! the contracts of the board and of the engine use.

use vstd::prelude::*;
use crate::engine::{is_best_move, root_score};
use crate::grid::{
    column_open, dropped, empty_grid, free_cells, free_in_column, gravity, has_room, landing_row,
    lemma_dropped, lemma_dropped_gravity, lemma_free_cells_bounds, lemma_room_and_open,
    lemma_valid_moves, line_at, valid_moves, well_shaped, wins, Grid, BOT, COLS, EMPTY, PLAYER,
    ROWS,
};
use crate::search::{
    best_reply, better, lemma_best_reply, lemma_minimax_bounds, minimax_value, move_value,
};

verus! {

/// A move: the column and the piece that is dropped into it.
pub type Placement = (int, i8);

/// The grid after a sequence of drops, made one after the other.
pub open spec fn after_drops(g: Grid, drops: Seq<Placement>) -> Grid
    decreases drops.len(),
{
    if drops.len() == 0 {
        g
    } else {
        dropped(after_drops(g, drops.drop_last()), drops.last().0, drops.last().1)
    }
}

/// Gravity is an invariant of play: whatever is dropped into an empty board,
/// in whatever columns, every column's pieces form one run from the bottom
/// row upward, and the board keeps its shape.
pub proof fn lemma_gravity_invariant(drops: Seq<Placement>)
    ensures
        well_shaped(after_drops(empty_grid(), drops)),
        gravity(after_drops(empty_grid(), drops)),
    decreases drops.len(),
{
    if drops.len() > 0 {
        lemma_gravity_invariant(drops.drop_last());
        let g = after_drops(empty_grid(), drops.drop_last());
        lemma_dropped_gravity(g, drops.last().0, drops.last().1);
        if has_room(g, drops.last().0) {
            lemma_dropped(g, drops.last().0, drops.last().1);
        }
    }
}

/// A column has room exactly while it holds an empty cell, and on a board
/// that obeys gravity it is a legal move exactly then. So a column that has
/// been filled is no longer among the legal moves.
pub proof fn lemma_legal_while_not_full(g: Grid, col: usize)
    requires
        col < COLS,
    ensures
        has_room(g, col as int) <==> free_in_column(g, col as int) > 0,
        valid_moves(g).contains(col) ==> free_in_column(g, col as int) > 0,
        gravity(g) ==> (valid_moves(g).contains(col) <==> free_in_column(g, col as int) > 0),
{
    lemma_valid_moves(g);
    lemma_room_and_open(g, col as int);
}

/// A board without an empty cell has no legal move, and on a board that
/// obeys gravity the converse holds too.
pub proof fn lemma_full_board(g: Grid)
    ensures
        free_cells(g) == 0 ==> valid_moves(g).len() == 0,
        gravity(g) && valid_moves(g).len() == 0 ==> free_cells(g) == 0,
{
    lemma_valid_moves(g);
    lemma_free_cells_bounds(g);
    if free_cells(g) == 0 && valid_moves(g).len() > 0 {
        assert(column_open(g, valid_moves(g)[0] as int));
    }
    if gravity(g) && valid_moves(g).len() == 0 {
        assert forall|c: int| 0 <= c < COLS implies free_in_column(g, c) == 0 by {
            assert(!column_open(g, c));
        }
    }
}

/// Four equal pieces in a row, a column or a diagonal are a win for their
/// side.
pub proof fn lemma_line_wins(g: Grid, player: i8, r: int, c: int)
    requires
        line_at(g, player, r, c),
    ensures
        wins(g, player),
{
}

/// A side without a piece on the board has no line of four.
pub proof fn lemma_absent_side_has_no_line(g: Grid, player: i8)
    requires
        forall|r: int, c: int| 0 <= r < ROWS && 0 <= c < COLS ==> #[trigger] g[r][c] != player,
    ensures
        !wins(g, player),
{
    assert forall|r: int, c: int| !#[trigger] line_at(g, player, r, c) by {
        if line_at(g, player, r, c) {
        }
    }
}

/// On the empty board neither side has a line of four.
pub proof fn lemma_no_win_on_empty_board(player: i8)
    requires
        player != EMPTY,
    ensures
        !wins(empty_grid(), player),
{
    lemma_absent_side_has_no_line(empty_grid(), player);
}

/// A line of four stays: a drop never replaces a piece.
pub proof fn lemma_win_persists(g: Grid, col: int, piece: i8, player: i8)
    requires
        well_shaped(g),
        player != EMPTY,
        wins(g, player),
    ensures
        wins(dropped(g, col, piece), player),
{
    if has_room(g, col) {
        lemma_dropped(g, col, piece);
        let h = dropped(g, col, piece);
        let (r, c) = choose|r: int, c: int| #[trigger] line_at(g, player, r, c);
        assert(forall|i: int, j: int|
            0 <= i < ROWS && 0 <= j < COLS && g[i][j] == player ==> #[trigger] h[i][j] == player);
        assert(line_at(h, player, r, c));
    }
}

/// The minimax value does not depend on the order in which the moves are
/// tried: in a position that is searched further, it is the value of some
/// legal move, and the side to move prefers it to the value of every legal
/// move.
pub proof fn lemma_minimax_extremum(g: Grid, depth: int, maximizing: bool, reward: int)
    requires
        well_shaped(g),
        valid_moves(g).len() > 0,
        depth != 0,
        i32::MIN < reward <= i32::MAX,
    ensures
        exists|col: int|
            column_open(g, col) && minimax_value(g, depth, maximizing, reward)
                == #[trigger] move_value(g, col, depth, maximizing, reward),
        forall|col: int|
            column_open(g, col) ==> better(
                maximizing,
                minimax_value(g, depth, maximizing, reward),
                #[trigger] move_value(g, col, depth, maximizing, reward),
            ) == minimax_value(g, depth, maximizing, reward),
{
    lemma_valid_moves(g);
    lemma_best_reply(g, depth, maximizing, reward, 0);
    let j = choose|j: int|
        0 <= j < valid_moves(g).len() && best_reply(g, depth, maximizing, reward, 0)
            == #[trigger] move_value(g, valid_moves(g)[j] as int, depth, maximizing, reward);
    assert(column_open(g, valid_moves(g)[j] as int));
    assert forall|col: int| column_open(g, col) implies better(
        maximizing,
        minimax_value(g, depth, maximizing, reward),
        #[trigger] move_value(g, col, depth, maximizing, reward),
    ) == minimax_value(g, depth, maximizing, reward) by {
        assert(valid_moves(g).contains(col as usize));
        let k = choose|k: int| 0 <= k < valid_moves(g).len() && valid_moves(g)[k] == col as usize;
        assert(move_value(g, valid_moves(g)[k] as int, depth, maximizing, reward) == move_value(
            g,
            col,
            depth,
            maximizing,
            reward,
        ));
    }
}

/// The automated player completes a line of four by moving into `col`.
pub open spec fn immediate_win(g: Grid, col: int) -> bool {
    column_open(g, col) && wins(dropped(g, col, BOT), BOT)
}

/// Terminal preference. Where the automated player has a move that wins at
/// once, and every legal move that does not win at once scores lower than
/// it, each move that the engine may recommend wins at once.
pub proof fn lemma_terminal_preference(
    g: Grid,
    depth: int,
    reward: int,
    winning: int,
    chosen: int,
)
    requires
        immediate_win(g, winning),
        forall|other: int|
            column_open(g, other) && !immediate_win(g, other) ==> #[trigger] root_score(
                g,
                other,
                depth,
                reward,
            ) < root_score(g, winning, depth, reward),
        is_best_move(g, chosen, depth, reward),
    ensures
        immediate_win(g, chosen),
{
    assert(root_score(g, winning, depth, reward) <= root_score(g, chosen, depth, reward));
}

/// When a won position scores the full reward. `g` is a position in which
/// the automated player has a line of four and the human is to move. If at
/// least two plies are left to look ahead, the human has a reply, and no
/// reply completes a line of four or fills the board, the position is worth
/// `reward`.
pub proof fn lemma_won_position_scores_reward(g: Grid, depth: int, reward: int)
    requires
        well_shaped(g),
        wins(g, BOT),
        depth != 0,
        depth != 1,
        i32::MIN < reward <= i32::MAX,
        valid_moves(g).len() > 0,
        forall|reply: int|
            column_open(g, reply) ==> !wins(#[trigger] dropped(g, reply, PLAYER), PLAYER)
                && valid_moves(dropped(g, reply, PLAYER)).len() > 0,
    ensures
        minimax_value(g, depth, false, reward) == reward,
{
    lemma_valid_moves(g);
    lemma_best_reply(g, depth, false, reward, 0);
    let j = choose|j: int|
        0 <= j < valid_moves(g).len() && best_reply(g, depth, false, reward, 0)
            == #[trigger] move_value(g, valid_moves(g)[j] as int, depth, false, reward);
    let reply = valid_moves(g)[j] as int;
    let h = dropped(g, reply, PLAYER);
    lemma_room_and_open(g, reply);
    lemma_dropped(g, reply, PLAYER);
    lemma_win_persists(g, reply, PLAYER, BOT);
    assert(move_value(g, reply, depth, false, reward) == minimax_value(
        h,
        depth - 1,
        true,
        reward,
    ));
    lemma_valid_moves(h);
    lemma_best_reply(h, depth - 1, true, reward, 0);
    let k = choose|k: int|
        0 <= k < valid_moves(h).len() && best_reply(h, depth - 1, true, reward, 0)
            == #[trigger] move_value(h, valid_moves(h)[k] as int, depth - 1, true, reward);
    lemma_win_persists(h, valid_moves(h)[k] as int, BOT, BOT);
}

/// Terminal preference, in scores. Where the automated player has a move
/// into a won position that scores the full reward, and the reward is
/// positive, every move that the engine may recommend scores the full reward:
/// no move with a lower score is preferred to the win.
pub proof fn lemma_win_outranks(g: Grid, depth: int, reward: int, winning: int, chosen: int)
    requires
        0 < reward <= i32::MAX,
        column_open(g, winning),
        root_score(g, winning, depth, reward) == reward,
        is_best_move(g, chosen, depth, reward),
    ensures
        root_score(g, chosen, depth, reward) == reward,
{
    lemma_minimax_bounds(dropped(g, chosen, BOT), depth, false, reward);
}

} // verus!
