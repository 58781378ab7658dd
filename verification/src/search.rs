//! What the engine computes, as mathematics: the minimax value of a position
//! to a fixed depth, the value that alpha-beta pruning returns for a window,
//! and the proof that pruning never changes what the search decides.

use vstd::prelude::*;
use crate::grid::{
    column_open, dropped, free_cells, lemma_dropped_free_cells, lemma_room_and_open, valid_moves,
    well_shaped, wins, Grid, BOT, PLAYER,
};

verus! {

/// The piece of the side to move: the automated player maximizes.
pub open spec fn mover(maximizing: bool) -> i8 {
    if maximizing {
        BOT
    } else {
        PLAYER
    }
}

/// The score of a move that completes a line of four for the side to move.
pub open spec fn win_score(maximizing: bool, reward: int) -> int {
    if maximizing {
        reward
    } else {
        -reward
    }
}

/// The score a side starts from before it has looked at any move.
pub open spec fn unset(maximizing: bool) -> int {
    if maximizing {
        i32::MIN as int
    } else {
        i32::MAX as int
    }
}

/// The one of two scores that the side to move prefers.
pub open spec fn better(maximizing: bool, a: int, b: int) -> int {
    if maximizing {
        if a >= b {
            a
        } else {
            b
        }
    } else {
        if a <= b {
            a
        } else {
            b
        }
    }
}

/// The size of a reward, whatever its sign.
pub open spec fn magnitude(reward: int) -> int {
    if reward >= 0 {
        reward
    } else {
        -reward
    }
}

/// The minimax value of a position with `depth` plies left to look ahead.
/// A position without legal moves, or with no plies left, is worth 0; any
/// other is worth the best of its moves for the side to move. A negative
/// depth never reaches 0: the search then ends only on full boards.
pub open spec fn minimax_value(g: Grid, depth: int, maximizing: bool, reward: int) -> int
    decreases free_cells(g), 2int, 0int,
{
    if !well_shaped(g) || valid_moves(g).len() == 0 || depth == 0 {
        0
    } else {
        best_reply(g, depth, maximizing, reward, 0)
    }
}

/// The value of the move into `col` for the side to move: the reward (negated
/// for the minimizing side) where the move completes a line of four,
/// otherwise the minimax value of the position it leads to, one ply deeper
/// and with the other side to move.
pub open spec fn move_value(g: Grid, col: int, depth: int, maximizing: bool, reward: int) -> int
    decreases free_cells(g), 0int, 0int,
{
    if !well_shaped(g) || !column_open(g, col) {
        0
    } else if wins(dropped(g, col, mover(maximizing)), mover(maximizing)) {
        win_score(maximizing, reward)
    } else {
        proof {
            lemma_room_and_open(g, col);
            lemma_dropped_free_cells(g, col, mover(maximizing));
        }
        minimax_value(dropped(g, col, mover(maximizing)), depth - 1, !maximizing, reward)
    }
}

/// The best value among the legal moves from the `i`-th on.
pub open spec fn best_reply(g: Grid, depth: int, maximizing: bool, reward: int, i: int) -> int
    decreases free_cells(g), 1int, valid_moves(g).len() - i,
{
    if i < 0 || i >= valid_moves(g).len() {
        unset(maximizing)
    } else {
        better(
            maximizing,
            move_value(g, valid_moves(g)[i] as int, depth, maximizing, reward),
            best_reply(g, depth, maximizing, reward, i + 1),
        )
    }
}

/// What a search with alpha-beta pruning returns for the window
/// (`alpha`, `beta`): the moves are tried in ascending column order, and the
/// side to move stops looking once the window has closed.
pub open spec fn alphabeta(
    g: Grid,
    depth: int,
    alpha: int,
    beta: int,
    maximizing: bool,
    reward: int,
) -> int
    decreases free_cells(g), 2int, 0int,
{
    if !well_shaped(g) || valid_moves(g).len() == 0 || depth == 0 {
        0
    } else {
        alphabeta_scan(g, depth, alpha, beta, maximizing, reward, unset(maximizing), 0)
    }
}

/// The score that the pruned search gives the move into `col`.
pub open spec fn alphabeta_move(
    g: Grid,
    col: int,
    depth: int,
    alpha: int,
    beta: int,
    maximizing: bool,
    reward: int,
) -> int
    decreases free_cells(g), 0int, 0int,
{
    if !well_shaped(g) || !column_open(g, col) {
        0
    } else if wins(dropped(g, col, mover(maximizing)), mover(maximizing)) {
        win_score(maximizing, reward)
    } else {
        proof {
            lemma_room_and_open(g, col);
            lemma_dropped_free_cells(g, col, mover(maximizing));
        }
        alphabeta(dropped(g, col, mover(maximizing)), depth - 1, alpha, beta, !maximizing, reward)
    }
}

/// The pruned search from the `i`-th legal move on, with `best` the best score
/// seen so far. The maximizing side raises `alpha`, the minimizing side
/// lowers `beta`, and the scan ends as soon as `beta <= alpha`.
pub open spec fn alphabeta_scan(
    g: Grid,
    depth: int,
    alpha: int,
    beta: int,
    maximizing: bool,
    reward: int,
    best: int,
    i: int,
) -> int
    decreases free_cells(g), 1int, valid_moves(g).len() - i,
{
    if i < 0 || i >= valid_moves(g).len() {
        best
    } else {
        let score = alphabeta_move(
            g,
            valid_moves(g)[i] as int,
            depth,
            alpha,
            beta,
            maximizing,
            reward,
        );
        let best2 = better(maximizing, best, score);
        let alpha2 = if maximizing {
            better(true, alpha, score)
        } else {
            alpha
        };
        let beta2 = if maximizing {
            beta
        } else {
            better(false, beta, score)
        };
        if beta2 <= alpha2 {
            best2
        } else {
            alphabeta_scan(g, depth, alpha2, beta2, maximizing, reward, best2, i + 1)
        }
    }
}

/// What a pruned result `v` tells about the exact value for the window
/// (`alpha`, `beta`): strictly inside the window it is the exact value; at or
/// below `alpha` the exact value is no larger; at or above `beta` the exact
/// value is no smaller.
pub open spec fn brackets(v: int, exact: int, alpha: int, beta: int) -> bool {
    &&& v <= alpha ==> exact <= v
    &&& v >= beta ==> exact >= v
    &&& alpha < v < beta ==> exact == v
}

/// Pruning is sound: for every window with `alpha < beta` the pruned result
/// brackets the minimax value.
pub proof fn lemma_alphabeta_brackets(
    g: Grid,
    depth: int,
    alpha: int,
    beta: int,
    maximizing: bool,
    reward: int,
)
    requires
        i32::MIN <= alpha < beta <= i32::MAX,
    ensures
        brackets(
            alphabeta(g, depth, alpha, beta, maximizing, reward),
            minimax_value(g, depth, maximizing, reward),
            alpha,
            beta,
        ),
    decreases free_cells(g), 2int, 0int,
{
    if well_shaped(g) && valid_moves(g).len() != 0 && depth != 0 {
        lemma_scan_brackets(g, depth, alpha, beta, maximizing, reward, unset(maximizing), 0);
    }
}

/// The pruned score of one move brackets the value of that move.
proof fn lemma_move_brackets(
    g: Grid,
    col: int,
    depth: int,
    alpha: int,
    beta: int,
    maximizing: bool,
    reward: int,
)
    requires
        i32::MIN <= alpha < beta <= i32::MAX,
    ensures
        brackets(
            alphabeta_move(g, col, depth, alpha, beta, maximizing, reward),
            move_value(g, col, depth, maximizing, reward),
            alpha,
            beta,
        ),
    decreases free_cells(g), 0int, 0int,
{
    if well_shaped(g) && column_open(g, col) && !wins(
        dropped(g, col, mover(maximizing)),
        mover(maximizing),
    ) {
        lemma_room_and_open(g, col);
        lemma_dropped_free_cells(g, col, mover(maximizing));
        lemma_alphabeta_brackets(
            dropped(g, col, mover(maximizing)),
            depth - 1,
            alpha,
            beta,
            !maximizing,
            reward,
        );
    }
}

/// The pruned scan from the `i`-th move on brackets the best value among
/// those moves, and never returns less (for the minimizing side: more) than
/// the best score it started from.
proof fn lemma_scan_brackets(
    g: Grid,
    depth: int,
    alpha: int,
    beta: int,
    maximizing: bool,
    reward: int,
    best: int,
    i: int,
)
    requires
        0 <= i <= valid_moves(g).len(),
        i32::MIN <= alpha < beta <= i32::MAX,
        maximizing ==> i32::MIN <= best <= alpha,
        !maximizing ==> beta <= best <= i32::MAX,
    ensures
        maximizing ==> alphabeta_scan(g, depth, alpha, beta, maximizing, reward, best, i) >= best,
        !maximizing ==> alphabeta_scan(g, depth, alpha, beta, maximizing, reward, best, i) <= best,
        brackets(
            alphabeta_scan(g, depth, alpha, beta, maximizing, reward, best, i),
            best_reply(g, depth, maximizing, reward, i),
            alpha,
            beta,
        ),
    decreases free_cells(g), 1int, valid_moves(g).len() - i,
{
    if i < valid_moves(g).len() {
        let col = valid_moves(g)[i] as int;
        lemma_move_brackets(g, col, depth, alpha, beta, maximizing, reward);
        let score = alphabeta_move(g, col, depth, alpha, beta, maximizing, reward);
        let best2 = better(maximizing, best, score);
        let alpha2 = if maximizing {
            better(true, alpha, score)
        } else {
            alpha
        };
        let beta2 = if maximizing {
            beta
        } else {
            better(false, beta, score)
        };
        if beta2 > alpha2 {
            lemma_scan_brackets(g, depth, alpha2, beta2, maximizing, reward, best2, i + 1);
        }
    }
}

/// No value exceeds the reward in size.
pub proof fn lemma_minimax_bounds(g: Grid, depth: int, maximizing: bool, reward: int)
    requires
        i32::MIN < reward <= i32::MAX,
    ensures
        -magnitude(reward) <= minimax_value(g, depth, maximizing, reward) <= magnitude(reward),
    decreases free_cells(g), 2int, 0int,
{
    if well_shaped(g) && valid_moves(g).len() != 0 && depth != 0 {
        lemma_best_reply_bounds(g, depth, maximizing, reward, 0);
    }
}

/// No move is worth more than the reward in size.
pub proof fn lemma_move_value_bounds(
    g: Grid,
    col: int,
    depth: int,
    maximizing: bool,
    reward: int,
)
    requires
        i32::MIN < reward <= i32::MAX,
    ensures
        -magnitude(reward) <= move_value(g, col, depth, maximizing, reward) <= magnitude(reward),
    decreases free_cells(g), 0int, 0int,
{
    if well_shaped(g) && column_open(g, col) && !wins(
        dropped(g, col, mover(maximizing)),
        mover(maximizing),
    ) {
        lemma_room_and_open(g, col);
        lemma_dropped_free_cells(g, col, mover(maximizing));
        lemma_minimax_bounds(dropped(g, col, mover(maximizing)), depth - 1, !maximizing, reward);
    }
}

/// The best value among the moves from the `i`-th on is the value of one of
/// them, and no other of them is better for the side to move.
pub proof fn lemma_best_reply(g: Grid, depth: int, maximizing: bool, reward: int, i: int)
    requires
        0 <= i < valid_moves(g).len(),
        i32::MIN < reward <= i32::MAX,
    ensures
        exists|j: int|
            i <= j < valid_moves(g).len() && best_reply(g, depth, maximizing, reward, i)
                == #[trigger] move_value(g, valid_moves(g)[j] as int, depth, maximizing, reward),
        forall|j: int|
            i <= j < valid_moves(g).len() ==> better(
                maximizing,
                best_reply(g, depth, maximizing, reward, i),
                #[trigger] move_value(g, valid_moves(g)[j] as int, depth, maximizing, reward),
            ) == best_reply(g, depth, maximizing, reward, i),
    decreases valid_moves(g).len() - i,
{
    let here = move_value(g, valid_moves(g)[i] as int, depth, maximizing, reward);
    lemma_move_value_bounds(g, valid_moves(g)[i] as int, depth, maximizing, reward);
    if i + 1 < valid_moves(g).len() {
        lemma_best_reply(g, depth, maximizing, reward, i + 1);
        let rest = best_reply(g, depth, maximizing, reward, i + 1);
        let j = choose|j: int|
            i + 1 <= j < valid_moves(g).len() && rest == #[trigger] move_value(
                g,
                valid_moves(g)[j] as int,
                depth,
                maximizing,
                reward,
            );
        if better(maximizing, here, rest) == here {
            assert(best_reply(g, depth, maximizing, reward, i) == move_value(
                g,
                valid_moves(g)[i] as int,
                depth,
                maximizing,
                reward,
            ));
        } else {
            assert(best_reply(g, depth, maximizing, reward, i) == move_value(
                g,
                valid_moves(g)[j] as int,
                depth,
                maximizing,
                reward,
            ));
        }
    }
}

/// The best value among the moves from the `i`-th on stays within the reward.
proof fn lemma_best_reply_bounds(g: Grid, depth: int, maximizing: bool, reward: int, i: int)
    requires
        0 <= i < valid_moves(g).len(),
        i32::MIN < reward <= i32::MAX,
    ensures
        -magnitude(reward) <= best_reply(g, depth, maximizing, reward, i) <= magnitude(reward),
    decreases free_cells(g), 1int, valid_moves(g).len() - i,
{
    lemma_move_value_bounds(g, valid_moves(g)[i] as int, depth, maximizing, reward);
    if i + 1 < valid_moves(g).len() {
        lemma_best_reply_bounds(g, depth, maximizing, reward, i + 1);
    } else {
        assert(best_reply(g, depth, maximizing, reward, i + 1) == unset(maximizing));
    }
}

/// Pruning never changes the score: searched with the full window, a
/// position gets exactly its minimax value.
pub proof fn lemma_full_window(g: Grid, depth: int, maximizing: bool, reward: int)
    requires
        i32::MIN < reward <= i32::MAX,
    ensures
        alphabeta(g, depth, i32::MIN as int, i32::MAX as int, maximizing, reward) == minimax_value(
            g,
            depth,
            maximizing,
            reward,
        ),
{
    lemma_alphabeta_brackets(g, depth, i32::MIN as int, i32::MAX as int, maximizing, reward);
    lemma_minimax_bounds(g, depth, maximizing, reward);
    lemma_alphabeta_bounds(g, depth, i32::MIN as int, i32::MAX as int, maximizing, reward);
}

/// A pruned result is 0, the reward or its negative.
pub proof fn lemma_alphabeta_bounds(
    g: Grid,
    depth: int,
    alpha: int,
    beta: int,
    maximizing: bool,
    reward: int,
)
    requires
        i32::MIN < reward <= i32::MAX,
    ensures
        -magnitude(reward) <= alphabeta(g, depth, alpha, beta, maximizing, reward) <= magnitude(
            reward,
        ),
    decreases free_cells(g), 2int, 0int,
{
    if well_shaped(g) && valid_moves(g).len() != 0 && depth != 0 {
        lemma_alphabeta_scan_bounds(g, depth, alpha, beta, maximizing, reward, unset(maximizing), 0);
    }
}

/// The pruned score of a move stays within the reward.
proof fn lemma_alphabeta_move_bounds(
    g: Grid,
    col: int,
    depth: int,
    alpha: int,
    beta: int,
    maximizing: bool,
    reward: int,
)
    requires
        i32::MIN < reward <= i32::MAX,
    ensures
        -magnitude(reward) <= alphabeta_move(g, col, depth, alpha, beta, maximizing, reward)
            <= magnitude(reward),
    decreases free_cells(g), 0int, 0int,
{
    if well_shaped(g) && column_open(g, col) && !wins(
        dropped(g, col, mover(maximizing)),
        mover(maximizing),
    ) {
        lemma_room_and_open(g, col);
        lemma_dropped_free_cells(g, col, mover(maximizing));
        lemma_alphabeta_bounds(
            dropped(g, col, mover(maximizing)),
            depth - 1,
            alpha,
            beta,
            !maximizing,
            reward,
        );
    }
}

/// A pruned scan that has a move left to look at, and has seen either
/// nothing or only scores within the reward, ends within the reward.
proof fn lemma_alphabeta_scan_bounds(
    g: Grid,
    depth: int,
    alpha: int,
    beta: int,
    maximizing: bool,
    reward: int,
    best: int,
    i: int,
)
    requires
        0 <= i <= valid_moves(g).len(),
        i32::MIN < reward <= i32::MAX,
        i == 0 ==> best == unset(maximizing) && valid_moves(g).len() > 0,
        i > 0 ==> -magnitude(reward) <= best <= magnitude(reward),
    ensures
        -magnitude(reward) <= alphabeta_scan(g, depth, alpha, beta, maximizing, reward, best, i)
            <= magnitude(reward),
    decreases free_cells(g), 1int, valid_moves(g).len() - i,
{
    if i < valid_moves(g).len() {
        let col = valid_moves(g)[i] as int;
        lemma_alphabeta_move_bounds(g, col, depth, alpha, beta, maximizing, reward);
        let score = alphabeta_move(g, col, depth, alpha, beta, maximizing, reward);
        let best2 = better(maximizing, best, score);
        let alpha2 = if maximizing {
            better(true, alpha, score)
        } else {
            alpha
        };
        let beta2 = if maximizing {
            beta
        } else {
            better(false, beta, score)
        };
        if beta2 > alpha2 {
            lemma_alphabeta_scan_bounds(g, depth, alpha2, beta2, maximizing, reward, best2, i + 1);
        }
    }
}

/// A negative depth never runs out, so all negative depths search alike.
pub proof fn lemma_negative_depth(
    g: Grid,
    d1: int,
    d2: int,
    alpha: int,
    beta: int,
    maximizing: bool,
    reward: int,
)
    requires
        d1 < 0,
        d2 < 0,
    ensures
        alphabeta(g, d1, alpha, beta, maximizing, reward) == alphabeta(
            g,
            d2,
            alpha,
            beta,
            maximizing,
            reward,
        ),
    decreases free_cells(g), 2int, 0int,
{
    if well_shaped(g) && valid_moves(g).len() != 0 {
        lemma_negative_depth_scan(g, d1, d2, alpha, beta, maximizing, reward, unset(maximizing), 0);
    }
}

/// With a negative depth the pruned score of a move does not depend on the
/// depth.
proof fn lemma_negative_depth_move(
    g: Grid,
    col: int,
    d1: int,
    d2: int,
    alpha: int,
    beta: int,
    maximizing: bool,
    reward: int,
)
    requires
        d1 < 0,
        d2 < 0,
    ensures
        alphabeta_move(g, col, d1, alpha, beta, maximizing, reward) == alphabeta_move(
            g,
            col,
            d2,
            alpha,
            beta,
            maximizing,
            reward,
        ),
    decreases free_cells(g), 0int, 0int,
{
    if well_shaped(g) && column_open(g, col) && !wins(
        dropped(g, col, mover(maximizing)),
        mover(maximizing),
    ) {
        lemma_room_and_open(g, col);
        lemma_dropped_free_cells(g, col, mover(maximizing));
        lemma_negative_depth(
            dropped(g, col, mover(maximizing)),
            d1 - 1,
            d2 - 1,
            alpha,
            beta,
            !maximizing,
            reward,
        );
    }
}

/// With a negative depth a pruned scan does not depend on the depth.
proof fn lemma_negative_depth_scan(
    g: Grid,
    d1: int,
    d2: int,
    alpha: int,
    beta: int,
    maximizing: bool,
    reward: int,
    best: int,
    i: int,
)
    requires
        d1 < 0,
        d2 < 0,
        0 <= i <= valid_moves(g).len(),
    ensures
        alphabeta_scan(g, d1, alpha, beta, maximizing, reward, best, i) == alphabeta_scan(
            g,
            d2,
            alpha,
            beta,
            maximizing,
            reward,
            best,
            i,
        ),
    decreases free_cells(g), 1int, valid_moves(g).len() - i,
{
    if i < valid_moves(g).len() {
        let col = valid_moves(g)[i] as int;
        lemma_negative_depth_move(g, col, d1, d2, alpha, beta, maximizing, reward);
        let score = alphabeta_move(g, col, d1, alpha, beta, maximizing, reward);
        let best2 = better(maximizing, best, score);
        let alpha2 = if maximizing {
            better(true, alpha, score)
        } else {
            alpha
        };
        let beta2 = if maximizing {
            beta
        } else {
            better(false, beta, score)
        };
        if beta2 > alpha2 {
            lemma_negative_depth_scan(g, d1, d2, alpha2, beta2, maximizing, reward, best2, i + 1);
        }
    }
}

} // verus!
