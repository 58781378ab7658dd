//! The automated player: a depth-limited minimax search with alpha-beta
//! pruning, and the choice of a move among the best-scoring columns.

use vstd::prelude::*;
use rand::rngs::StdRng;
use crate::board::ConnectFour;
use crate::grid::{
    column_open, dropped, free_cells, lemma_dropped_free_cells, lemma_landing_row,
    lemma_room_and_open, lemma_valid_moves, valid_moves, well_shaped, Grid, BOT, EMPTY,
    PLAYER, ROWS,
};
use crate::random::choose_column;
use crate::search::{
    alphabeta, alphabeta_move, alphabeta_scan, brackets, lemma_alphabeta_bounds,
    lemma_alphabeta_brackets, lemma_full_window, lemma_minimax_bounds, lemma_negative_depth,
    magnitude, minimax_value,
};

verus! {

/// The score of the automated player's move into `col`, as the engine ranks
/// it: the minimax value of the position after the move, with the human to
/// move and `depth` plies to look ahead.
pub open spec fn root_score(g: Grid, col: int, depth: int, reward: int) -> int {
    minimax_value(dropped(g, col, BOT), depth, false, reward)
}

/// `col` is a legal move and no legal move scores higher.
pub open spec fn is_best_move(g: Grid, col: int, depth: int, reward: int) -> bool {
    &&& column_open(g, col)
    &&& forall|other: int|
        column_open(g, other) ==> #[trigger] root_score(g, other, depth, reward) <= root_score(
            g,
            col,
            depth,
            reward,
        )
}

/// The automated player.
pub struct BotPlayer {
    /// How many plies the search looks ahead after the move it ranks.
    pub max_depth: i32,
    /// The score of a won position; a lost one scores its negative.
    pub reward: i32,
}

impl BotPlayer {
    /// A player that looks `max_depth` plies ahead and scores a win as 100.
    pub fn new(max_depth: i32) -> (bot: Self)
        ensures
            bot.max_depth == max_depth,
            bot.reward == 100,
    {
        Self { max_depth, reward: 100 }
    }

    /// Scores the position on `game` for the side to move by a search of
    /// `depth` plies with alpha-beta pruning in the window (`alpha`, `beta`).
    ///
    /// Every move is made on `game` and taken back before the next one is
    /// tried, so the board comes back as it was. The result is the pruned
    /// value of the position. For a window with `alpha < beta` it brackets
    /// the minimax value, and for the full window it is the minimax value:
    /// pruning never changes the score.
    pub fn minimax(
        &mut self,
        game: &mut ConnectFour,
        depth: i32,
        alpha: i32,
        beta: i32,
        is_maximizing: bool,
    ) -> (score: i32)
        requires
            old(self).reward > i32::MIN,
        ensures
            *final(self) == *old(self),
            *final(game) == *old(game),
            score == alphabeta(
                old(game)@,
                depth as int,
                alpha as int,
                beta as int,
                is_maximizing,
                old(self).reward as int,
            ),
            alpha < beta ==> brackets(
                score as int,
                minimax_value(old(game)@, depth as int, is_maximizing, old(self).reward as int),
                alpha as int,
                beta as int,
            ),
            alpha == i32::MIN && beta == i32::MAX ==> score == minimax_value(
                old(game)@,
                depth as int,
                is_maximizing,
                old(self).reward as int,
            ),
            -magnitude(old(self).reward as int) <= score <= magnitude(old(self).reward as int),
        decreases free_cells(old(game)@),
    {
        let ghost g = game@;
        let ghost reward = self.reward as int;
        let ghost target = alphabeta(
            g,
            depth as int,
            alpha as int,
            beta as int,
            is_maximizing,
            reward,
        );
        proof {
            game.lemma_well_shaped();
            lemma_valid_moves(g);
            if alpha < beta {
                lemma_alphabeta_brackets(
                    g,
                    depth as int,
                    alpha as int,
                    beta as int,
                    is_maximizing,
                    reward,
                );
            }
            lemma_full_window(g, depth as int, is_maximizing, reward);
            lemma_alphabeta_bounds(
                g,
                depth as int,
                alpha as int,
                beta as int,
                is_maximizing,
                reward,
            );
        }
        let moves = game.get_valid_moves();
        if moves.len() == 0 || depth == 0 {
            return 0;
        }
        // A negative depth never runs out; it is kept negative without wrapping.
        let deeper: i32 = if depth == i32::MIN {
            depth
        } else {
            depth - 1
        };
        let mut alpha = alpha;
        let mut beta = beta;

        if is_maximizing {
            let mut max_score: i32 = i32::MIN;
            let mut i: usize = 0;
            while i < moves.len()
                invariant_except_break
                    alphabeta_scan(
                        g,
                        depth as int,
                        alpha as int,
                        beta as int,
                        true,
                        reward,
                        max_score as int,
                        i as int,
                    ) == target,
                invariant
                    i <= moves.len(),
                    moves@ == valid_moves(g),
                    well_shaped(g),
                    g == old(game)@,
                    *game == *old(game),
                    *self == *old(self),
                    reward == self.reward as int,
                    reward > i32::MIN,
                    depth != 0,
                    deeper < 0 <==> depth < 0,
                    depth > i32::MIN ==> deeper == depth - 1,
                ensures
                    max_score == target,
                    *game == *old(game),
                    *self == *old(self),
                decreases moves.len() - i,
            {
                let col = moves[i];
                proof {
                    lemma_valid_moves(g);
                    lemma_room_and_open(g, col as int);
                }
                if let Some(row) = game.lowest_empty_row(col) {
                    let ghost next = dropped(g, col as int, BOT);
                    proof {
                        lemma_landing_row(g, col as int);
                        lemma_dropped_free_cells(g, col as int, BOT);
                    }
                    game.board[row][col] = BOT;
                    proof {
                        assert(game@ =~~= next);
                    }
                    let score = if game.check_win(BOT) {
                        self.reward
                    } else {
                        self.minimax(game, deeper, alpha, beta, false)
                    };
                    proof {
                        if depth == i32::MIN {
                            lemma_negative_depth(
                                next,
                                depth - 1,
                                deeper as int,
                                alpha as int,
                                beta as int,
                                false,
                                reward,
                            );
                        }
                        assert(score == alphabeta_move(
                            g,
                            col as int,
                            depth as int,
                            alpha as int,
                            beta as int,
                            true,
                            reward,
                        ));
                    }
                    game.board[row][col] = EMPTY;
                    proof {
                        assert(game@ =~~= g);
                        ConnectFour::lemma_view_determines_board(*game, *old(game));
                    }
                    if score > max_score {
                        max_score = score;
                    }
                    if score > alpha {
                        alpha = score;
                    }
                    if beta <= alpha {
                        break;
                    }
                }
                i += 1;
            }
            max_score
        } else {
            let mut min_score: i32 = i32::MAX;
            let mut i: usize = 0;
            while i < moves.len()
                invariant_except_break
                    alphabeta_scan(
                        g,
                        depth as int,
                        alpha as int,
                        beta as int,
                        false,
                        reward,
                        min_score as int,
                        i as int,
                    ) == target,
                invariant
                    i <= moves.len(),
                    moves@ == valid_moves(g),
                    well_shaped(g),
                    g == old(game)@,
                    *game == *old(game),
                    *self == *old(self),
                    reward == self.reward as int,
                    reward > i32::MIN,
                    depth != 0,
                    deeper < 0 <==> depth < 0,
                    depth > i32::MIN ==> deeper == depth - 1,
                ensures
                    min_score == target,
                    *game == *old(game),
                    *self == *old(self),
                decreases moves.len() - i,
            {
                let col = moves[i];
                proof {
                    lemma_valid_moves(g);
                    lemma_room_and_open(g, col as int);
                }
                if let Some(row) = game.lowest_empty_row(col) {
                    let ghost next = dropped(g, col as int, PLAYER);
                    proof {
                        lemma_landing_row(g, col as int);
                        lemma_dropped_free_cells(g, col as int, PLAYER);
                    }
                    game.board[row][col] = PLAYER;
                    proof {
                        assert(game@ =~~= next);
                    }
                    let score = if game.check_win(PLAYER) {
                        -self.reward
                    } else {
                        self.minimax(game, deeper, alpha, beta, true)
                    };
                    proof {
                        if depth == i32::MIN {
                            lemma_negative_depth(
                                next,
                                depth - 1,
                                deeper as int,
                                alpha as int,
                                beta as int,
                                true,
                                reward,
                            );
                        }
                        assert(score == alphabeta_move(
                            g,
                            col as int,
                            depth as int,
                            alpha as int,
                            beta as int,
                            false,
                            reward,
                        ));
                    }
                    game.board[row][col] = EMPTY;
                    proof {
                        assert(game@ =~~= g);
                        ConnectFour::lemma_view_determines_board(*game, *old(game));
                    }
                    if score < min_score {
                        min_score = score;
                    }
                    if score < beta {
                        beta = score;
                    }
                    if beta <= alpha {
                        break;
                    }
                }
                i += 1;
            }
            min_score
        }
    }

    /// The columns that score highest for the automated player, in ascending
    /// order. Each legal move is tried on a copy of the board and scored by a
    /// full-window search of `max_depth` plies with the human to move; the
    /// board itself is only read. The list is empty exactly when there is no
    /// legal move. Its first element is the choice of a player that breaks
    /// ties by taking the lowest column.
    pub fn best_moves(&mut self, game: &ConnectFour) -> (best: Vec<usize>)
        requires
            old(self).reward > i32::MIN,
        ensures
            *final(self) == *old(self),
            forall|c: usize|
                best@.contains(c) <==> is_best_move(
                    game@,
                    c as int,
                    old(self).max_depth as int,
                    old(self).reward as int,
                ),
            forall|i: int, j: int| 0 <= i < j < best@.len() ==> best@[i] < best@[j],
            best@.len() == 0 <==> valid_moves(game@).len() == 0,
    {
        let ghost g = game@;
        let ghost depth = self.max_depth as int;
        let ghost reward = self.reward as int;
        let mut game_clone = game.clone();
        let mut best_score: i32 = i32::MIN;
        let mut best_moves: Vec<usize> = Vec::new();
        let moves = game.get_valid_moves();
        proof {
            game.lemma_well_shaped();
            lemma_valid_moves(g);
        }
        let mut i: usize = 0;
        while i < moves.len()
            invariant
                i <= moves.len(),
                moves@ == valid_moves(g),
                well_shaped(g),
                g == game@,
                game_clone == *game,
                *self == *old(self),
                depth == self.max_depth as int,
                reward == self.reward as int,
                reward > i32::MIN,
                i == 0 ==> best_score == i32::MIN,
                (i == 0) == (best_moves@.len() == 0),
                forall|j: int|
                    0 <= j < i ==> #[trigger] root_score(g, moves@[j] as int, depth, reward)
                        <= best_score,
                forall|j: int|
                    0 <= j < i && #[trigger] root_score(g, moves@[j] as int, depth, reward)
                        == best_score ==> best_moves@.contains(moves@[j]),
                forall|k: int|
                    0 <= k < best_moves@.len() ==> column_open(g, #[trigger] best_moves@[k] as int)
                        && root_score(g, best_moves@[k] as int, depth, reward) == best_score,
                forall|k: int, j: int|
                    0 <= k < best_moves@.len() && i <= j < moves@.len() ==> #[trigger] best_moves@[k]
                        < #[trigger] moves@[j],
                forall|a: int, b: int|
                    0 <= a < b < best_moves@.len() ==> best_moves@[a] < best_moves@[b],
            decreases moves.len() - i,
        {
            let col = moves[i];
            proof {
                lemma_valid_moves(g);
                lemma_room_and_open(g, col as int);
            }
            if let Some(row) = game_clone.lowest_empty_row(col) {
                let ghost next = dropped(g, col as int, BOT);
                proof {
                    lemma_landing_row(g, col as int);
                }
                game_clone.board[row][col] = BOT;
                proof {
                    assert(game_clone@ =~~= next);
                }
                let max_depth = self.max_depth;
                let score = self.minimax(&mut game_clone, max_depth, i32::MIN, i32::MAX, false);
                game_clone.board[row][col] = EMPTY;
                proof {
                    assert(game_clone@ =~~= g);
                    ConnectFour::lemma_view_determines_board(game_clone, *game);
                    lemma_full_window(next, depth, false, reward);
                    lemma_minimax_bounds(next, depth, false, reward);
                }
                if score > best_score {
                    best_score = score;
                    best_moves.clear();
                    best_moves.push(col);
                    assert(best_moves@[0] == col);
                } else if score == best_score {
                    let ghost before = best_moves@;
                    best_moves.push(col);
                    proof {
                        assert(best_moves@[before.len() as int] == col);
                        assert forall|j: int|
                            0 <= j < i && #[trigger] root_score(g, moves@[j] as int, depth, reward)
                                == best_score implies best_moves@.contains(moves@[j]) by {
                            let k = choose|k: int| 0 <= k < before.len() && before[k] == moves@[j];
                            assert(best_moves@[k] == moves@[j]);
                        }
                    }
                }
            }
            i += 1;
        }
        proof {
            assert forall|c: usize| best_moves@.contains(c) implies is_best_move(
                g,
                c as int,
                depth,
                reward,
            ) by {
                assert forall|other: int| column_open(g, other) implies #[trigger] root_score(
                    g,
                    other,
                    depth,
                    reward,
                ) <= root_score(g, c as int, depth, reward) by {
                    assert(moves@.contains(other as usize));
                }
            }
            assert forall|c: usize| is_best_move(g, c as int, depth, reward) implies best_moves@.contains(
                c,
            ) by {
                assert(moves@.contains(c));
                assert(root_score(g, best_moves@[0] as int, depth, reward) <= root_score(
                    g,
                    c as int,
                    depth,
                    reward,
                ));
            }
        }
        best_moves
    }

    /// Recommends a column for the automated player: one of the columns that
    /// score highest, drawn at random with `rng` where several tie. `None`
    /// exactly when the board has no legal move. The board is only read.
    pub fn get_best_move(&mut self, game: &ConnectFour, rng: &mut StdRng) -> (choice: Option<usize>)
        requires
            old(self).reward > i32::MIN,
        ensures
            *final(self) == *old(self),
            choice is None <==> valid_moves(game@).len() == 0,
            choice matches Some(col) ==> is_best_move(
                game@,
                col as int,
                old(self).max_depth as int,
                old(self).reward as int,
            ),
    {
        let best_moves = self.best_moves(game);
        choose_column(&best_moves, rng)
    }
}

} // verus!
