use connect_four::{BotPlayer, ConnectFour, BOT, COLS, EMPTY, PLAYER, ROWS};
use rand::rngs::StdRng;
use rand::SeedableRng;

fn position(drops: &[(usize, i8)]) -> ConnectFour {
    let mut game = ConnectFour::new();
    for &(col, piece) in drops {
        assert!(game.drop_piece(col, piece));
    }
    game
}

fn full_board() -> ConnectFour {
    let mut game = ConnectFour::new();
    for col in 0..COLS {
        for row in (0..ROWS).rev() {
            let piece: i8 = if (col + row / 2) % 2 == 0 { PLAYER } else { BOT };
            assert!(game.drop_piece(col, piece));
        }
    }
    game
}

/// Minimax without pruning, written against the board's public interface.
fn plain_search(game: &ConnectFour, depth: i32, maximizing: bool, reward: i32) -> i32 {
    let moves = game.get_valid_moves();
    if moves.is_empty() || depth == 0 {
        return 0;
    }
    let piece: i8 = if maximizing { BOT } else { PLAYER };
    let mut best: Option<i32> = None;
    for col in moves {
        let mut next = game.clone();
        assert!(next.drop_piece(col, piece));
        let score: i32 = if next.check_win(piece) {
            if maximizing {
                reward
            } else {
                -reward
            }
        } else {
            plain_search(&next, depth - 1, !maximizing, reward)
        };
        best = Some(match best {
            None => score,
            Some(seen) => {
                if maximizing {
                    seen.max(score)
                } else {
                    seen.min(score)
                }
            }
        });
    }
    best.unwrap()
}

fn both_threaten() -> ConnectFour {
    position(&[(0, BOT), (0, BOT), (0, BOT), (1, PLAYER), (1, PLAYER), (1, PLAYER)])
}

fn late_game() -> ConnectFour {
    position(&[
        (5, 1), (5, -1), (5, 1), (3, -1), (1, 1), (4, -1), (6, 1), (4, -1), (4, 1), (5, -1), (3, 1),
        (2, -1), (4, 1), (4, -1), (6, 1), (6, -1), (5, 1), (2, -1), (5, 1), (0, -1), (1, 1),
        (1, -1), (4, 1), (3, -1), (6, 1), (1, -1), (1, 1), (1, -1), (0, 1), (6, -1), (2, 1),
        (2, -1), (0, 1),
    ])
}

#[test]
fn bot_new_sets_depth_and_reward() {
    let bot = BotPlayer::new(4);
    assert_eq!(bot.max_depth, 4);
    assert_eq!(bot.reward, 100);
    let shallow = BotPlayer::new(0);
    assert_eq!(shallow.max_depth, 0);
    assert_eq!(shallow.reward, 100);
}

#[test]
fn minimax_depth_zero_is_neutral() {
    let mut bot = BotPlayer::new(4);
    let mut game = position(&[(0, BOT), (1, BOT), (2, BOT)]);
    assert_eq!(bot.minimax(&mut game, 0, i32::MIN, i32::MAX, true), 0);
    assert_eq!(bot.minimax(&mut game, 0, i32::MIN, i32::MAX, false), 0);
}

#[test]
fn minimax_full_board_is_neutral() {
    let mut bot = BotPlayer::new(4);
    let mut game = full_board();
    assert_eq!(bot.minimax(&mut game, 4, i32::MIN, i32::MAX, true), 0);
    assert_eq!(bot.minimax(&mut game, 4, i32::MIN, i32::MAX, false), 0);
    assert_eq!(bot.minimax(&mut game, -1, i32::MIN, i32::MAX, true), 0);
}

#[test]
fn minimax_scores_immediate_bot_win() {
    let mut bot = BotPlayer::new(4);
    let mut game = position(&[(0, BOT), (1, BOT), (2, BOT), (0, PLAYER), (1, PLAYER), (6, PLAYER)]);
    assert_eq!(bot.minimax(&mut game, 1, i32::MIN, i32::MAX, true), 100);
    assert_eq!(bot.minimax(&mut game, 4, i32::MIN, i32::MAX, true), 100);
}

#[test]
fn minimax_scores_immediate_human_win() {
    let mut bot = BotPlayer::new(4);
    let mut game = position(&[(3, PLAYER), (3, PLAYER), (3, PLAYER)]);
    assert_eq!(bot.minimax(&mut game, 1, i32::MIN, i32::MAX, false), -100);
    assert_eq!(bot.minimax(&mut game, 1, i32::MIN, i32::MAX, true), 0);
    assert_eq!(bot.minimax(&mut game, 2, i32::MIN, i32::MAX, true), 0);
}

#[test]
fn minimax_uses_the_reward() {
    let mut bot = BotPlayer { max_depth: 2, reward: 7 };
    let mut game = position(&[(0, BOT), (1, BOT), (2, BOT), (0, PLAYER), (1, PLAYER), (6, PLAYER)]);
    assert_eq!(bot.minimax(&mut game, 1, i32::MIN, i32::MAX, true), 7);
    assert_eq!(bot.minimax(&mut game, 2, i32::MIN, i32::MAX, false), 0);
    let mut threat = position(&[(3, PLAYER), (3, PLAYER), (3, PLAYER)]);
    assert_eq!(bot.minimax(&mut threat, 1, i32::MIN, i32::MAX, false), -7);
    let mut greedy = BotPlayer { max_depth: 2, reward: i32::MAX };
    assert_eq!(greedy.minimax(&mut game, 1, i32::MIN, i32::MAX, true), i32::MAX);
    assert_eq!(greedy.minimax(&mut threat, 1, i32::MIN, i32::MAX, false), -i32::MAX);
}

#[test]
fn minimax_restores_the_board() {
    let mut bot = BotPlayer::new(4);
    let mut game = both_threaten();
    let before = game.board;
    for depth in [1, 2, 3, 4] {
        for maximizing in [true, false] {
            bot.minimax(&mut game, depth, i32::MIN, i32::MAX, maximizing);
            assert_eq!(game.board, before);
            bot.minimax(&mut game, depth, -1, 1, maximizing);
            assert_eq!(game.board, before);
        }
    }
    assert_eq!(bot.max_depth, 4);
    assert_eq!(bot.reward, 100);
}

#[test]
fn minimax_full_window_equals_plain_search() {
    let mut bot = BotPlayer::new(4);
    let mut games = vec![
        ConnectFour::new(),
        both_threaten(),
        position(&[(3, PLAYER), (3, PLAYER), (3, PLAYER)]),
        position(&[(6, 1), (6, -1), (0, 1), (1, -1), (4, 1), (4, -1), (3, 1), (1, -1)]),
        position(&[(3, 1), (2, -1), (0, 1), (2, -1), (3, 1), (1, -1), (1, 1), (2, -1), (0, 1)]),
    ];
    for game in games.iter_mut() {
        for depth in 0..5 {
            for maximizing in [true, false] {
                let want = plain_search(game, depth, maximizing, 100);
                assert_eq!(bot.minimax(game, depth, i32::MIN, i32::MAX, maximizing), want);
            }
        }
    }
}

#[test]
fn minimax_narrow_window_fails_low() {
    let mut bot = BotPlayer::new(4);
    let mut game = position(&[(6, 1), (6, -1), (0, 1), (1, -1), (4, 1), (4, -1), (3, 1), (1, -1)]);
    assert_eq!(plain_search(&game, 3, false, 100), -100);
    assert_eq!(bot.minimax(&mut game, 3, i32::MIN, i32::MAX, false), -100);
    assert_eq!(bot.minimax(&mut game, 3, 0, 100, false), 0);
}

#[test]
fn minimax_narrow_window_fails_high() {
    let mut bot = BotPlayer::new(4);
    let mut game =
        position(&[(3, 1), (2, -1), (0, 1), (2, -1), (3, 1), (1, -1), (1, 1), (2, -1), (0, 1)]);
    assert_eq!(plain_search(&game, 3, true, 100), 100);
    assert_eq!(bot.minimax(&mut game, 3, i32::MIN, i32::MAX, true), 100);
    assert_eq!(bot.minimax(&mut game, 3, -100, 0, true), 0);
}

#[test]
fn minimax_window_result_brackets_the_value() {
    let mut bot = BotPlayer::new(4);
    let mut games = vec![
        both_threaten(),
        position(&[(6, 1), (6, -1), (0, 1), (1, -1), (4, 1), (4, -1), (3, 1), (1, -1)]),
        position(&[(3, 1), (2, -1), (0, 1), (2, -1), (3, 1), (1, -1), (1, 1), (2, -1), (0, 1)]),
    ];
    let windows: [(i32, i32); 7] =
        [(-1, 1), (-100, 0), (0, 100), (-50, 50), (1, 2), (-2, -1), (i32::MIN, i32::MAX)];
    for game in games.iter_mut() {
        for depth in 1..4 {
            for maximizing in [true, false] {
                let exact = plain_search(game, depth, maximizing, 100);
                for (alpha, beta) in windows {
                    let v = bot.minimax(game, depth, alpha, beta, maximizing);
                    if v <= alpha {
                        assert!(exact <= v);
                    }
                    if v >= beta {
                        assert!(exact >= v);
                    }
                    if alpha < v && v < beta {
                        assert_eq!(exact, v);
                    }
                }
            }
        }
    }
}

#[test]
fn minimax_negative_depth_searches_to_the_end() {
    let mut bot = BotPlayer::new(4);
    let mut game = late_game();
    let free = game.board.iter().flatten().filter(|&&v| v == EMPTY).count();
    assert_eq!(free, 9);
    assert_eq!(bot.minimax(&mut game, 2, i32::MIN, i32::MAX, false), 0);
    assert_eq!(bot.minimax(&mut game, 4, i32::MIN, i32::MAX, false), 0);
    assert_eq!(bot.minimax(&mut game, 42, i32::MIN, i32::MAX, false), -100);
    assert_eq!(bot.minimax(&mut game, -1, i32::MIN, i32::MAX, false), -100);
    assert_eq!(bot.minimax(&mut game, -5, i32::MIN, i32::MAX, false), -100);
    assert_eq!(bot.minimax(&mut game, i32::MIN, i32::MIN, i32::MAX, false), -100);
    assert_eq!(plain_search(&game, 42, false, 100), -100);
}

#[test]
fn best_moves_blocks_vertical_threat() {
    let mut bot = BotPlayer::new(4);
    let game = position(&[(3, PLAYER), (3, PLAYER), (3, PLAYER)]);
    assert_eq!(game.board[5][3], PLAYER);
    assert_eq!(game.board[4][3], PLAYER);
    assert_eq!(game.board[3][3], PLAYER);
    assert_eq!(bot.best_moves(&game), vec![3]);
    for seed in 0..20 {
        let mut rng = StdRng::seed_from_u64(seed);
        assert_eq!(bot.get_best_move(&game, &mut rng), Some(3));
    }
}

#[test]
fn best_moves_takes_immediate_win() {
    let mut bot = BotPlayer::new(4);
    let game = position(&[(0, BOT), (1, BOT), (2, BOT), (0, PLAYER), (1, PLAYER), (6, PLAYER)]);
    assert_eq!(bot.best_moves(&game), vec![3]);
    let mut rng = StdRng::seed_from_u64(1);
    let col = bot.get_best_move(&game, &mut rng).unwrap();
    let mut after = game.clone();
    assert!(after.drop_piece(col, BOT));
    assert!(after.check_win(BOT));
}

#[test]
fn best_moves_ranks_a_move_by_the_replies_to_it() {
    let mut bot = BotPlayer::new(4);
    let game = both_threaten();
    let mut wins_now = game.clone();
    assert!(wins_now.drop_piece(0, BOT));
    assert!(wins_now.check_win(BOT));
    assert_eq!(bot.minimax(&mut wins_now, 4, i32::MIN, i32::MAX, false), -100);
    assert_eq!(bot.best_moves(&game), vec![1]);
}

#[test]
fn best_moves_on_empty_board_all_tie() {
    let mut bot = BotPlayer::new(4);
    let game = ConnectFour::new();
    assert_eq!(bot.best_moves(&game), vec![0, 1, 2, 3, 4, 5, 6]);
}

#[test]
fn best_moves_with_depth_zero_are_the_legal_moves() {
    let mut bot = BotPlayer::new(0);
    let mut game = both_threaten();
    for _ in 0..3 {
        assert!(game.drop_piece(4, PLAYER));
        assert!(game.drop_piece(4, BOT));
    }
    assert_eq!(bot.best_moves(&game), vec![0, 1, 2, 3, 5, 6]);
}

#[test]
fn best_moves_score_the_maximum() {
    let mut bot = BotPlayer::new(3);
    let game = position(&[(3, 1), (2, -1), (0, 1), (2, -1), (3, 1), (1, -1), (1, 1), (2, -1)]);
    let mut scores: Vec<(usize, i32)> = Vec::new();
    for col in game.get_valid_moves() {
        let mut next = game.clone();
        assert!(next.drop_piece(col, BOT));
        scores.push((col, plain_search(&next, 3, false, 100)));
    }
    let top = scores.iter().map(|&(_, s)| s).max().unwrap();
    let want: Vec<usize> = scores.iter().filter(|&&(_, s)| s == top).map(|&(c, _)| c).collect();
    assert_eq!(bot.best_moves(&game), want);
}

#[test]
fn get_best_move_none_on_full_board() {
    let mut bot = BotPlayer::new(4);
    let game = full_board();
    assert!(bot.best_moves(&game).is_empty());
    let mut rng = StdRng::seed_from_u64(3);
    assert_eq!(bot.get_best_move(&game, &mut rng), None);
}

#[test]
fn get_best_move_picks_among_the_best() {
    let mut bot = BotPlayer::new(2);
    let mut game = ConnectFour::new();
    for n in 0..ROWS {
        let piece: i8 = if n % 2 == 0 { PLAYER } else { BOT };
        assert!(game.drop_piece(0, piece));
        assert!(game.drop_piece(6, -piece));
    }
    let best = bot.best_moves(&game);
    assert_eq!(best, vec![1, 2, 3, 4, 5]);
    let mut seen = [false; COLS];
    for seed in 0..64 {
        let mut rng = StdRng::seed_from_u64(seed);
        let col = bot.get_best_move(&game, &mut rng).unwrap();
        assert!(best.contains(&col));
        seen[col] = true;
    }
    assert!(seen.iter().filter(|&&hit| hit).count() >= 2);
    assert!(!seen[0]);
    assert!(!seen[6]);
}

#[test]
fn get_best_move_is_repeatable_for_a_seed() {
    let mut bot = BotPlayer::new(2);
    let game = ConnectFour::new();
    let mut first = StdRng::seed_from_u64(99);
    let mut second = StdRng::seed_from_u64(99);
    for _ in 0..10 {
        assert_eq!(bot.get_best_move(&game, &mut first), bot.get_best_move(&game, &mut second));
    }
}

#[test]
fn get_best_move_leaves_board_and_bot_unchanged() {
    let mut bot = BotPlayer::new(4);
    let game = both_threaten();
    let before = game.board;
    let mut rng = StdRng::seed_from_u64(11);
    assert_eq!(bot.get_best_move(&game, &mut rng), Some(1));
    assert_eq!(game.board, before);
    assert_eq!(bot.max_depth, 4);
    assert_eq!(bot.reward, 100);
}
