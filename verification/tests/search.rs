use glowfish::engine::best_move;
use glowfish::engine::qsearch;
use glowfish::engine::search;
use glowfish::game::ChessGame;
use glowfish::history::hist_as_slice;
use glowfish::history::hist_count;
use glowfish::history::hist_from_slice;
use glowfish::history::hist_len;
use glowfish::history::hist_new;
use glowfish::history::hist_pop;
use glowfish::history::hist_push;
use glowfish::mini::make_step;
use glowfish::position::Position;
use glowfish::mini::MiniGame;
use glowfish::piece::GameStatus;

#[test]
fn qsearch_returns_static_eval_at_the_ply_cap() {
    assert_eq!(qsearch(&MiniGame::start(), 20, -15_000, 15_000), 10);
    assert_eq!(qsearch(&MiniGame::start(), 25, -15_000, 15_000), 10);
    assert_eq!(qsearch(&MiniGame(1), 20, -15_000, 15_000), -5);
}

#[test]
fn qsearch_keeps_the_stand_pat_floor_over_a_bad_capture() {
    // The one capture from the start trades into a position worth less
    // than standing pat, so the floor wins.
    assert_eq!(qsearch(&MiniGame::start(), 1, -15_000, 15_000), 10);
}

#[test]
fn qsearch_scores_terminal_positions_as_mate_or_draw() {
    assert_eq!(qsearch(&MiniGame(3), 5, -15_000, 15_000), -10_000 + 5);
    assert_eq!(qsearch(&MiniGame(4), 5, -15_000, 15_000), 0);
}

#[test]
fn search_finds_the_mate_in_one() {
    let mut history = hist_new();
    let (mv, score) = search(&mut history, &MiniGame(1), 1, 0, -15_000, 15_000);
    assert_eq!(mv, Some(make_step(8, 9)));
    assert_eq!(score, 9_999);
}

#[test]
fn search_at_depth_two_picks_the_quiet_line() {
    let mut history = hist_new();
    let (mv, score) = search(&mut history, &MiniGame::start(), 2, 0, -15_000, 15_000);
    assert_eq!(mv, Some(make_step(0, 1)));
    assert_eq!(score, 10);
    assert!(score.abs() <= 300);
}

#[test]
fn search_is_deterministic() {
    let mut h1 = hist_new();
    let first = search(&mut h1, &MiniGame::start(), 2, 0, -15_000, 15_000);
    let mut h2 = hist_new();
    let second = search(&mut h2, &MiniGame::start(), 2, 0, -15_000, 15_000);
    assert_eq!(first, second);
}

#[test]
fn search_hands_the_history_back_unchanged() {
    let mut history = hist_new();
    hist_push(&mut history, 40).unwrap();
    hist_push(&mut history, 41).unwrap();
    let _ = search(&mut history, &MiniGame::start(), 2, 0, -15_000, 15_000);
    assert_eq!(hist_as_slice(&history), &[40, 41]);
}

#[test]
fn search_treats_a_twice_seen_position_as_a_draw() {
    let mut history = hist_new();
    hist_push(&mut history, 0).unwrap();
    hist_push(&mut history, 7).unwrap();
    hist_push(&mut history, 0).unwrap();
    let (mv, score) = search(&mut history, &MiniGame::start(), 2, 0, -15_000, 15_000);
    assert_eq!(mv, None);
    assert_eq!(score, 0);
}

#[test]
fn best_move_takes_the_book_entry_whatever_the_random_value() {
    let game = ChessGame::new(MiniGame::book_start());
    assert_eq!(best_move(&game, 0), make_step(2, 3));
    assert_eq!(best_move(&game, 12_345), make_step(2, 3));
}

#[test]
fn best_move_searches_without_a_book_entry() {
    let game = ChessGame::new(MiniGame::start());
    assert_eq!(best_move(&game, 7), make_step(0, 1));
    assert_eq!(best_move(&game, 7), best_move(&game, 99));
}

#[test]
fn game_reports_threefold_repetition_as_drawn() {
    let mut game = ChessGame::new(MiniGame::book_start());
    assert_eq!(game.status(), GameStatus::Ongoing);
    assert!(game.try_play(make_step(2, 3)));
    assert!(game.try_play(make_step(3, 2)));
    assert_eq!(game.status(), GameStatus::Ongoing);
    assert!(game.try_play(make_step(2, 3)));
    assert!(game.try_play(make_step(3, 2)));
    assert_eq!(game.history(), &[5, 6, 5, 6, 5]);
    assert_eq!(game.status(), GameStatus::Drawn);
}

#[test]
fn irreversible_move_clears_the_history() {
    let mut game = ChessGame::new(MiniGame::start());
    assert_eq!(game.history(), &[0]);
    assert!(game.try_play(make_step(0, 8)));
    assert_eq!(game.history(), &[1]);
}

#[test]
fn reversible_move_appends_to_the_history() {
    let mut game = ChessGame::new(MiniGame::start());
    assert!(game.try_play(make_step(0, 1)));
    assert_eq!(game.history(), &[0, 2]);
}

#[test]
fn illegal_move_is_refused_and_changes_nothing() {
    let mut game = ChessGame::new(MiniGame::start());
    assert!(!game.try_play(make_step(5, 5)));
    assert_eq!(*game.board(), MiniGame::start());
    assert_eq!(game.history(), &[0]);
}

#[test]
fn no_move_is_accepted_once_the_game_has_ended() {
    let mut game = ChessGame::new(MiniGame(3));
    assert_eq!(game.status(), GameStatus::Won);
    assert!(!game.try_play(make_step(8, 9)));
}

#[test]
fn bare_material_is_drawn_whatever_the_board_says() {
    let game = ChessGame::new(MiniGame::bare_start());
    assert_eq!(game.status(), GameStatus::Drawn);
}

#[test]
fn history_buffer_push_pop_and_count() {
    let mut history = hist_new();
    assert_eq!(hist_len(&history), 0);
    hist_push(&mut history, 9).unwrap();
    hist_push(&mut history, 8).unwrap();
    hist_push(&mut history, 9).unwrap();
    assert_eq!(hist_as_slice(&history), &[9, 8, 9]);
    assert_eq!(hist_count(&history, 9), 2);
    assert_eq!(hist_count(&history, 7), 0);
    assert_eq!(hist_pop(&mut history), Some(9));
    assert_eq!(hist_as_slice(&history), &[9, 8]);
}

#[test]
fn history_buffer_refuses_a_push_past_capacity() {
    let mut history = hist_new();
    for i in 0..150u64 {
        assert!(hist_push(&mut history, i).is_ok());
    }
    assert_eq!(hist_push(&mut history, 150), Err(150));
    assert_eq!(hist_len(&history), 150);
}

#[test]
fn history_buffer_from_slice_round_trips() {
    let source: Vec<u64> = vec![3, 1, 4, 1, 5];
    let history = hist_from_slice(&source).unwrap();
    assert_eq!(hist_as_slice(&history), &[3, 1, 4, 1, 5]);
    let big: Vec<u64> = vec![0; 151];
    assert!(hist_from_slice(&big).is_err());
}

#[test]
fn playing_into_the_scripted_mate_ends_the_game() {
    let mut game = ChessGame::new(MiniGame(1));
    assert!(game.try_play(make_step(8, 9)));
    assert_eq!(*game.board(), MiniGame(3));
    assert_eq!(game.status(), GameStatus::Won);
}

#[test]
fn statuses_after_each_legal_move_follow_the_script() {
    for state in 0..8u8 {
        let board = MiniGame(state);
        for mv in board.legal_moves() {
            let child = board.play(mv);
            let won = child.status() == GameStatus::Won;
            assert_eq!(won, child == MiniGame(3));
        }
    }
}
