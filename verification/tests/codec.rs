use schack::game::{Cell, FenError, Game, Piece, Side};

const INITIAL: &str = "rnbqkbnr/pppppppp/8/8/8/8/PPPPPPPP/RNBQKBNR w KQkq - 0 1";

fn back_rank(side: Side) -> Vec<Cell> {
    vec![
        Cell::Filled(Piece::Rook, side),
        Cell::Filled(Piece::Knight, side),
        Cell::Filled(Piece::Bishop, side),
        Cell::Filled(Piece::Queen, side),
        Cell::Filled(Piece::King, side),
        Cell::Filled(Piece::Bishop, side),
        Cell::Filled(Piece::Knight, side),
        Cell::Filled(Piece::Rook, side),
    ]
}

#[test]
fn initial_position_layout() {
    let g = Game::new();
    assert_eq!(g.fen, INITIAL);
    assert_eq!(g.turn, Side::White);
    assert_eq!(g.board.len(), 8);
    assert_eq!(g.board[0], back_rank(Side::Black));
    assert_eq!(g.board[7], back_rank(Side::White));
    for col in 0..8 {
        assert_eq!(g.board[1][col], Cell::Filled(Piece::Pawn, Side::Black));
        assert_eq!(g.board[6][col], Cell::Filled(Piece::Pawn, Side::White));
        for row in 2..6 {
            assert_eq!(g.board[row][col], Cell::Empty);
        }
    }
}

#[test]
fn parse_fen_matches_new() {
    let g = Game::parse_fen(INITIAL.to_string()).unwrap();
    let fresh = Game::new();
    assert_eq!(g.fen, fresh.fen);
    assert_eq!(g.turn, fresh.turn);
    assert_eq!(g.board, fresh.board);
}

#[test]
fn parse_fen_black_to_move() {
    let g = Game::parse_fen("8/8/8/8/8/8/8/8 b".to_string()).unwrap();
    assert_eq!(g.turn, Side::Black);
    for row in 0..8 {
        for col in 0..8 {
            assert_eq!(g.board[row][col], Cell::Empty);
        }
    }
}

#[test]
fn parse_fen_digit_runs_sum_to_eight() {
    let g = Game::parse_fen("44/8/8/8/8/8/8/8 w".to_string()).unwrap();
    assert_eq!(g.board[0], vec![Cell::Empty; 8]);
}

#[test]
fn parse_fen_mixed_row() {
    let g = Game::parse_fen("8/8/8/4P3/8/8/8/8 w".to_string()).unwrap();
    assert_eq!(g.board[3][4], Cell::Filled(Piece::Pawn, Side::White));
    assert_eq!(g.board[3][3], Cell::Empty);
    assert_eq!(g.board[3][5], Cell::Empty);
}

#[test]
fn parse_fen_rejects_single_field() {
    let r = Game::parse_fen("rnbqkbnr/pppppppp/8/8/8/8/PPPPPPPP/RNBQKBNR".to_string());
    assert_eq!(r.err(), Some(FenError::MalformedPosition));
}

#[test]
fn parse_fen_rejects_empty_string() {
    let r = Game::parse_fen(String::new());
    assert_eq!(r.err(), Some(FenError::MalformedPosition));
}

#[test]
fn parse_fen_rejects_wide_row() {
    let r = Game::parse_fen("9/8/8/8/8/8/8/8 w".to_string());
    assert_eq!(r.err(), Some(FenError::MalformedPosition));
}

#[test]
fn parse_fen_rejects_short_row() {
    let r = Game::parse_fen("7/8/8/8/8/8/8/8 w".to_string());
    assert_eq!(r.err(), Some(FenError::MalformedPosition));
}

#[test]
fn parse_fen_rejects_seven_rows() {
    let r = Game::parse_fen("8/8/8/8/8/8/8 w".to_string());
    assert_eq!(r.err(), Some(FenError::MalformedPosition));
}

#[test]
fn parse_fen_rejects_unknown_piece() {
    let r = Game::parse_fen("rnbqkbnx/pppppppp/8/8/8/8/PPPPPPPP/RNBQKBNR w".to_string());
    assert_eq!(r.err(), Some(FenError::MalformedPosition));
}

#[test]
fn parse_fen_rejects_bad_side_indicator() {
    let r = Game::parse_fen("8/8/8/8/8/8/8/8 x".to_string());
    assert_eq!(r.err(), Some(FenError::MalformedPosition));
}

#[test]
fn update_fen_commits_on_success() {
    let mut g = Game::new();
    let r = g.update_fen("rnbqkbnr/pppppppp/8/8/4P3/8/PPPP1PPP/RNBQKBNR b KQkq e3 0 1".to_string());
    assert_eq!(r, Ok(()));
    assert_eq!(g.turn, Side::Black);
    assert_eq!(g.board[4][4], Cell::Filled(Piece::Pawn, Side::White));
    assert_eq!(g.board[6][4], Cell::Empty);
    assert_eq!(
        g.fen,
        "rnbqkbnr/pppppppp/8/8/4P3/8/PPPP1PPP/RNBQKBNR b KQkq e3 0 1"
    );
}

#[test]
fn update_fen_keeps_state_on_overlong_row() {
    let mut g = Game::new();
    let before_fen = g.fen.clone();
    let before_turn = g.turn;
    let before_board = g.board.clone();
    let r = g.update_fen("rnbqkbnr/ppppppppp/8/8/8/8/PPPPPPPP/RNBQKBNR b KQkq - 0 1".to_string());
    assert_eq!(r, Err(FenError::MalformedPosition));
    assert_eq!(g.fen, before_fen);
    assert_eq!(g.turn, before_turn);
    assert_eq!(g.board, before_board);
}

#[test]
fn update_fen_keeps_state_on_garbage() {
    let mut g = Game::new();
    let before_fen = g.fen.clone();
    let r = g.update_fen("not a position".to_string());
    assert_eq!(r, Err(FenError::MalformedPosition));
    assert_eq!(g.fen, before_fen);
    assert_eq!(g.turn, Side::White);
}
