use schack::game::{Cell, Game, Piece, Side};
use schack::gateway::{board_click, resolve};
use schack::selection::{MoveRequest, Selection};
use schack::translate::{get_algebraic_notation, Square};

const INITIAL: &str = "rnbqkbnr/pppppppp/8/8/8/8/PPPPPPPP/RNBQKBNR w KQkq - 0 1";

#[test]
fn label_corners_and_interior() {
    assert_eq!(get_algebraic_notation(0, 0), "a8");
    assert_eq!(get_algebraic_notation(7, 7), "h1");
    assert_eq!(get_algebraic_notation(4, 1), "e7");
}

#[test]
fn label_all_squares_distinct() {
    let mut seen: Vec<String> = Vec::new();
    for col in 0..8 {
        for row in 0..8 {
            let label = get_algebraic_notation(col, row);
            assert_eq!(label.len(), 2);
            let bytes = label.as_bytes();
            assert_eq!(bytes[0], b'a' + col as u8);
            assert_eq!(bytes[1], b'8' - row as u8);
            assert!(!seen.contains(&label));
            seen.push(label);
        }
    }
}

#[test]
fn first_click_arms_second_fires() {
    let (armed, none) = Selection::Idle.click(Square { col: 2, row: 3 });
    assert_eq!(armed, Selection::Armed(Square { col: 2, row: 3 }));
    assert!(none.is_none());
    let (idle, fired) = armed.click(Square { col: 2, row: 5 });
    assert_eq!(idle, Selection::Idle);
    let req = fired.unwrap();
    assert_eq!(req.source, "c5");
    assert_eq!(req.target, "c3");
}

#[test]
fn second_click_on_same_cell_still_fires() {
    let armed = Selection::Armed(Square { col: 2, row: 3 });
    let (idle, fired) = armed.click(Square { col: 2, row: 3 });
    assert_eq!(idle, Selection::Idle);
    let req = fired.unwrap();
    assert_eq!(req.source, "c5");
    assert_eq!(req.target, "c5");
    assert_eq!(req.source, req.target);
}

#[test]
fn resolver_accepts_a_legal_opening_move() {
    let req = MoveRequest {
        source: "e2".to_string(),
        target: "e4".to_string(),
    };
    let out = resolve(&INITIAL.to_string(), &req).unwrap();
    let g = Game::parse_fen(out).unwrap();
    assert_eq!(g.turn, Side::Black);
    assert_eq!(g.board[4][4], Cell::Filled(Piece::Pawn, Side::White));
    assert_eq!(g.board[6][4], Cell::Empty);
}

#[test]
fn resolver_rejects_an_illegal_move() {
    let req = MoveRequest {
        source: "e2".to_string(),
        target: "e5".to_string(),
    };
    assert!(resolve(&INITIAL.to_string(), &req).is_none());
}

#[test]
fn resolver_rejects_a_bad_label() {
    let req = MoveRequest {
        source: "z9".to_string(),
        target: "e4".to_string(),
    };
    assert!(resolve(&INITIAL.to_string(), &req).is_none());
}

#[test]
fn resolver_rejects_a_bad_position() {
    let req = MoveRequest {
        source: "e2".to_string(),
        target: "e4".to_string(),
    };
    assert!(resolve(&"not a position".to_string(), &req).is_none());
}

#[test]
fn full_pipeline_plays_a_move() {
    let mut game = Game::new();
    let (sel, first) = board_click(&mut game, Selection::Idle, Square { col: 4, row: 6 });
    assert_eq!(sel, Selection::Armed(Square { col: 4, row: 6 }));
    assert!(first.is_none());
    assert_eq!(game.fen, INITIAL);
    let (sel2, second) = board_click(&mut game, sel, Square { col: 4, row: 4 });
    assert_eq!(sel2, Selection::Idle);
    let req = second.unwrap();
    assert_eq!(req.source, "e2");
    assert_eq!(req.target, "e4");
    assert_eq!(game.turn, Side::Black);
    assert_eq!(game.board[4][4], Cell::Filled(Piece::Pawn, Side::White));
    assert_eq!(game.board[6][4], Cell::Empty);
}

#[test]
fn full_pipeline_keeps_state_on_rejected_move() {
    let mut game = Game::new();
    let before_board = game.board.clone();
    let (sel, _) = board_click(&mut game, Selection::Idle, Square { col: 0, row: 0 });
    let (sel2, second) = board_click(&mut game, sel, Square { col: 0, row: 4 });
    assert_eq!(sel2, Selection::Idle);
    let req = second.unwrap();
    assert_eq!(req.source, "a8");
    assert_eq!(req.target, "a4");
    assert_eq!(game.fen, INITIAL);
    assert_eq!(game.turn, Side::White);
    assert_eq!(game.board, before_board);
}
