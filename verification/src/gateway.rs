use vstd::prelude::*;

use crate::game::{decode_fen, Game};
use crate::selection::{click_spec, MoveRequest, Selection};
use crate::translate::Square;

verus! {

/// Whether a character names a file, a through h.
pub open spec fn is_file_char(c: char) -> bool {
    c == 'a' || c == 'b' || c == 'c' || c == 'd' || c == 'e' || c == 'f' || c == 'g' || c == 'h'
}

/// Whether a character names a rank, 1 through 8.
pub open spec fn is_rank_char(c: char) -> bool {
    c == '1' || c == '2' || c == '3' || c == '4' || c == '5' || c == '6' || c == '7' || c == '8'
}

/// The resolver's answer to a position text and the source and target
/// labels of a request: either the new position text, or nothing when it
/// rejects the position, a label, or the move. The chess crate computes
/// this from the three arguments alone.
pub uninterp spec fn resolved_of(fen: Seq<char>, source: Seq<char>, target: Seq<char>) -> Option<
    Seq<char>,
>;

/// Relies on the chess crate as the external move resolver. Square::from_str
/// accepts exactly the labels whose first character is a file letter a..h
/// and whose second is a rank digit 1..8; Game::from_str reads the position
/// string, rejecting what it finds malformed; Game::make_move plays the
/// requested move only when the resolver finds it legal, changing nothing
/// otherwise; Game::current_position with Board's Display form prints the
/// resulting position string.
/// The move is built with no promotion piece, so this composed resolver
/// rejects every promotion. Caveat on the dependency: handed a parseable
/// position that lacks a king, chess 3.2.0 reads its lookup tables out of
/// bounds before its own sanity check rejects the board; the call still
/// returns None there.
#[verifier::external_body]
fn resolve_move(fen: &String, source: &String, target: &String) -> (r: Option<String>)
    requires
        source@.len() >= 2,
        target@.len() >= 2,
    ensures
        match r {
            Some(s) => resolved_of(fen@, source@, target@) == Some(s@),
            None => resolved_of(fen@, source@, target@) is None,
        },
        !(is_file_char(source@[0]) && is_rank_char(source@[1])) ==> r is None,
        !(is_file_char(target@[0]) && is_rank_char(target@[1])) ==> r is None,
{
    let src = <chess::Square as std::str::FromStr>::from_str(source.as_str()).ok()?;
    let dst = <chess::Square as std::str::FromStr>::from_str(target.as_str()).ok()?;
    let mut g = <chess::Game as std::str::FromStr>::from_str(fen.as_str()).ok()?;
    if g.make_move(chess::ChessMove::new(src, dst, None)) {
        Some(format!("{}", g.current_position()))
    } else {
        None
    }
}

/// The gateway to the external move resolver: hands the current position
/// text and a move request to the resolver and returns exactly its answer,
/// None when it rejects the position, a label, or the move. The resolver
/// owns the failure policy, so the answer is pinned only by name: the
/// caller validates the returned text when replacing the game state.
pub fn resolve(fen: &String, request: &MoveRequest) -> (r: Option<String>)
    requires
        request.source@.len() >= 2,
        request.target@.len() >= 2,
    ensures
        match r {
            Some(s) => resolved_of(fen@, request.source@, request.target@) == Some(s@),
            None => resolved_of(fen@, request.source@, request.target@) is None,
        },
        !(is_file_char(request.source@[0]) && is_rank_char(request.source@[1])) ==> r is None,
        !(is_file_char(request.target@[0]) && is_rank_char(request.target@[1])) ==> r is None,
{
    resolve_move(fen, &request.source, &request.target)
}

/// One qualifying click at an on-board cell: arms an idle selection, or
/// fires the armed move at the clicked cell. On the firing click the
/// request goes to the resolver and, exactly when the resolver's answer
/// decodes, the game state is replaced by that decoding; otherwise it is
/// left unchanged. The selection is cleared unconditionally, before the
/// outcome of the resolution is known.
pub fn board_click(game: &mut Game, sel: Selection, cell: Square) -> (r: (
    Selection,
    Option<MoveRequest>,
))
    requires
        sel.wf(),
        cell.wf(),
    ensures
        r.0 == click_spec(sel, cell).0,
        r.0.wf(),
        match r.1 {
            Some(m) => click_spec(sel, cell).1 == Some((m.source@, m.target@)),
            None => click_spec(sel, cell).1 is None,
        },
        old(game).wf() ==> final(game).wf(),
        match click_spec(sel, cell).1 {
            None => *final(game) == *old(game),
            Some(labels) => match resolved_of(old(game).fen@, labels.0, labels.1) {
                Some(s) => match decode_fen(s) {
                    Some(p) => final(game).fen@ == s
                        && final(game).grid() == p.0
                        && final(game).turn == p.1,
                    None => final(game).fen@ == old(game).fen@
                        && final(game).turn == old(game).turn
                        && final(game).grid() == old(game).grid(),
                },
                None => final(game).fen@ == old(game).fen@
                    && final(game).turn == old(game).turn
                    && final(game).grid() == old(game).grid(),
            },
        },
{
    let (next, req) = sel.click(cell);
    match req {
        None => (next, None),
        Some(request) => {
            match resolve(&game.fen, &request) {
                Some(newfen) => {
                    match game.update_fen(newfen) {
                        Ok(_) => {},
                        Err(_) => {},
                    }
                },
                None => {},
            }
            (next, Some(request))
        },
    }
}

} // verus!
