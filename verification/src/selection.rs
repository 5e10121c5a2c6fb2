use vstd::prelude::*;

use crate::translate::{get_algebraic_notation, label_of, Square};

verus! {

/// A move handed to the external resolver: the algebraic labels of the two
/// clicked cells, source first.
pub struct MoveRequest {
    pub source: String,
    pub target: String,
}

/// The click-driven move-selection protocol: either no piece is picked up,
/// or one square is armed and awaits the second click.
#[derive(Clone, Copy, PartialEq, Eq, Structural, Debug)]
pub enum Selection {
    Idle,
    Armed(Square),
}

/// What one qualifying click does: an idle controller arms the clicked cell
/// and emits nothing; an armed controller emits the request from the armed
/// cell to the clicked cell (as the two labels) and returns to idle
/// unconditionally, even when the two cells coincide. Arming does not ask
/// whether the cell holds a piece: an empty square arms too, and the
/// resolver later rejects the vacuous move.
pub open spec fn click_spec(sel: Selection, cell: Square) -> (Selection, Option<
    (Seq<char>, Seq<char>),
>) {
    match sel {
        Selection::Idle => (Selection::Armed(cell), None),
        Selection::Armed(c) => (
            Selection::Idle,
            Some(
                (
                    label_of(c.col as int, c.row as int),
                    label_of(cell.col as int, cell.row as int),
                ),
            ),
        ),
    }
}

impl Selection {
    /// Any armed square lies on the board.
    pub open spec fn wf(self) -> bool {
        match self {
            Selection::Idle => true,
            Selection::Armed(sq) => sq.wf(),
        }
    }

    /// Consumes one primary-button click at an on-board cell. Clicks outside
    /// the playable grid never reach this function.
    pub fn click(self, cell: Square) -> (r: (Selection, Option<MoveRequest>))
        requires
            self.wf(),
            cell.wf(),
        ensures
            r.0 == click_spec(self, cell).0,
            r.0.wf(),
            match r.1 {
                Some(m) => click_spec(self, cell).1 == Some((m.source@, m.target@)),
                None => click_spec(self, cell).1 is None,
            },
    {
        match self {
            Selection::Idle => (Selection::Armed(cell), None),
            Selection::Armed(c) => {
                let source = get_algebraic_notation(c.col as i32, c.row as i32);
                let target = get_algebraic_notation(cell.col as i32, cell.row as i32);
                (Selection::Idle, Some(MoveRequest { source, target }))
            },
        }
    }
}

/// A second click on the armed cell still fires: the emitted request names
/// that cell as both source and target, and the controller returns to idle.
pub proof fn lemma_click_same_cell(c: Square)
    requires
        c.wf(),
    ensures
        click_spec(Selection::Armed(c), c).0 == Selection::Idle,
        click_spec(Selection::Armed(c), c).1 matches Some(r) && r.0 == r.1,
{
}

} // verus!
