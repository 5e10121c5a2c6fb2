use vstd::prelude::*;
use vstd::string::StringExecFns;

verus! {

/// A cell of the 8x8 playable grid. Column 0 is the leftmost file as
/// rendered, row 0 the topmost rank. Values outside [0,7] are a caller
/// error: they do not form a well-formed `Square`.
#[derive(Clone, Copy, PartialEq, Eq, Structural, Debug)]
pub struct Square {
    pub col: u8,
    pub row: u8,
}

impl Square {
    /// Both coordinates lie on the board.
    pub open spec fn wf(self) -> bool {
        self.col < 8 && self.row < 8
    }
}

/// The file letter of a board column: column 0 is the leftmost file 'a'.
pub open spec fn file_char(col: int) -> char {
    if col == 0 {
        'a'
    } else if col == 1 {
        'b'
    } else if col == 2 {
        'c'
    } else if col == 3 {
        'd'
    } else if col == 4 {
        'e'
    } else if col == 5 {
        'f'
    } else if col == 6 {
        'g'
    } else {
        'h'
    }
}

/// The rank digit of a board row: row 0 is the top rank '8'.
pub open spec fn rank_char(row: int) -> char {
    if row == 0 {
        '8'
    } else if row == 1 {
        '7'
    } else if row == 2 {
        '6'
    } else if row == 3 {
        '5'
    } else if row == 4 {
        '4'
    } else if row == 5 {
        '3'
    } else if row == 6 {
        '2'
    } else {
        '1'
    }
}

/// The two-character algebraic label of the cell at a column and row.
pub open spec fn label_of(col: int, row: int) -> Seq<char> {
    seq![file_char(col), rank_char(row)]
}

/// The algebraic label of a grid cell: file 'a' + column, rank 8 - row.
pub fn get_algebraic_notation(x_pos: i32, y_pos: i32) -> (r: String)
    requires
        0 <= x_pos < 8,
        0 <= y_pos < 8,
    ensures
        r@ == label_of(x_pos as int, y_pos as int),
{
    let file: &str = if x_pos == 0 {
        "a"
    } else if x_pos == 1 {
        "b"
    } else if x_pos == 2 {
        "c"
    } else if x_pos == 3 {
        "d"
    } else if x_pos == 4 {
        "e"
    } else if x_pos == 5 {
        "f"
    } else if x_pos == 6 {
        "g"
    } else {
        "h"
    };
    let rank: &str = if y_pos == 0 {
        "8"
    } else if y_pos == 1 {
        "7"
    } else if y_pos == 2 {
        "6"
    } else if y_pos == 3 {
        "5"
    } else if y_pos == 4 {
        "4"
    } else if y_pos == 5 {
        "3"
    } else if y_pos == 6 {
        "2"
    } else {
        "1"
    };
    proof {
        reveal_strlit("a");
        reveal_strlit("b");
        reveal_strlit("c");
        reveal_strlit("d");
        reveal_strlit("e");
        reveal_strlit("f");
        reveal_strlit("g");
        reveal_strlit("h");
        reveal_strlit("1");
        reveal_strlit("2");
        reveal_strlit("3");
        reveal_strlit("4");
        reveal_strlit("5");
        reveal_strlit("6");
        reveal_strlit("7");
        reveal_strlit("8");
    }
    let mut s = file.to_owned();
    s.append(rank);
    proof {
        assert(s@ =~= label_of(x_pos as int, y_pos as int));
    }
    s
}

/// Labels are in bijection with on-board squares: the file letter advances
/// from 'a' with the column, the rank digit descends from '8' with the row,
/// and distinct squares receive distinct labels.
pub proof fn lemma_label_bijective()
    ensures
        forall|col: int, row: int|
            0 <= col < 8 && 0 <= row < 8 ==> (#[trigger] label_of(col, row)).len() == 2
                && label_of(col, row)[0] as int == 'a' as int + col && label_of(col, row)[1] as int
                == '8' as int - row,
        forall|c1: int, r1: int, c2: int, r2: int|
            0 <= c1 < 8 && 0 <= r1 < 8 && 0 <= c2 < 8 && 0 <= r2 < 8 && #[trigger] label_of(c1, r1)
                =~= #[trigger] label_of(c2, r2) ==> c1 == c2 && r1 == r2,
{
    assert forall|col: int, row: int| 0 <= col < 8 && 0 <= row < 8 implies (#[trigger] label_of(
        col,
        row,
    )).len() == 2 && label_of(col, row)[0] as int == 'a' as int + col && label_of(col, row)[1]
        as int == '8' as int - row by {
        assert(label_of(col, row)[0] == file_char(col));
        assert(label_of(col, row)[1] == rank_char(row));
    }
}

} // verus!
