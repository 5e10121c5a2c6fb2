use vstd::prelude::*;

verus! {

/// The side that a piece belongs to, and whose turn it is to move.
#[derive(Clone, Copy, PartialEq, Eq, Structural, Debug)]
pub enum Side {
    White,
    Black,
}

/// The kind of a chess piece.
#[derive(Clone, Copy, PartialEq, Eq, Structural, Debug)]
pub enum Piece {
    Pawn,
    Knight,
    Bishop,
    Rook,
    Queen,
    King,
}

/// One cell of the 8x8 grid: empty, or holding a piece of one side.
#[derive(Clone, Copy, PartialEq, Eq, Structural, Debug)]
pub enum Cell {
    Empty,
    Filled(Piece, Side),
}

/// The piece denoted by one character of the board field: lowercase for
/// black, uppercase for white. Digits are handled separately; any other
/// character denotes no piece at all.
pub open spec fn cell_of_char(c: char) -> Option<Cell> {
    if c == 'p' {
        Some(Cell::Filled(Piece::Pawn, Side::Black))
    } else if c == 'n' {
        Some(Cell::Filled(Piece::Knight, Side::Black))
    } else if c == 'b' {
        Some(Cell::Filled(Piece::Bishop, Side::Black))
    } else if c == 'r' {
        Some(Cell::Filled(Piece::Rook, Side::Black))
    } else if c == 'q' {
        Some(Cell::Filled(Piece::Queen, Side::Black))
    } else if c == 'k' {
        Some(Cell::Filled(Piece::King, Side::Black))
    } else if c == 'P' {
        Some(Cell::Filled(Piece::Pawn, Side::White))
    } else if c == 'N' {
        Some(Cell::Filled(Piece::Knight, Side::White))
    } else if c == 'B' {
        Some(Cell::Filled(Piece::Bishop, Side::White))
    } else if c == 'R' {
        Some(Cell::Filled(Piece::Rook, Side::White))
    } else if c == 'Q' {
        Some(Cell::Filled(Piece::Queen, Side::White))
    } else if c == 'K' {
        Some(Cell::Filled(Piece::King, Side::White))
    } else {
        None
    }
}

/// Whether a character is a decimal digit, which the board field reads as a
/// run of empty cells.
pub open spec fn is_fen_digit(c: char) -> bool {
    48 <= c as u32 <= 57
}

/// The numeric value of a digit character.
pub open spec fn digit_val(c: char) -> int {
    c as u32 - 48
}

/// Splitting a character sequence on a separator, keeping empty parts; the
/// result always has at least one part.
pub open spec fn split_on(s: Seq<char>, sep: char) -> Seq<Seq<char>>
    decreases s.len(),
{
    if s.len() == 0 {
        seq![Seq::<char>::empty()]
    } else {
        let init = split_on(s.drop_last(), sep);
        if s.last() == sep {
            init.push(Seq::<char>::empty())
        } else {
            init.update(init.len() - 1, init.last().push(s.last()))
        }
    }
}

/// A split always yields at least one part.
proof fn lemma_split_on_len(s: Seq<char>, sep: char)
    ensures
        split_on(s, sep).len() >= 1,
    decreases s.len(),
{
    if s.len() > 0 {
        lemma_split_on_len(s.drop_last(), sep);
    }
}

/// A sequence without the separator splits into itself alone.
proof fn lemma_split_no_sep(s: Seq<char>, sep: char)
    requires
        forall|i: int| 0 <= i < s.len() ==> s[i] != sep,
    ensures
        split_on(s, sep) == seq![s],
    decreases s.len(),
{
    if s.len() == 0 {
        assert(s =~= Seq::<char>::empty());
        assert(seq![Seq::<char>::empty()] =~~= seq![s]);
    } else {
        lemma_split_no_sep(s.drop_last(), sep);
        assert(s.last() != sep);
        assert(s.drop_last().push(s.last()) =~= s);
        assert(seq![s.drop_last()].update(0, s) =~~= seq![s]);
    }
}

/// Splitting around an explicit separator splits each side on its own.
proof fn lemma_split_concat(a: Seq<char>, b: Seq<char>, sep: char)
    ensures
        split_on(a + seq![sep] + b, sep) == split_on(a, sep) + split_on(b, sep),
    decreases b.len(),
{
    if b.len() == 0 {
        assert(a + seq![sep] + b =~= a + seq![sep]);
        assert((a + seq![sep]).drop_last() =~= a);
        assert((a + seq![sep]).last() == sep);
        assert(split_on(a, sep).push(Seq::<char>::empty()) =~~= split_on(a, sep) + seq![
            Seq::<char>::empty(),
        ]);
    } else {
        lemma_split_concat(a, b.drop_last(), sep);
        lemma_split_on_len(b.drop_last(), sep);
        lemma_split_on_len(a, sep);
        let s = a + seq![sep] + b;
        assert(s.drop_last() =~= a + seq![sep] + b.drop_last());
        assert(s.last() == b.last());
        let sp = split_on(a, sep);
        let bp = split_on(b.drop_last(), sep);
        assert(b.drop_last().push(b.last()) =~= b);
        if b.last() == sep {
            assert((sp + bp).push(Seq::<char>::empty()) =~~= sp + bp.push(Seq::<char>::empty()));
        } else {
            assert((sp + bp).last() == bp.last());
            assert((sp + bp).update((sp + bp).len() - 1, (sp + bp).last().push(b.last())) =~~= sp
                + bp.update(bp.len() - 1, bp.last().push(b.last())));
        }
    }
}

/// The views of a sequence of character vectors.
spec fn views_of(parts: Seq<Vec<char>>) -> Seq<Seq<char>> {
    parts.map_values(|p: Vec<char>| p@)
}

/// The characters of a string, as a vector.
fn chars_of(s: &str) -> (v: Vec<char>)
    ensures
        v@ == s@,
{
    let n = s.unicode_len();
    let mut v: Vec<char> = Vec::new();
    let mut i: usize = 0;
    while i < n
        invariant
            n == s@.len(),
            i <= n,
            v@ == s@.take(i as int),
        decreases n - i,
    {
        v.push(s.get_char(i));
        i += 1;
        proof {
            assert(v@ =~= s@.take(i as int));
        }
    }
    proof {
        assert(s@.take(n as int) =~= s@);
    }
    v
}

/// Splits a character vector on a separator, keeping empty parts.
fn split_char(s: &Vec<char>, sep: char) -> (parts: Vec<Vec<char>>)
    ensures
        views_of(parts@) == split_on(s@, sep),
{
    let mut parts: Vec<Vec<char>> = Vec::new();
    let mut cur: Vec<char> = Vec::new();
    let mut i: usize = 0;
    while i < s.len()
        invariant
            i <= s@.len(),
            views_of(parts@).push(cur@) == split_on(s@.take(i as int), sep),
        decreases s@.len() - i,
    {
        let c = s[i];
        proof {
            assert(s@.take(i as int + 1).drop_last() =~= s@.take(i as int));
            assert(s@.take(i as int + 1).last() == s@[i as int]);
        }
        let ghost prev = split_on(s@.take(i as int), sep);
        if c == sep {
            parts.push(cur);
            cur = Vec::new();
            proof {
                assert(views_of(parts@).push(cur@) =~~= prev.push(Seq::<char>::empty()));
            }
        } else {
            proof {
                lemma_split_on_len(s@.take(i as int), sep);
                assert(prev.last() == cur@);
            }
            cur.push(c);
            proof {
                assert(views_of(parts@).push(cur@) =~~= prev.update(
                    prev.len() - 1,
                    prev.last().push(c),
                ));
            }
        }
        i += 1;
    }
    proof {
        assert(s@.take(s@.len() as int) =~= s@);
    }
    parts.push(cur);
    proof {
        assert(views_of(parts@) =~~= split_on(s@, sep));
    }
    parts
}

/// A run of empty cells.
pub open spec fn empty_cells(n: int) -> Seq<Cell> {
    Seq::new(n as nat, |i: int| Cell::Empty)
}

/// The cells denoted by one row of the board field: a digit expands into
/// that many empty cells, a piece character into its piece; any other
/// character makes the row undecodable. Width is not checked here.
pub open spec fn row_cells(s: Seq<char>) -> Option<Seq<Cell>>
    decreases s.len(),
{
    if s.len() == 0 {
        Some(Seq::<Cell>::empty())
    } else {
        match row_cells(s.drop_last()) {
            None => None,
            Some(cells) => {
                if is_fen_digit(s.last()) {
                    Some(cells + empty_cells(digit_val(s.last())))
                } else {
                    match cell_of_char(s.last()) {
                        Some(p) => Some(cells.push(p)),
                        None => None,
                    }
                }
            },
        }
    }
}

/// Once a prefix of a row fails to decode, the whole row fails.
proof fn lemma_row_cells_none(s: Seq<char>, i: int)
    requires
        0 <= i <= s.len(),
        row_cells(s.take(i)) is None,
    ensures
        row_cells(s) is None,
    decreases s.len() - i,
{
    if i < s.len() {
        assert(s.take(i + 1).drop_last() =~= s.take(i));
        lemma_row_cells_none(s, i + 1);
    } else {
        assert(s.take(i) =~= s);
    }
}

/// The grid denoted by the board rows: every row must decode to exactly 8
/// cells.
pub open spec fn rows_cells(rows: Seq<Seq<char>>) -> Option<Seq<Seq<Cell>>>
    decreases rows.len(),
{
    if rows.len() == 0 {
        Some(Seq::<Seq<Cell>>::empty())
    } else {
        match rows_cells(rows.drop_last()) {
            None => None,
            Some(grid) => match row_cells(rows.last()) {
                Some(r) => if r.len() == 8 {
                    Some(grid.push(r))
                } else {
                    None
                },
                None => None,
            },
        }
    }
}

/// Once a prefix of the rows fails to decode, the whole board fails.
proof fn lemma_rows_cells_none(rows: Seq<Seq<char>>, i: int)
    requires
        0 <= i <= rows.len(),
        rows_cells(rows.take(i)) is None,
    ensures
        rows_cells(rows) is None,
    decreases rows.len() - i,
{
    if i < rows.len() {
        assert(rows.take(i + 1).drop_last() =~= rows.take(i));
        lemma_rows_cells_none(rows, i + 1);
    } else {
        assert(rows.take(i) =~= rows);
    }
}

/// A decoded board always has one row per row of the board field.
proof fn lemma_rows_cells_len(rows: Seq<Seq<char>>)
    ensures
        rows_cells(rows) matches Some(grid) ==> grid.len() == rows.len(),
    decreases rows.len(),
{
    if rows.len() > 0 {
        lemma_rows_cells_len(rows.drop_last());
    }
}

/// The side to move denoted by the second field: its first character must
/// be 'w' or 'b'.
pub open spec fn side_of(field: Seq<char>) -> Option<Side> {
    if field.len() >= 1 && field[0] == 'w' {
        Some(Side::White)
    } else if field.len() >= 1 && field[0] == 'b' {
        Some(Side::Black)
    } else {
        None
    }
}

/// The grid and side to move denoted by a position string: the first
/// space-delimited field holds eight '/'-separated rows of eight cells each,
/// the second names the side to move; later fields are carried verbatim and
/// not interpreted. Any shortfall makes the whole string undecodable.
pub open spec fn decode_fen(s: Seq<char>) -> Option<(Seq<Seq<Cell>>, Side)> {
    let fields = split_on(s, ' ');
    if fields.len() < 2 {
        None
    } else {
        match (rows_cells(split_on(fields[0], '/')), side_of(fields[1])) {
            (Some(grid), Some(turn)) => if grid.len() == 8 {
                Some((grid, turn))
            } else {
                None
            },
            _ => None,
        }
    }
}

/// The piece denoted by one board-field character, if any.
fn cell_from_char(c: char) -> (r: Option<Cell>)
    ensures
        r == cell_of_char(c),
{
    match c {
        'p' => Some(Cell::Filled(Piece::Pawn, Side::Black)),
        'n' => Some(Cell::Filled(Piece::Knight, Side::Black)),
        'b' => Some(Cell::Filled(Piece::Bishop, Side::Black)),
        'r' => Some(Cell::Filled(Piece::Rook, Side::Black)),
        'q' => Some(Cell::Filled(Piece::Queen, Side::Black)),
        'k' => Some(Cell::Filled(Piece::King, Side::Black)),
        'P' => Some(Cell::Filled(Piece::Pawn, Side::White)),
        'N' => Some(Cell::Filled(Piece::Knight, Side::White)),
        'B' => Some(Cell::Filled(Piece::Bishop, Side::White)),
        'R' => Some(Cell::Filled(Piece::Rook, Side::White)),
        'Q' => Some(Cell::Filled(Piece::Queen, Side::White)),
        'K' => Some(Cell::Filled(Piece::King, Side::White)),
        _ => None,
    }
}

/// Decodes one row of the board field, expanding digits into empty cells.
fn parse_row(row: &Vec<char>) -> (r: Option<Vec<Cell>>)
    ensures
        match r {
            Some(cells) => row_cells(row@) == Some(cells@),
            None => row_cells(row@) is None,
        },
{
    let mut cells: Vec<Cell> = Vec::new();
    let mut i: usize = 0;
    while i < row.len()
        invariant
            i <= row@.len(),
            row_cells(row@.take(i as int)) == Some(cells@),
        decreases row@.len() - i,
    {
        let c = row[i];
        proof {
            assert(row@.take(i as int + 1).drop_last() =~= row@.take(i as int));
            assert(row@.take(i as int + 1).last() == row@[i as int]);
        }
        let code = c as u32;
        if 48 <= code && code <= 57 {
            let d = code - 48;
            let ghost before = cells@;
            let mut j: u32 = 0;
            while j < d
                invariant
                    j <= d,
                    cells@ == before + empty_cells(j as int),
                decreases d - j,
            {
                cells.push(Cell::Empty);
                j += 1;
                proof {
                    assert(cells@ =~= before + empty_cells(j as int));
                }
            }
            proof {
                assert(d as int == digit_val(c));
                assert(row_cells(row@.take(i as int + 1)) == Some(cells@));
            }
        } else {
            match cell_from_char(c) {
                Some(p) => {
                    cells.push(p);
                },
                None => {
                    proof {
                        assert(row_cells(row@.take(i as int + 1)) is None);
                        lemma_row_cells_none(row@, i as int + 1);
                    }
                    return None;
                },
            }
        }
        i += 1;
    }
    proof {
        assert(row@.take(row@.len() as int) =~= row@);
    }
    Some(cells)
}

/// One side's back rank: rook, knight, bishop, queen, king, bishop,
/// knight, rook.
pub open spec fn back_rank_cells(side: Side) -> Seq<Cell> {
    seq![
        Cell::Filled(Piece::Rook, side),
        Cell::Filled(Piece::Knight, side),
        Cell::Filled(Piece::Bishop, side),
        Cell::Filled(Piece::Queen, side),
        Cell::Filled(Piece::King, side),
        Cell::Filled(Piece::Bishop, side),
        Cell::Filled(Piece::Knight, side),
        Cell::Filled(Piece::Rook, side),
    ]
}

/// One side's pawn rank: eight pawns.
pub open spec fn pawn_rank_cells(side: Side) -> Seq<Cell> {
    Seq::new(8, |i: int| Cell::Filled(Piece::Pawn, side))
}

/// The well-known starting layout: black's back rank on top, then black's
/// pawns, four empty ranks, white's pawns, and white's back rank.
pub open spec fn initial_grid() -> Seq<Seq<Cell>> {
    seq![
        back_rank_cells(Side::Black),
        pawn_rank_cells(Side::Black),
        empty_cells(8),
        empty_cells(8),
        empty_cells(8),
        empty_cells(8),
        pawn_rank_cells(Side::White),
        back_rank_cells(Side::White),
    ]
}

/// The standard initial position string decodes to the starting layout,
/// with White to move.
pub proof fn lemma_initial_decodes()
    ensures
        decode_fen("rnbqkbnr/pppppppp/8/8/8/8/PPPPPPPP/RNBQKBNR w KQkq - 0 1"@) == Some(
            (initial_grid(), Side::White),
        ),
{
    reveal_strlit("rnbqkbnr/pppppppp/8/8/8/8/PPPPPPPP/RNBQKBNR w KQkq - 0 1");
    reveal_strlit("rnbqkbnr/pppppppp/8/8/8/8/PPPPPPPP/RNBQKBNR");
    reveal_strlit("rnbqkbnr");
    reveal_strlit("pppppppp");
    reveal_strlit("8");
    reveal_strlit("PPPPPPPP");
    reveal_strlit("RNBQKBNR");
    reveal_strlit("w");
    reveal_strlit("KQkq - 0 1");
    let f = "rnbqkbnr/pppppppp/8/8/8/8/PPPPPPPP/RNBQKBNR w KQkq - 0 1"@;
    let board = "rnbqkbnr/pppppppp/8/8/8/8/PPPPPPPP/RNBQKBNR"@;
    let tail = "w"@ + seq![' '] + "KQkq - 0 1"@;
    assert(f =~= board + seq![' '] + tail);
    lemma_split_concat(board, tail, ' ');
    lemma_split_concat("w"@, "KQkq - 0 1"@, ' ');
    assert(forall|i: int| 0 <= i < board.len() ==> board[i] != ' ');
    lemma_split_no_sep(board, ' ');
    assert(forall|i: int| 0 <= i < "w"@.len() ==> "w"@[i] != ' ');
    lemma_split_no_sep("w"@, ' ');
    lemma_split_on_len("KQkq - 0 1"@, ' ');
    let fields = split_on(f, ' ');
    assert(fields.len() >= 2);
    assert(fields[0] == board);
    assert(fields[1] == "w"@);
    assert(side_of(fields[1]) == Some(Side::White));
    let r1 = "rnbqkbnr"@;
    let rp = "pppppppp"@;
    let r8 = "8"@;
    let rpw = "PPPPPPPP"@;
    let rw = "RNBQKBNR"@;
    let t1 = board.subrange(9, 43);
    let t2 = board.subrange(18, 43);
    let t3 = board.subrange(20, 43);
    let t4 = board.subrange(22, 43);
    let t5 = board.subrange(24, 43);
    let t6 = board.subrange(26, 43);
    let t7 = board.subrange(35, 43);
    assert(board =~= r1 + seq!['/'] + t1);
    assert(t1 =~= rp + seq!['/'] + t2);
    assert(t2 =~= r8 + seq!['/'] + t3);
    assert(t3 =~= r8 + seq!['/'] + t4);
    assert(t4 =~= r8 + seq!['/'] + t5);
    assert(t5 =~= r8 + seq!['/'] + t6);
    assert(t6 =~= rpw + seq!['/'] + t7);
    assert(t7 =~= rw);
    lemma_split_concat(r1, t1, '/');
    lemma_split_concat(rp, t2, '/');
    lemma_split_concat(r8, t3, '/');
    lemma_split_concat(r8, t4, '/');
    lemma_split_concat(r8, t5, '/');
    lemma_split_concat(r8, t6, '/');
    lemma_split_concat(rpw, t7, '/');
    assert(forall|i: int| 0 <= i < r1.len() ==> r1[i] != '/');
    lemma_split_no_sep(r1, '/');
    assert(forall|i: int| 0 <= i < rp.len() ==> rp[i] != '/');
    lemma_split_no_sep(rp, '/');
    assert(forall|i: int| 0 <= i < r8.len() ==> r8[i] != '/');
    lemma_split_no_sep(r8, '/');
    assert(forall|i: int| 0 <= i < rpw.len() ==> rpw[i] != '/');
    lemma_split_no_sep(rpw, '/');
    assert(forall|i: int| 0 <= i < rw.len() ==> rw[i] != '/');
    lemma_split_no_sep(rw, '/');
    let srows = seq![r1, rp, r8, r8, r8, r8, rpw, rw];
    assert(split_on(board, '/') =~~= srows);
    assert(row_cells(r1) matches Some(c) && c =~= back_rank_cells(Side::Black)) by {
        reveal_with_fuel(row_cells, 10);
    }
    assert(row_cells(rp) matches Some(c) && c =~= pawn_rank_cells(Side::Black)) by {
        reveal_with_fuel(row_cells, 10);
    }
    assert(row_cells(r8) matches Some(c) && c =~= empty_cells(8)) by {
        reveal_with_fuel(row_cells, 10);
    }
    assert(row_cells(rpw) matches Some(c) && c =~= pawn_rank_cells(Side::White)) by {
        reveal_with_fuel(row_cells, 10);
    }
    assert(row_cells(rw) matches Some(c) && c =~= back_rank_cells(Side::White)) by {
        reveal_with_fuel(row_cells, 10);
    }
    let grid = initial_grid();
    assert(srows.take(0) =~= Seq::<Seq<char>>::empty());
    assert(grid.take(0) =~~= Seq::<Seq<Cell>>::empty());
    assert(rows_cells(srows.take(0)) == Some(grid.take(0)));
    assert(forall|k: int|
        0 <= k < 8 ==> (#[trigger] srows.take(k + 1)).drop_last() =~= srows.take(k)
            && srows.take(k + 1).last() == srows[k]);
    assert(forall|k: int|
        0 <= k < 8 ==> (#[trigger] grid.take(k + 1)) =~~= grid.take(k).push(grid[k]));
    assert(rows_cells(srows.take(1)) == Some(grid.take(1)));
    assert(rows_cells(srows.take(2)) == Some(grid.take(2)));
    assert(rows_cells(srows.take(3)) == Some(grid.take(3)));
    assert(rows_cells(srows.take(4)) == Some(grid.take(4)));
    assert(rows_cells(srows.take(5)) == Some(grid.take(5)));
    assert(rows_cells(srows.take(6)) == Some(grid.take(6)));
    assert(rows_cells(srows.take(7)) == Some(grid.take(7)));
    assert(rows_cells(srows.take(8)) == Some(grid.take(8)));
    assert(srows.take(8) =~= srows);
    assert(grid.take(8) =~~= grid);
    assert(decode_fen(f) == Some((grid, Side::White)));
}

/// An input that does not decode into a full 8x8 grid with a side to move:
/// too few fields, a wrong row count or width, an unknown piece character,
/// or a bad side indicator.
#[derive(Clone, Copy, PartialEq, Eq, Structural, Debug)]
pub enum FenError {
    MalformedPosition,
}

/// The views of the rows of a grid.
pub open spec fn grid_of(board: Seq<Vec<Cell>>) -> Seq<Seq<Cell>> {
    board.map_values(|r: Vec<Cell>| r@)
}

/// The game state: the authoritative position text, the side to move, and
/// the decoded grid, indexed board[row][column] with row 0 the top rank.
/// The three are only ever replaced together.
pub struct Game {
    pub fen: String,
    pub turn: Side,
    pub board: Vec<Vec<Cell>>,
}

impl Game {
    /// The stored grid, row by row.
    pub open spec fn grid(&self) -> Seq<Seq<Cell>> {
        grid_of(self.board@)
    }

    /// The stored grid and side to move are exactly the decoding of the
    /// stored position text.
    pub open spec fn wf(&self) -> bool {
        decode_fen(self.fen@) == Some((self.grid(), self.turn))
    }

    /// Decodes a position string into a game state, keeping the string
    /// verbatim. Fails exactly on the strings that do not decode.
    pub fn parse_fen(fen: String) -> (r: Result<Game, FenError>)
        ensures
            match r {
                Ok(g) => g.fen@ == fen@ && decode_fen(fen@) == Some((g.grid(), g.turn)),
                Err(e) => decode_fen(fen@) is None && e == FenError::MalformedPosition,
            },
    {
        let chars = chars_of(fen.as_str());
        let fields = split_char(&chars, ' ');
        let ghost sfields = split_on(fen@, ' ');
        if fields.len() < 2 {
            return Err(FenError::MalformedPosition);
        }
        let rows = split_char(&fields[0], '/');
        let ghost srows = split_on(sfields[0], '/');
        proof {
            assert(views_of(fields@)[0] == fields@[0]@);
            assert(views_of(rows@) == srows);
        }
        if rows.len() != 8 {
            proof {
                lemma_rows_cells_len(srows);
            }
            return Err(FenError::MalformedPosition);
        }
        let mut board: Vec<Vec<Cell>> = Vec::new();
        let mut i: usize = 0;
        while i < 8
            invariant
                i <= 8,
                rows@.len() == 8,
                views_of(rows@) == srows,
                srows == split_on(sfields[0], '/'),
                sfields == split_on(fen@, ' '),
                sfields.len() >= 2,
                board@.len() == i,
                rows_cells(srows.take(i as int)) == Some(grid_of(board@)),
            decreases 8 - i,
        {
            let cells_opt = parse_row(&rows[i]);
            proof {
                assert(srows.take(i as int + 1).drop_last() =~= srows.take(i as int));
                assert(srows.take(i as int + 1).last() == rows@[i as int]@);
            }
            match cells_opt {
                None => {
                    proof {
                        assert(rows_cells(srows.take(i as int + 1)) is None);
                        lemma_rows_cells_none(srows, i as int + 1);
                    }
                    return Err(FenError::MalformedPosition);
                },
                Some(cells) => {
                    if cells.len() != 8 {
                        proof {
                            assert(rows_cells(srows.take(i as int + 1)) is None);
                            lemma_rows_cells_none(srows, i as int + 1);
                        }
                        return Err(FenError::MalformedPosition);
                    }
                    let ghost prev_board = board@;
                    board.push(cells);
                    proof {
                        assert(grid_of(board@) =~~= grid_of(prev_board).push(cells@));
                    }
                },
            }
            i += 1;
        }
        proof {
            assert(srows.take(8) =~= srows);
        }
        let f1 = &fields[1];
        proof {
            assert(views_of(fields@)[1] == fields@[1]@);
        }
        if f1.len() == 0 {
            return Err(FenError::MalformedPosition);
        }
        let c0 = f1[0];
        let turn = if c0 == 'w' {
            Side::White
        } else if c0 == 'b' {
            Side::Black
        } else {
            return Err(FenError::MalformedPosition);
        };
        let g = Game { fen, turn, board };
        proof {
            assert(decode_fen(g.fen@) == Some((g.grid(), g.turn)));
        }
        Ok(g)
    }

    /// A fresh game from the standard initial position: the starting
    /// layout, with White to move.
    pub fn new() -> (r: Game)
        ensures
            r.wf(),
            r.fen@ == "rnbqkbnr/pppppppp/8/8/8/8/PPPPPPPP/RNBQKBNR w KQkq - 0 1"@,
            r.turn == Side::White,
            r.grid() == initial_grid(),
    {
        proof {
            lemma_initial_decodes();
        }
        match Self::parse_fen("rnbqkbnr/pppppppp/8/8/8/8/PPPPPPPP/RNBQKBNR w KQkq - 0 1".to_owned())
        {
            Ok(g) => g,
            Err(_) => unreached(),
        }
    }

    /// Replaces the position text, side to move and grid together, and only
    /// on a successful decode: on a malformed input the prior state is left
    /// wholly unchanged and the error is reported.
    pub fn update_fen(&mut self, fen: String) -> (r: Result<(), FenError>)
        ensures
            match r {
                Ok(()) => final(self).fen@ == fen@
                    && decode_fen(fen@) == Some((final(self).grid(), final(self).turn))
                    && final(self).wf(),
                Err(e) => decode_fen(fen@) is None && e == FenError::MalformedPosition
                    && final(self).fen@ == old(self).fen@
                    && final(self).turn == old(self).turn
                    && final(self).grid() == old(self).grid(),
            },
    {
        match Self::parse_fen(fen) {
            Ok(g) => {
                *self = g;
                Ok(())
            },
            Err(e) => Err(e),
        }
    }
}

} // verus!
