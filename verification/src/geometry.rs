//! Board coordinates and the eight movement directions.
//!
//! A `Pos` is a pair (file, rank), each in the closed range 1..8; building
//! one outside that range fails with `MoveError::OutOfBounds`.  A `Dir` is
//! one of the eight compass directions; stepping a `Pos` in a `Dir` fails
//! with `OutOfBounds` at the board edge, which is how sliding-piece rays
//! are terminated.

use vstd::prelude::*;

verus! {

/// The two sides of the game.
#[derive(Clone, Copy, PartialEq, Eq, Structural, Debug)]
pub enum Color {
    White,
    Black,
}

impl Color {
    /// The opposing side.
    pub open spec fn other_spec(self) -> Color {
        match self {
            Color::White => Color::Black,
            Color::Black => Color::White,
        }
    }

    /// Returns the opposing side.
    pub fn other(&self) -> (c: Color)
        ensures
            c == self.other_spec(),
    {
        match self {
            Color::White => Color::Black,
            Color::Black => Color::White,
        }
    }
}

/// Why a position could not be built or a requested move was rejected.
#[derive(Clone, Copy, PartialEq, Eq, Structural, Debug)]
pub enum MoveError {
    /// A coordinate left the 1..8 board range.
    OutOfBounds,
    /// The source square is empty.
    NoPiece,
    /// The piece on the source square belongs to the side not to move.
    WrongColor,
    /// No legal move of the source piece reaches the requested square.
    IllegalDestination,
}

/// The eight compass directions a piece can step in.
#[derive(Clone, Copy, PartialEq, Eq, Structural, Debug)]
pub enum Dir {
    Left,
    Right,
    Up,
    Down,
    LeftUp,
    LeftDown,
    RightUp,
    RightDown,
}

/// How one step in direction `d` changes the file.
pub open spec fn file_delta(d: Dir) -> int {
    match d {
        Dir::Left | Dir::LeftUp | Dir::LeftDown => -1,
        Dir::Right | Dir::RightUp | Dir::RightDown => 1,
        Dir::Up | Dir::Down => 0,
    }
}

/// How one step in direction `d` changes the rank.
pub open spec fn rank_delta(d: Dir) -> int {
    match d {
        Dir::Up | Dir::LeftUp | Dir::RightUp => 1,
        Dir::Down | Dir::LeftDown | Dir::RightDown => -1,
        Dir::Left | Dir::Right => 0,
    }
}

/// The four straight directions; only these decompose into diagonals.
pub open spec fn is_orthogonal(d: Dir) -> bool {
    d == Dir::Left || d == Dir::Right || d == Dir::Up || d == Dir::Down
}

/// The two diagonal neighbours of a straight direction, in the order
/// `get_diagonals` returns them.  Diagonal inputs have no decomposition
/// and are mapped to the empty sequence.
pub open spec fn diagonals_spec(d: Dir) -> Seq<Dir> {
    match d {
        Dir::Left => seq![Dir::LeftUp, Dir::LeftDown],
        Dir::Right => seq![Dir::RightUp, Dir::RightDown],
        Dir::Up => seq![Dir::LeftUp, Dir::RightUp],
        Dir::Down => seq![Dir::LeftDown, Dir::RightDown],
        _ => seq![],
    }
}

impl Dir {
    /// The two diagonal directions flanking a straight direction.
    ///
    /// Asking for the diagonals of a diagonal is a contract violation,
    /// so the input is restricted to the four straight directions.
    pub fn get_diagonals(&self) -> (r: Vec<Dir>)
        requires
            is_orthogonal(*self),
        ensures
            r@ == diagonals_spec(*self),
    {
        let mut r: Vec<Dir> = Vec::new();
        match self {
            Dir::Left => {
                r.push(Dir::LeftUp);
                r.push(Dir::LeftDown);
            },
            Dir::Right => {
                r.push(Dir::RightUp);
                r.push(Dir::RightDown);
            },
            Dir::Up => {
                r.push(Dir::LeftUp);
                r.push(Dir::RightUp);
            },
            Dir::Down => {
                r.push(Dir::LeftDown);
                r.push(Dir::RightDown);
            },
            _ => {
                proof {
                    assert(false);
                }
            },
        }
        proof {
            assert(r@ =~= diagonals_spec(*self));
        }
        r
    }
}

/// Whether (file, rank) lies on the 8-by-8 board.
pub open spec fn in_bounds(f: int, r: int) -> bool {
    1 <= f <= 8 && 1 <= r <= 8
}

/// The position with the given coordinates; meaningful when they are
/// nonnegative and fit the board.
pub open spec fn pos_from(f: int, r: int) -> Pos {
    Pos { file: f as usize, rank: r as usize }
}

/// A position built from coordinates on the board is well formed and
/// keeps those coordinates.
pub proof fn lemma_pos_from_wf(f: int, r: int)
    requires
        in_bounds(f, r),
    ensures
        pos_from(f, r).wf(),
        pos_from(f, r).file as int == f,
        pos_from(f, r).rank as int == r,
{
}

/// A board coordinate: file and rank, each in 1..8 when well formed.
#[derive(Clone, Copy, PartialEq, Eq, Structural, Debug)]
pub struct Pos {
    pub file: usize,
    pub rank: usize,
}

/// Whether one step from `p` in direction `d` stays on the board.
pub open spec fn shift_ok(p: Pos, d: Dir) -> bool {
    in_bounds(p.file + file_delta(d), p.rank + rank_delta(d))
}

/// The position one step from `p` in direction `d`.
pub open spec fn shifted(p: Pos, d: Dir) -> Pos {
    pos_from(p.file + file_delta(d), p.rank + rank_delta(d))
}

/// The direction a pawn of colour `c` advances in.
pub open spec fn forward_dir(c: Color) -> Dir {
    match c {
        Color::White => Dir::Up,
        Color::Black => Dir::Down,
    }
}

impl Pos {
    /// Both coordinates lie in 1..8.
    pub open spec fn wf(self) -> bool {
        in_bounds(self.file as int, self.rank as int)
    }

    /// Builds a position, rejecting coordinates outside 1..8.
    pub fn new(file: usize, rank: usize) -> (r: Result<Pos, MoveError>)
        ensures
            in_bounds(file as int, rank as int) ==> r == Ok::<Pos, MoveError>((Pos { file, rank })),
            !in_bounds(file as int, rank as int) ==> r == Err::<Pos, MoveError>(MoveError::OutOfBounds),
    {
        if file <= 8 && file >= 1 && rank <= 8 && rank >= 1 {
            Ok(Pos { file, rank })
        } else {
            Err(MoveError::OutOfBounds)
        }
    }

    /// The zero-based (column, row) pair used by a terminal cell grid:
    /// column counts files from the left, row counts ranks from the top.
    pub fn to_ratatui(&self) -> (r: (u16, u16))
        requires
            self.wf(),
        ensures
            r.0 as int == self.file - 1,
            r.1 as int == 8 - self.rank,
    {
        ((self.file - 1) as u16, (8 - self.rank) as u16)
    }

    /// The zero-based (column, row) indices of this square in a
    /// row-major 8-by-8 array, row 0 at the top (rank 8).
    pub fn to_array(&self) -> (r: (usize, usize))
        requires
            self.wf(),
        ensures
            r.0 as int == self.file - 1,
            r.1 as int == 8 - self.rank,
    {
        (self.file - 1, 8 - self.rank)
    }

    /// One step towards the opponent: up the board for White, down for
    /// Black.  Fails with `OutOfBounds` past the last rank.
    pub fn advance(&self, color: Color) -> (r: Result<Pos, MoveError>)
        requires
            self.wf(),
        ensures
            shift_ok(*self, forward_dir(color)) ==> r == Ok::<Pos, MoveError>(
                shifted(*self, forward_dir(color)),
            ),
            !shift_ok(*self, forward_dir(color)) ==> r == Err::<Pos, MoveError>(
                MoveError::OutOfBounds,
            ),
    {
        match color {
            Color::White => self.move_dir(Dir::Up),
            Color::Black => self.move_dir(Dir::Down),
        }
    }

    /// One step in direction `dir`; fails with `OutOfBounds` when the
    /// step would leave the board.
    pub fn move_dir(&self, dir: Dir) -> (r: Result<Pos, MoveError>)
        requires
            self.wf(),
        ensures
            shift_ok(*self, dir) ==> r == Ok::<Pos, MoveError>(shifted(*self, dir)),
            !shift_ok(*self, dir) ==> r == Err::<Pos, MoveError>(MoveError::OutOfBounds),
    {
        match dir {
            Dir::Up => Pos::new(self.file, self.rank + 1),
            Dir::Down => Pos::new(self.file, self.rank - 1),
            Dir::Left => Pos::new(self.file - 1, self.rank),
            Dir::Right => Pos::new(self.file + 1, self.rank),
            Dir::LeftUp => Pos::new(self.file - 1, self.rank + 1),
            Dir::LeftDown => Pos::new(self.file - 1, self.rank - 1),
            Dir::RightUp => Pos::new(self.file + 1, self.rank + 1),
            Dir::RightDown => Pos::new(self.file + 1, self.rank - 1),
        }
    }
}

} // verus!
