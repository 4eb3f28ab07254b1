//! Pieces, reversible move records, and the 8-by-8 placement grid.
//!
//! The board knows nothing about legality: it only performs and reverses
//! the placements a `Move` describes.  A `Move` carries exactly the data
//! needed to undo it, and `lemma_reverse_round_trip` proves that applying
//! a move and then reversing it restores the board exactly.

use vstd::prelude::*;

use crate::geometry::{in_bounds, Color, Pos};

verus! {

/// A piece: its kind, its owning colour, and whether it has moved before.
#[derive(Clone, Copy, PartialEq, Eq, Structural, Debug)]
pub enum Figure {
    Pawn(Color, bool),
    Rook(Color, bool),
    Knight(Color, bool),
    Bishop(Color, bool),
    Queen(Color, bool),
    King(Color, bool),
}

impl Figure {
    /// The owning colour.
    pub open spec fn color_spec(self) -> Color {
        match self {
            Figure::Pawn(c, _) => c,
            Figure::Rook(c, _) => c,
            Figure::Knight(c, _) => c,
            Figure::Bishop(c, _) => c,
            Figure::Queen(c, _) => c,
            Figure::King(c, _) => c,
        }
    }

    /// Whether the piece has moved before.
    pub open spec fn has_moved_spec(self) -> bool {
        match self {
            Figure::Pawn(_, m) => m,
            Figure::Rook(_, m) => m,
            Figure::Knight(_, m) => m,
            Figure::Bishop(_, m) => m,
            Figure::Queen(_, m) => m,
            Figure::King(_, m) => m,
        }
    }

    /// The same piece with its has-moved flag replaced.
    pub open spec fn with_moved_spec(self, val: bool) -> Figure {
        match self {
            Figure::Pawn(c, _) => Figure::Pawn(c, val),
            Figure::Rook(c, _) => Figure::Rook(c, val),
            Figure::Knight(c, _) => Figure::Knight(c, val),
            Figure::Bishop(c, _) => Figure::Bishop(c, val),
            Figure::Queen(c, _) => Figure::Queen(c, val),
            Figure::King(c, _) => Figure::King(c, val),
        }
    }

    /// Whether the piece is a king of either colour.
    pub open spec fn is_king(self) -> bool {
        match self {
            Figure::King(_, _) => true,
            _ => false,
        }
    }

    /// The glyph used to draw the piece.
    pub open spec fn symbol_spec(self) -> Seq<char> {
        match self {
            Figure::Pawn(_, _) => "♟︎"@,
            Figure::Rook(_, _) => "♜"@,
            Figure::Knight(_, _) => "♞"@,
            Figure::Bishop(_, _) => "♝"@,
            Figure::Queen(_, _) => "♛"@,
            Figure::King(_, _) => "♚"@,
        }
    }

    /// Returns the glyph used to draw the piece.
    pub fn symbol(&self) -> (r: &'static str)
        ensures
            r@ == self.symbol_spec(),
    {
        match self {
            Figure::Pawn(_, _) => "♟︎",
            Figure::Rook(_, _) => "♜",
            Figure::Knight(_, _) => "♞",
            Figure::Bishop(_, _) => "♝",
            Figure::Queen(_, _) => "♛",
            Figure::King(_, _) => "♚",
        }
    }

    /// Returns the owning colour.
    pub fn color(&self) -> (c: Color)
        ensures
            c == self.color_spec(),
    {
        match self {
            Figure::Pawn(c, _) => *c,
            Figure::Rook(c, _) => *c,
            Figure::Knight(c, _) => *c,
            Figure::Bishop(c, _) => *c,
            Figure::Queen(c, _) => *c,
            Figure::King(c, _) => *c,
        }
    }

    /// Returns whether the piece has moved before.
    pub fn has_moved(&self) -> (m: bool)
        ensures
            m == self.has_moved_spec(),
    {
        match self {
            Figure::Pawn(_, m) => *m,
            Figure::Rook(_, m) => *m,
            Figure::Knight(_, m) => *m,
            Figure::Bishop(_, m) => *m,
            Figure::Queen(_, m) => *m,
            Figure::King(_, m) => *m,
        }
    }

    /// Replaces the has-moved flag.
    pub fn set_moved_to(&mut self, val: bool)
        ensures
            *final(self) == old(self).with_moved_spec(val),
    {
        match self {
            Figure::Pawn(_, m) => *m = val,
            Figure::Rook(_, m) => *m = val,
            Figure::Knight(_, m) => *m = val,
            Figure::Bishop(_, m) => *m = val,
            Figure::Queen(_, m) => *m = val,
            Figure::King(_, m) => *m = val,
        }
    }
}

/// A self-sufficient, reversible description of one board transformation.
/// Legality is not checked here; the game state machine only ever applies
/// moves drawn from its generated legal-move sets.
#[derive(Clone, Copy, PartialEq, Eq, Structural, Debug)]
pub enum Move {
    /// Relocates a piece onto an empty square; carries the origin, the
    /// destination, and the piece's has-moved flag before the move.
    Normal(Pos, Pos, bool),
    /// Relocates a piece onto a square held by an enemy piece, which is
    /// removed; carries the captured piece and the prior has-moved flag.
    Take(Pos, Pos, Figure, bool),
    /// Relocates king and rook together: king origin, rook origin, king
    /// destination, rook destination.  Both pieces must not have moved
    /// before, so no flag is stored.
    Castle(Pos, Pos, Pos, Pos),
    /// Removes the pawn at the origin and places the replacement figure
    /// at the destination; reversal recreates an already-moved pawn.
    Promote(Pos, Pos, Figure),
}

impl Move {
    /// The square the moving piece starts from.
    pub open spec fn from_spec(self) -> Pos {
        match self {
            Move::Normal(p, _, _) => p,
            Move::Take(p, _, _, _) => p,
            Move::Castle(p, _, _, _) => p,
            Move::Promote(p, _, _) => p,
        }
    }

    /// The square the moving piece ends on.
    pub open spec fn to_spec(self) -> Pos {
        match self {
            Move::Normal(_, p, _) => p,
            Move::Take(_, p, _, _) => p,
            Move::Castle(_, _, p, _) => p,
            Move::Promote(_, p, _) => p,
        }
    }

    /// The mover's has-moved flag before the move: stored for plain moves
    /// and captures, necessarily false for castling, and true for a
    /// promotion (the pawn must have advanced to reach the last rank).
    pub open spec fn has_moved_before_spec(self) -> bool {
        match self {
            Move::Normal(_, _, m) => m,
            Move::Take(_, _, _, m) => m,
            Move::Castle(_, _, _, _) => false,
            Move::Promote(_, _, _) => true,
        }
    }

    /// Returns the square the moving piece starts from.
    pub fn from_pos(&self) -> (p: Pos)
        ensures
            p == self.from_spec(),
    {
        match self {
            Move::Normal(p, _, _) => *p,
            Move::Take(p, _, _, _) => *p,
            Move::Castle(p, _, _, _) => *p,
            Move::Promote(p, _, _) => *p,
        }
    }

    /// Returns the square the moving piece ends on.
    pub fn to_pos(&self) -> (p: Pos)
        ensures
            p == self.to_spec(),
    {
        match self {
            Move::Normal(_, p, _) => *p,
            Move::Take(_, p, _, _) => *p,
            Move::Castle(_, _, p, _) => *p,
            Move::Promote(_, p, _) => *p,
        }
    }

    /// Returns the mover's has-moved flag before the move.
    pub fn has_moved_before(&self) -> (m: bool)
        ensures
            m == self.has_moved_before_spec(),
    {
        match self {
            Move::Normal(_, _, m) => *m,
            Move::Take(_, _, _, m) => *m,
            Move::Castle(_, _, _, _) => false,
            Move::Promote(_, _, _) => true,
        }
    }
}

/// The flat index of square (file, rank) in the 64-entry grid: files are
/// laid out as columns, ranks run downwards inside a column.
pub open spec fn sq(f: int, r: int) -> int {
    (f - 1) * 8 + (8 - r)
}

/// The flat index of a position.
pub open spec fn sq_p(p: Pos) -> int {
    sq(p.file as int, p.rank as int)
}

/// The content of square (file, rank) in a board's grid.
pub open spec fn square(s: Seq<Option<Figure>>, f: int, r: int) -> Option<Figure> {
    s[sq(f, r)]
}

/// The content of a position's square in a board's grid.
pub open spec fn square_at(s: Seq<Option<Figure>>, p: Pos) -> Option<Figure> {
    s[sq_p(p)]
}

/// The figure on a position's square; meaningful when the square is occupied.
pub open spec fn fig_at(s: Seq<Option<Figure>>, p: Pos) -> Figure {
    square_at(s, p)->0
}

/// A well-formed square index lies in the grid.
pub proof fn lemma_sq_bounds(f: int, r: int)
    requires
        in_bounds(f, r),
    ensures
        0 <= sq(f, r) < 64,
{
}

/// Distinct well-formed positions have distinct square indices.
pub proof fn lemma_sq_injective(p: Pos, q: Pos)
    requires
        p.wf(),
        q.wf(),
        sq_p(p) == sq_p(q),
    ensures
        p == q,
{
}

/// The grid after moving the piece at `from` to `to` with its has-moved
/// flag set to `val`, as `Board::move_figure` performs it.
pub open spec fn move_figure_spec(s: Seq<Option<Figure>>, from: Pos, to: Pos, val: bool) -> Seq<
    Option<Figure>,
> {
    s.update(sq_p(from), None).update(sq_p(to), Some(fig_at(s, from).with_moved_spec(val)))
}

/// The grid after performing `m`, exactly as `Board::do_move` performs it.
pub open spec fn apply_spec(s: Seq<Option<Figure>>, m: Move) -> Seq<Option<Figure>> {
    match m {
        Move::Normal(from, to, _) => move_figure_spec(s, from, to, true),
        Move::Take(from, to, _, _) => move_figure_spec(s, from, to, true),
        Move::Castle(kf, rf, kt, rt) => move_figure_spec(
            move_figure_spec(s, kf, kt, true),
            rf,
            rt,
            true,
        ),
        Move::Promote(from, to, fig) => s.update(sq_p(from), None).update(sq_p(to), Some(fig)),
    }
}

/// The grid after reversing `m`, exactly as `Board::undo_move` performs it.
pub open spec fn undo_spec(s: Seq<Option<Figure>>, m: Move) -> Seq<Option<Figure>> {
    match m {
        Move::Normal(from, to, hm) => move_figure_spec(s, to, from, hm),
        Move::Take(from, to, taken, hm) => move_figure_spec(s, to, from, hm).update(
            sq_p(to),
            Some(taken),
        ),
        Move::Castle(kf, rf, kt, rt) => move_figure_spec(
            move_figure_spec(s, kt, kf, false),
            rt,
            rf,
            false,
        ),
        Move::Promote(from, to, fig) => s.update(sq_p(to), None).update(
            sq_p(from),
            Some((Figure::Pawn(fig.color_spec(), true))),
        ),
    }
}

/// The squares `do_move` touches are present as it needs them: enough to
/// rule out every abort while performing `m`.
pub open spec fn can_apply(s: Seq<Option<Figure>>, m: Move) -> bool {
    match m {
        Move::Normal(from, to, _) => from.wf() && to.wf() && square_at(s, from) is Some,
        Move::Take(from, to, _, _) => from.wf() && to.wf() && square_at(s, from) is Some,
        Move::Castle(kf, rf, kt, rt) => kf.wf() && rf.wf() && kt.wf() && rt.wf() && square_at(
            s,
            kf,
        ) is Some && square_at(move_figure_spec(s, kf, kt, true), rf) is Some,
        Move::Promote(from, to, _) => from.wf() && to.wf(),
    }
}

/// The squares `undo_move` touches are present as it needs them.
pub open spec fn can_undo(s: Seq<Option<Figure>>, m: Move) -> bool {
    match m {
        Move::Normal(from, to, _) => from.wf() && to.wf() && square_at(s, to) is Some,
        Move::Take(from, to, _, _) => from.wf() && to.wf() && square_at(s, to) is Some,
        Move::Castle(kf, rf, kt, rt) => kf.wf() && rf.wf() && kt.wf() && rt.wf() && square_at(
            s,
            kt,
        ) is Some && square_at(move_figure_spec(s, kt, kf, false), rt) is Some,
        Move::Promote(from, to, _) => from.wf() && to.wf(),
    }
}

/// What a move must find on the board for its reversal to restore the
/// board exactly: the mover in place with the recorded flag, the captured
/// piece as recorded, target squares empty, and all squares distinct.
pub open spec fn reversible(s: Seq<Option<Figure>>, m: Move) -> bool {
    match m {
        Move::Normal(from, to, hm) => from.wf() && to.wf() && from != to && square_at(
            s,
            from,
        ) is Some && fig_at(s, from).has_moved_spec() == hm && square_at(s, to) is None,
        Move::Take(from, to, taken, hm) => from.wf() && to.wf() && from != to && square_at(
            s,
            from,
        ) is Some && fig_at(s, from).has_moved_spec() == hm && square_at(s, to) == Some(taken),
        Move::Castle(kf, rf, kt, rt) => kf.wf() && rf.wf() && kt.wf() && rt.wf() && kf != rf && kf
            != kt && kf != rt && rf != kt && rf != rt && kt != rt && square_at(s, kf) is Some
            && !fig_at(s, kf).has_moved_spec() && square_at(s, rf) is Some && !fig_at(
            s,
            rf,
        ).has_moved_spec() && square_at(s, kt) is None && square_at(s, rt) is None,
        Move::Promote(from, to, fig) => from.wf() && to.wf() && from != to && square_at(s, from)
            == Some((Figure::Pawn(fig.color_spec(), true))) && square_at(s, to) is None,
    }
}

/// A reversible move can be performed, and its reversal can be performed
/// on the resulting board.
pub proof fn lemma_reversible_can_apply(s: Seq<Option<Figure>>, m: Move)
    requires
        s.len() == 64,
        reversible(s, m),
    ensures
        can_apply(s, m),
        can_undo(apply_spec(s, m), m),
{
    match m {
        Move::Normal(from, to, hm) => {
            lemma_sq_bounds(from.file as int, from.rank as int);
            lemma_sq_bounds(to.file as int, to.rank as int);
            lemma_sq_injective_contrapositive(from, to);
        },
        Move::Take(from, to, taken, hm) => {
            lemma_sq_bounds(from.file as int, from.rank as int);
            lemma_sq_bounds(to.file as int, to.rank as int);
            lemma_sq_injective_contrapositive(from, to);
        },
        Move::Castle(kf, rf, kt, rt) => {
            lemma_sq_bounds(kf.file as int, kf.rank as int);
            lemma_sq_bounds(rf.file as int, rf.rank as int);
            lemma_sq_bounds(kt.file as int, kt.rank as int);
            lemma_sq_bounds(rt.file as int, rt.rank as int);
            lemma_sq_injective_contrapositive(kf, rf);
            lemma_sq_injective_contrapositive(kf, kt);
            lemma_sq_injective_contrapositive(kf, rt);
            lemma_sq_injective_contrapositive(rf, kt);
            lemma_sq_injective_contrapositive(rf, rt);
            lemma_sq_injective_contrapositive(kt, rt);
        },
        Move::Promote(from, to, fig) => {
            lemma_sq_bounds(from.file as int, from.rank as int);
            lemma_sq_bounds(to.file as int, to.rank as int);
        },
    }
}

/// Distinct well-formed positions index distinct squares.
pub proof fn lemma_sq_injective_contrapositive(p: Pos, q: Pos)
    requires
        p.wf(),
        q.wf(),
        p != q,
    ensures
        sq_p(p) != sq_p(q),
{
    if sq_p(p) == sq_p(q) {
        lemma_sq_injective(p, q);
    }
}

/// Applying a reversible move and then reversing it restores the board
/// exactly: `undo` is a two-sided inverse of `apply` on the states the
/// game machine ever passes it.
pub proof fn lemma_reverse_round_trip(s: Seq<Option<Figure>>, m: Move)
    requires
        s.len() == 64,
        reversible(s, m),
    ensures
        undo_spec(apply_spec(s, m), m) == s,
{
    match m {
        Move::Normal(from, to, hm) => {
            lemma_sq_bounds(from.file as int, from.rank as int);
            lemma_sq_bounds(to.file as int, to.rank as int);
            lemma_sq_injective_contrapositive(from, to);
            assert(undo_spec(apply_spec(s, m), m) =~= s);
        },
        Move::Take(from, to, taken, hm) => {
            lemma_sq_bounds(from.file as int, from.rank as int);
            lemma_sq_bounds(to.file as int, to.rank as int);
            lemma_sq_injective_contrapositive(from, to);
            assert(undo_spec(apply_spec(s, m), m) =~= s);
        },
        Move::Castle(kf, rf, kt, rt) => {
            lemma_sq_bounds(kf.file as int, kf.rank as int);
            lemma_sq_bounds(rf.file as int, rf.rank as int);
            lemma_sq_bounds(kt.file as int, kt.rank as int);
            lemma_sq_bounds(rt.file as int, rt.rank as int);
            lemma_sq_injective_contrapositive(kf, rf);
            lemma_sq_injective_contrapositive(kf, kt);
            lemma_sq_injective_contrapositive(kf, rt);
            lemma_sq_injective_contrapositive(rf, kt);
            lemma_sq_injective_contrapositive(rf, rt);
            lemma_sq_injective_contrapositive(kt, rt);
            assert(undo_spec(apply_spec(s, m), m) =~= s);
        },
        Move::Promote(from, to, fig) => {
            lemma_sq_bounds(from.file as int, from.rank as int);
            lemma_sq_bounds(to.file as int, to.rank as int);
            lemma_sq_injective_contrapositive(from, to);
            assert(undo_spec(apply_spec(s, m), m) =~= s);
        },
    }
}

/// How many squares of the grid hold a piece.
pub open spec fn count_pieces(s: Seq<Option<Figure>>) -> nat
    decreases s.len(),
{
    if s.len() == 0 {
        0
    } else {
        count_pieces(s.drop_last()) + (if s.last() is Some {
            1nat
        } else {
            0nat
        })
    }
}

/// Overwriting one square changes the piece count by the difference
/// between what leaves the square and what lands on it.
pub proof fn lemma_count_update(s: Seq<Option<Figure>>, i: int, v: Option<Figure>)
    requires
        0 <= i < s.len(),
    ensures
        count_pieces(s.update(i, v)) == count_pieces(s) + (if v is Some {
            1int
        } else {
            0int
        }) - (if s[i] is Some {
            1int
        } else {
            0int
        }),
    decreases s.len(),
{
    let t = s.update(i, v);
    if i == s.len() - 1 {
        assert(t.drop_last() =~= s.drop_last());
    } else {
        assert(t.drop_last() =~= s.drop_last().update(i, v));
        lemma_count_update(s.drop_last(), i, v);
    }
}

/// A plain move keeps the piece count; a capture lowers it by one.
pub proof fn lemma_count_apply(s: Seq<Option<Figure>>, m: Move)
    requires
        s.len() == 64,
        reversible(s, m),
        m is Normal || m is Take,
    ensures
        m is Normal ==> count_pieces(apply_spec(s, m)) == count_pieces(s),
        m is Take ==> count_pieces(apply_spec(s, m)) + 1 == count_pieces(s),
{
    match m {
        Move::Normal(from, to, hm) => {
            lemma_sq_bounds(from.file as int, from.rank as int);
            lemma_sq_bounds(to.file as int, to.rank as int);
            lemma_sq_injective_contrapositive(from, to);
            let s1 = s.update(sq_p(from), None);
            lemma_count_update(s, sq_p(from), None);
            lemma_count_update(s1, sq_p(to), Some(fig_at(s, from).with_moved_spec(true)));
        },
        Move::Take(from, to, taken, hm) => {
            lemma_sq_bounds(from.file as int, from.rank as int);
            lemma_sq_bounds(to.file as int, to.rank as int);
            lemma_sq_injective_contrapositive(from, to);
            let s1 = s.update(sq_p(from), None);
            lemma_count_update(s, sq_p(from), None);
            lemma_count_update(s1, sq_p(to), Some(fig_at(s, from).with_moved_spec(true)));
        },
        _ => {},
    }
}

/// The standard initial placement of square (file, rank).
pub open spec fn initial_square(f: int, r: int) -> Option<Figure> {
    if r == 2 {
        Some(Figure::Pawn(Color::White, false))
    } else if r == 7 {
        Some(Figure::Pawn(Color::Black, false))
    } else if r == 1 {
        Some(back_rank_figure(f, Color::White))
    } else if r == 8 {
        Some(back_rank_figure(f, Color::Black))
    } else {
        None
    }
}

/// The piece that starts on file `f` of a back rank.
pub open spec fn back_rank_figure(f: int, c: Color) -> Figure {
    if f == 1 || f == 8 {
        Figure::Rook(c, false)
    } else if f == 2 || f == 7 {
        Figure::Knight(c, false)
    } else if f == 3 || f == 6 {
        Figure::Bishop(c, false)
    } else if f == 4 {
        Figure::Queen(c, false)
    } else {
        Figure::King(c, false)
    }
}

/// The 8-by-8 placement grid, stored file-major in a flat vector of 64
/// squares, each empty or holding exactly one figure.
pub struct Board {
    fields: Vec<Option<Figure>>,
}

impl View for Board {
    type V = Seq<Option<Figure>>;

    closed spec fn view(&self) -> Seq<Option<Figure>> {
        self.fields@
    }
}

impl Board {
    /// The grid has exactly one slot per square.
    pub open spec fn wf(self) -> bool {
        self@.len() == 64
    }

    /// The flat index of a position's square.
    fn pos_index(pos: Pos) -> (i: usize)
        requires
            pos.wf(),
        ensures
            i as int == sq_p(pos),
            i < 64,
    {
        (pos.file - 1) * 8 + (8 - pos.rank)
    }

    /// An empty board.
    pub fn empty() -> (b: Board)
        ensures
            b.wf(),
            forall|i: int| 0 <= i < 64 ==> b@[i] is None,
    {
        let mut fields: Vec<Option<Figure>> = Vec::new();
        let mut i: usize = 0;
        while i < 64
            invariant
                i <= 64,
                fields@.len() == i,
                forall|j: int| 0 <= j < i ==> fields@[j] is None,
            decreases 64 - i,
        {
            fields.push(None);
            i = i + 1;
        }
        Board { fields }
    }

    /// A board with the standard initial placement: pawns on ranks 2 and
    /// 7, and each back rank holding rook, knight, bishop, queen, king,
    /// bishop, knight, rook from file 1 to file 8.
    pub fn new() -> (b: Board)
        ensures
            b.wf(),
            forall|f: int, r: int| in_bounds(f, r) ==> square(b@, f, r) == initial_square(f, r),
    {
        let mut board = Board::empty();
        // Pawns
        let mut file: usize = 1;
        while file <= 8
            invariant
                1 <= file <= 9,
                board.wf(),
                forall|f: int, r: int|
                    in_bounds(f, r) && (r == 2 || r == 7) && f < file ==> square(board@, f, r)
                        == initial_square(f, r),
                forall|f: int, r: int|
                    in_bounds(f, r) && !((r == 2 || r == 7) && f < file) ==> square(board@, f, r)
                        is None,
            decreases 9 - file,
        {
            board.add_figure(Pos { file, rank: 2 }, Figure::Pawn(Color::White, false));
            board.add_figure(Pos { file, rank: 7 }, Figure::Pawn(Color::Black, false));
            file = file + 1;
        }
        // Rooks
        board.add_figure(Pos { file: 1, rank: 1 }, Figure::Rook(Color::White, false));
        board.add_figure(Pos { file: 8, rank: 1 }, Figure::Rook(Color::White, false));
        board.add_figure(Pos { file: 1, rank: 8 }, Figure::Rook(Color::Black, false));
        board.add_figure(Pos { file: 8, rank: 8 }, Figure::Rook(Color::Black, false));
        // Knights
        board.add_figure(Pos { file: 2, rank: 1 }, Figure::Knight(Color::White, false));
        board.add_figure(Pos { file: 7, rank: 1 }, Figure::Knight(Color::White, false));
        board.add_figure(Pos { file: 2, rank: 8 }, Figure::Knight(Color::Black, false));
        board.add_figure(Pos { file: 7, rank: 8 }, Figure::Knight(Color::Black, false));
        // Bishops
        board.add_figure(Pos { file: 3, rank: 1 }, Figure::Bishop(Color::White, false));
        board.add_figure(Pos { file: 6, rank: 1 }, Figure::Bishop(Color::White, false));
        board.add_figure(Pos { file: 3, rank: 8 }, Figure::Bishop(Color::Black, false));
        board.add_figure(Pos { file: 6, rank: 8 }, Figure::Bishop(Color::Black, false));
        // Queens
        board.add_figure(Pos { file: 4, rank: 1 }, Figure::Queen(Color::White, false));
        board.add_figure(Pos { file: 4, rank: 8 }, Figure::Queen(Color::Black, false));
        // Kings
        board.add_figure(Pos { file: 5, rank: 1 }, Figure::King(Color::White, false));
        board.add_figure(Pos { file: 5, rank: 8 }, Figure::King(Color::Black, false));
        board
    }

    /// Returns a mutable slot for a position's square.
    pub fn fields_get_mut(&mut self, pos: Pos) -> (r: &mut Option<Figure>)
        requires
            old(self).wf(),
            pos.wf(),
        ensures
            *r == square_at(old(self)@, pos),
            final(self)@ == old(self)@.update(sq_p(pos), *final(r)),
            final(self).wf(),
    {
        let i = Self::pos_index(pos);
        &mut self.fields[i]
    }

    /// Returns the content of a position's square.
    pub fn fields_get(&self, pos: Pos) -> (r: Option<Figure>)
        requires
            self.wf(),
            pos.wf(),
        ensures
            r == square_at(self@, pos),
    {
        let i = Self::pos_index(pos);
        self.fields[i]
    }

    /// Places a figure on a square, replacing whatever was there.
    pub fn add_figure(&mut self, pos: Pos, figure: Figure)
        requires
            old(self).wf(),
            pos.wf(),
        ensures
            final(self).wf(),
            final(self)@ == old(self)@.update(sq_p(pos), Some(figure)),
    {
        *self.fields_get_mut(pos) = Some(figure);
    }

    /// Empties a square, returning what it held.
    pub fn remove_figure(&mut self, pos: Pos) -> (r: Option<Figure>)
        requires
            old(self).wf(),
            pos.wf(),
        ensures
            final(self).wf(),
            r == square_at(old(self)@, pos),
            final(self)@ == old(self)@.update(sq_p(pos), None),
    {
        let slot = self.fields_get_mut(pos);
        let r = *slot;
        *slot = None;
        r
    }

    /// Moves the figure at `old_pos` to `new_pos`, setting its has-moved
    /// flag to `has_moved_val` on the way.
    pub fn move_figure(&mut self, old_pos: Pos, new_pos: Pos, has_moved_val: bool)
        requires
            old(self).wf(),
            old_pos.wf(),
            new_pos.wf(),
            square_at(old(self)@, old_pos) is Some,
        ensures
            final(self).wf(),
            final(self)@ == move_figure_spec(old(self)@, old_pos, new_pos, has_moved_val),
    {
        let removed = self.remove_figure(old_pos);
        match removed {
            Some(mut moving_figure) => {
                moving_figure.set_moved_to(has_moved_val);
                self.add_figure(new_pos, moving_figure);
            },
            None => {
                proof {
                    assert(false);
                }
            },
        }
    }

    /// Performs the placements and removals `mv` describes; a plain move
    /// or capture marks the moved piece as having moved.  Legality is the
    /// caller's burden: the game state machine only applies moves drawn
    /// from generated legal-move sets.
    pub fn do_move(&mut self, mv: Move)
        requires
            old(self).wf(),
            can_apply(old(self)@, mv),
        ensures
            final(self).wf(),
            final(self)@ == apply_spec(old(self)@, mv),
    {
        match mv {
            Move::Normal(old_pos, new_pos, _) => self.move_figure(old_pos, new_pos, true),
            Move::Take(old_pos, new_pos, _, _) => self.move_figure(old_pos, new_pos, true),
            Move::Castle(k_old_pos, r_old_pos, k_new_pos, r_new_pos) => {
                self.move_figure(k_old_pos, k_new_pos, true);
                self.move_figure(r_old_pos, r_new_pos, true);
            },
            Move::Promote(old_pos, new_pos, figure) => {
                self.remove_figure(old_pos);
                self.add_figure(new_pos, figure);
            },
        }
    }

    /// Performs the exact inverse of `mv`: the mover returns home with
    /// its recorded flag, a captured piece reappears, and a promotion
    /// reverts to an already-moved pawn.
    pub fn undo_move(&mut self, mv: Move)
        requires
            old(self).wf(),
            can_undo(old(self)@, mv),
        ensures
            final(self).wf(),
            final(self)@ == undo_spec(old(self)@, mv),
    {
        match mv {
            Move::Normal(old_pos, new_pos, m) => self.move_figure(new_pos, old_pos, m),
            Move::Take(old_pos, new_pos, taken, m) => {
                self.move_figure(new_pos, old_pos, m);
                self.add_figure(new_pos, taken);
            },
            Move::Castle(k_old_pos, r_old_pos, k_new_pos, r_new_pos) => {
                self.move_figure(k_new_pos, k_old_pos, false);
                self.move_figure(r_new_pos, r_old_pos, false);
            },
            Move::Promote(old_pos, new_pos, figure) => {
                self.remove_figure(new_pos);
                let color = figure.color();
                self.add_figure(old_pos, Figure::Pawn(color, true));
            },
        }
    }
}

} // verus!
