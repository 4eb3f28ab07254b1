//! The rules engine: per-piece move generation, check detection, and the
//! turn state machine.
//!
//! A *raw* (pseudo-legal) move obeys a piece's movement geometry and the
//! occupancy rules; a *legal* move is a raw move that does not leave the
//! mover's own king capturable.  `ChessState::move_checked` is the sole
//! entry point for attempting a move: it enforces turn order, matches the
//! request against the generated legal moves of the source piece, applies
//! the winning move, and flips the active colour.

use vstd::prelude::*;

use crate::board::{
    apply_spec, count_pieces, fig_at, lemma_count_apply, lemma_reverse_round_trip,
    lemma_reversible_can_apply, reversible, sq, sq_p, square, square_at, undo_spec, Board, Figure,
    Move,
};
use crate::geometry::{
    diagonals_spec, file_delta, forward_dir, in_bounds, is_orthogonal, pos_from, rank_delta,
    shifted, Color, Dir, MoveError, Pos,
};

verus! {

broadcast use vstd::seq_lib::lemma_seq_contains_after_push;

/// The file reached after `k` steps from `p` in direction `d`.
pub open spec fn ray_file(p: Pos, d: Dir, k: int) -> int
    decreases k,
{
    if k <= 0 {
        p.file as int
    } else {
        ray_file(p, d, k - 1) + file_delta(d)
    }
}

/// The rank reached after `k` steps from `p` in direction `d`.
pub open spec fn ray_rank(p: Pos, d: Dir, k: int) -> int
    decreases k,
{
    if k <= 0 {
        p.rank as int
    } else {
        ray_rank(p, d, k - 1) + rank_delta(d)
    }
}

/// Walking a ray adds one step's delta per step.
pub proof fn lemma_ray_linear(p: Pos, d: Dir, k: int)
    requires
        k >= 0,
    ensures
        ray_file(p, d, k) == p.file + k * file_delta(d),
        ray_rank(p, d, k) == p.rank + k * rank_delta(d),
    decreases k,
{
    if k > 0 {
        lemma_ray_linear(p, d, k - 1);
        assert(k * file_delta(d) == (k - 1) * file_delta(d) + file_delta(d))
            by (nonlinear_arith);
        assert(k * rank_delta(d) == (k - 1) * rank_delta(d) + rank_delta(d))
            by (nonlinear_arith);
    }
}

/// Every square strictly between `p` and its `k`-th step along `d` is on
/// the board and empty.
pub open spec fn ray_clear(s: Seq<Option<Figure>>, p: Pos, d: Dir, k: int) -> bool {
    forall|j: int|
        1 <= j < k ==> in_bounds(#[trigger] ray_file(p, d, j), ray_rank(p, d, j)) && square(
            s,
            ray_file(p, d, j),
            ray_rank(p, d, j),
        ) is None
}

/// The move produced by sliding exactly `k` steps along `d`: the ray up
/// to the landing square is clear, and the landing square is on the
/// board and either empty (a plain move) or held by an enemy piece (a
/// capture that ends the ray).
pub open spec fn slide_move_at(
    s: Seq<Option<Figure>>,
    p: Pos,
    c: Color,
    hm: bool,
    d: Dir,
    k: int,
    m: Move,
) -> bool {
    let f = ray_file(p, d, k);
    let r = ray_rank(p, d, k);
    in_bounds(f, r) && ray_clear(s, p, d, k) && match square(s, f, r) {
        None => m == Move::Normal(p, pos_from(f, r), hm),
        Some(g) => g.color_spec() != c && m == Move::Take(p, pos_from(f, r), g, hm),
    }
}

/// A move some number of steps (at most `cap`) along direction `d`.
pub open spec fn slide_move(
    s: Seq<Option<Figure>>,
    p: Pos,
    c: Color,
    hm: bool,
    d: Dir,
    cap: int,
    m: Move,
) -> bool {
    exists|k: int| 1 <= k <= cap && slide_move_at(s, p, c, hm, d, k, m)
}

/// Direction `e` is one of the two diagonal neighbours of the straight
/// direction `d`.
pub open spec fn is_diag_of(d: Dir, e: Dir) -> bool {
    (d == Dir::Left && (e == Dir::LeftUp || e == Dir::LeftDown)) || (d == Dir::Right && (e
        == Dir::RightUp || e == Dir::RightDown)) || (d == Dir::Up && (e == Dir::LeftUp || e
        == Dir::RightUp)) || (d == Dir::Down && (e == Dir::LeftDown || e == Dir::RightDown))
}

/// The knight move built from straight direction `d` then diagonal `e`:
/// one step along `d` stays on the board, the diagonal step lands on the
/// board, and the landing square is empty or enemy-held.  The
/// intermediate square need not be empty: the knight jumps.
pub open spec fn knight_jump(
    s: Seq<Option<Figure>>,
    p: Pos,
    c: Color,
    hm: bool,
    d: Dir,
    e: Dir,
    m: Move,
) -> bool {
    let f1 = p.file + file_delta(d);
    let r1 = p.rank + rank_delta(d);
    let f = f1 + file_delta(e);
    let r = r1 + rank_delta(e);
    is_orthogonal(d) && is_diag_of(d, e) && in_bounds(f1, r1) && in_bounds(f, r) && match square(
        s,
        f,
        r,
    ) {
        None => m == Move::Normal(p, pos_from(f, r), hm),
        Some(g) => g.color_spec() != c && m == Move::Take(p, pos_from(f, r), g, hm),
    }
}

/// A knight move: a straight step composed with one of its two diagonal
/// neighbours, reproducing the L-shape.
pub open spec fn knight_move(s: Seq<Option<Figure>>, p: Pos, c: Color, hm: bool, m: Move) -> bool {
    exists|d: Dir, e: Dir| knight_jump(s, p, c, hm, d, e, m)
}

/// The pawn's single straight advance onto an empty square.
pub open spec fn pawn_single(s: Seq<Option<Figure>>, p: Pos, c: Color, hm: bool, m: Move) -> bool {
    let f = p.file as int;
    let r1 = p.rank + rank_delta(forward_dir(c));
    in_bounds(f, r1) && square(s, f, r1) is None && m == Move::Normal(p, pos_from(f, r1), hm)
}

/// The pawn's double advance: only for a pawn that has not moved, with
/// both the one-step and two-step squares empty.
pub open spec fn pawn_double(s: Seq<Option<Figure>>, p: Pos, c: Color, hm: bool, m: Move) -> bool {
    let f = p.file as int;
    let r1 = p.rank + rank_delta(forward_dir(c));
    let r2 = p.rank + 2 * rank_delta(forward_dir(c));
    !hm && in_bounds(f, r1) && square(s, f, r1) is None && in_bounds(f, r2) && square(
        s,
        f,
        r2,
    ) is None && m == Move::Normal(p, pos_from(f, r2), hm)
}

/// A pawn capture: one square diagonally forward, only onto an
/// enemy-held square.  Diagonal advance onto an empty square is never
/// legal, and no en-passant capture is modelled.
pub open spec fn pawn_capture_side(
    s: Seq<Option<Figure>>,
    p: Pos,
    c: Color,
    hm: bool,
    side: Dir,
    m: Move,
) -> bool {
    let f = p.file + file_delta(side);
    let r1 = p.rank + rank_delta(forward_dir(c));
    (side == Dir::Left || side == Dir::Right) && in_bounds(f, r1) && match square(s, f, r1) {
        None => false,
        Some(g) => g.color_spec() != c && m == Move::Take(p, pos_from(f, r1), g, hm),
    }
}

/// A pawn move: single advance, double advance, or diagonal capture.
/// Promotion is not generated: a pawn reaching the last rank simply has
/// no further forward moves.
pub open spec fn pawn_move(s: Seq<Option<Figure>>, p: Pos, c: Color, hm: bool, m: Move) -> bool {
    pawn_single(s, p, c, hm, m) || pawn_double(s, p, c, hm, m) || (exists|side: Dir|
        pawn_capture_side(s, p, c, hm, side, m))
}

/// A raw (pseudo-legal) move of the piece standing on `p`: it obeys that
/// piece's movement geometry and the occupancy rules, ignoring whether
/// it exposes the mover's king.
pub open spec fn piece_move(s: Seq<Option<Figure>>, p: Pos, m: Move) -> bool {
    square_at(s, p) is Some && {
        let fig = fig_at(s, p);
        let c = fig.color_spec();
        let hm = fig.has_moved_spec();
        match fig {
            Figure::Pawn(_, _) => pawn_move(s, p, c, hm, m),
            Figure::Rook(_, _) => exists|d: Dir| is_orthogonal(d) && slide_move(s, p, c, hm, d, 7, m),
            Figure::Knight(_, _) => knight_move(s, p, c, hm, m),
            Figure::Bishop(_, _) => exists|d: Dir|
                !is_orthogonal(d) && slide_move(s, p, c, hm, d, 7, m),
            Figure::Queen(_, _) => exists|d: Dir| slide_move(s, p, c, hm, d, 7, m),
            Figure::King(_, _) => exists|d: Dir| slide_move(s, p, c, hm, d, 1, m),
        }
    }
}

/// The move captures a king.
pub open spec fn king_capture(m: Move) -> bool {
    match m {
        Move::Take(_, _, g, _) => g.is_king(),
        _ => false,
    }
}

/// The piece on `p` belongs to the opponent of `c` and has a raw move
/// that captures a king.
pub open spec fn attacks_king_from(s: Seq<Option<Figure>>, c: Color, p: Pos) -> bool {
    p.wf() && square_at(s, p) is Some && fig_at(s, p).color_spec() == c.other_spec() && (exists|
        m: Move,
    |
        piece_move(s, p, m) && king_capture(m))
}

/// Colour `c` is in check: some enemy piece can capture a king in one
/// raw move.
pub open spec fn in_check(s: Seq<Option<Figure>>, c: Color) -> bool {
    exists|p: Pos| attacks_king_from(s, c, p)
}

/// A legal move of the piece on `p` while `turn` is to move: raw, and
/// after applying it `turn` is not in check.
pub open spec fn legal_move(s: Seq<Option<Figure>>, turn: Color, p: Pos, m: Move) -> bool {
    piece_move(s, p, m) && !in_check(apply_spec(s, m), turn)
}

/// Some piece of colour `turn` has a legal move.
pub open spec fn has_any_move(s: Seq<Option<Figure>>, turn: Color) -> bool {
    exists|p: Pos|
        #![auto]
        p.wf() && square_at(s, p) is Some && fig_at(s, p).color_spec() == turn && (exists|m: Move|
            legal_move(s, turn, p, m))
}

/// A raw move that lands on (f, r) — a plain move onto an empty square
/// or a capture of the piece there — is reversible on the board that
/// produced it.
proof fn lemma_landing_reversible(
    s: Seq<Option<Figure>>,
    p: Pos,
    c: Color,
    hm: bool,
    f: int,
    r: int,
    m: Move,
)
    requires
        s.len() == 64,
        p.wf(),
        square_at(s, p) is Some,
        fig_at(s, p).color_spec() == c,
        fig_at(s, p).has_moved_spec() == hm,
        in_bounds(f, r),
        f != p.file as int || r != p.rank as int,
        match square(s, f, r) {
            None => m == Move::Normal(p, pos_from(f, r), hm),
            Some(g) => g.color_spec() != c && m == Move::Take(p, pos_from(f, r), g, hm),
        },
    ensures
        reversible(s, m),
        m.from_spec() == p,
        m.to_spec() == pos_from(f, r),
        m is Normal || m is Take,
{
    crate::geometry::lemma_pos_from_wf(f, r);
    let q = pos_from(f, r);
    assert(sq_p(q) == sq(f, r));
    assert(q != p);
}

/// Every raw move of the piece on `p` starts at `p`, is a plain move or
/// a capture, and is reversible: applying it and reversing it restores
/// the board exactly.
pub proof fn lemma_piece_move_reversible(s: Seq<Option<Figure>>, p: Pos, m: Move)
    requires
        s.len() == 64,
        p.wf(),
        piece_move(s, p, m),
    ensures
        reversible(s, m),
        m.from_spec() == p,
        m is Normal || m is Take,
{
    let fig = fig_at(s, p);
    let c = fig.color_spec();
    let hm = fig.has_moved_spec();
    match fig {
        Figure::Pawn(_, _) => {
            if pawn_single(s, p, c, hm, m) {
                let r1 = p.rank + rank_delta(forward_dir(c));
                lemma_landing_reversible(s, p, c, hm, p.file as int, r1, m);
            } else if pawn_double(s, p, c, hm, m) {
                let r2 = p.rank + 2 * rank_delta(forward_dir(c));
                lemma_landing_reversible(s, p, c, hm, p.file as int, r2, m);
            } else {
                let side = choose|side: Dir| pawn_capture_side(s, p, c, hm, side, m);
                let f = p.file + file_delta(side);
                let r1 = p.rank + rank_delta(forward_dir(c));
                lemma_landing_reversible(s, p, c, hm, f, r1, m);
            }
        },
        Figure::Knight(_, _) => {
            let (d, e) = choose|d: Dir, e: Dir| knight_jump(s, p, c, hm, d, e, m);
            let f = p.file + file_delta(d) + file_delta(e);
            let r = p.rank + rank_delta(d) + rank_delta(e);
            assert(f != p.file as int || r != p.rank as int);
            lemma_landing_reversible(s, p, c, hm, f, r, m);
        },
        Figure::Rook(_, _) => {
            let d = choose|d: Dir| is_orthogonal(d) && slide_move(s, p, c, hm, d, 7, m);
            lemma_slide_reversible(s, p, c, hm, d, 7, m);
        },
        Figure::Bishop(_, _) => {
            let d = choose|d: Dir| !is_orthogonal(d) && slide_move(s, p, c, hm, d, 7, m);
            lemma_slide_reversible(s, p, c, hm, d, 7, m);
        },
        Figure::Queen(_, _) => {
            let d = choose|d: Dir| slide_move(s, p, c, hm, d, 7, m);
            lemma_slide_reversible(s, p, c, hm, d, 7, m);
        },
        Figure::King(_, _) => {
            let d = choose|d: Dir| slide_move(s, p, c, hm, d, 1, m);
            lemma_slide_reversible(s, p, c, hm, d, 1, m);
        },
    }
}

/// A sliding move along `d` is reversible and starts at `p`.
proof fn lemma_slide_reversible(
    s: Seq<Option<Figure>>,
    p: Pos,
    c: Color,
    hm: bool,
    d: Dir,
    cap: int,
    m: Move,
)
    requires
        s.len() == 64,
        p.wf(),
        square_at(s, p) is Some,
        fig_at(s, p).color_spec() == c,
        fig_at(s, p).has_moved_spec() == hm,
        slide_move(s, p, c, hm, d, cap, m),
    ensures
        reversible(s, m),
        m.from_spec() == p,
        m is Normal || m is Take,
{
    let k = choose|k: int| 1 <= k <= cap && slide_move_at(s, p, c, hm, d, k, m);
    lemma_ray_linear(p, d, k);
    let f = ray_file(p, d, k);
    let r = ray_rank(p, d, k);
    if file_delta(d) == 1 {
        assert(k * file_delta(d) == k) by (nonlinear_arith)
            requires file_delta(d) == 1;
        assert(f != p.file as int);
    } else if file_delta(d) == -1 {
        assert(k * file_delta(d) == -k) by (nonlinear_arith)
            requires file_delta(d) == -1;
        assert(f != p.file as int);
    } else {
        assert(rank_delta(d) == 1 || rank_delta(d) == -1);
        if rank_delta(d) == 1 {
            assert(k * rank_delta(d) == k) by (nonlinear_arith)
                requires rank_delta(d) == 1;
        } else {
            assert(k * rank_delta(d) == -k) by (nonlinear_arith)
                requires rank_delta(d) == -1;
        }
        assert(r != p.rank as int);
    }
    lemma_landing_reversible(s, p, c, hm, f, r, m);
}

/// Walks the ray from `pos` along `dir` (a single step for the king),
/// pushing a plain move for each empty square and stopping at the first
/// occupied square, which yields a capture only when enemy-held.
fn push_line_moves(
    board: &Board,
    pos: Pos,
    color: Color,
    has_moved: bool,
    dir: Dir,
    single: bool,
    moves: &mut Vec<Move>,
)
    requires
        board.wf(),
        pos.wf(),
    ensures
        forall|m: Move|
            #![trigger final(moves)@.contains(m)]
            final(moves)@.contains(m) <==> old(moves)@.contains(m) || slide_move(
                board@,
                pos,
                color,
                has_moved,
                dir,
                if single {
                    1int
                } else {
                    7int
                },
                m,
            ),
{
    let ghost orig = moves@;
    let ghost s = board@;
    let cap: usize = if single {
        1
    } else {
        7
    };
    let mut cur = pos;
    let mut k: usize = 0;
    let mut done = false;
    while k < cap && !done
        invariant
            board.wf(),
            board@ == s,
            pos.wf(),
            k <= cap,
            cap == if single {
                1int
            } else {
                7int
            },
            !done ==> cur.wf(),
            !done ==> cur.file as int == ray_file(pos, dir, k as int),
            !done ==> cur.rank as int == ray_rank(pos, dir, k as int),
            !done ==> forall|j: int|
                1 <= j <= k ==> in_bounds(#[trigger] ray_file(pos, dir, j), ray_rank(pos, dir, j))
                    && square(s, ray_file(pos, dir, j), ray_rank(pos, dir, j)) is None,
            done ==> forall|m: Move, j: int|
                k < j <= cap ==> !slide_move_at(s, pos, color, has_moved, dir, j, m),
            forall|m: Move|
                #![trigger moves@.contains(m)]
                moves@.contains(m) <==> orig.contains(m) || (exists|j: int|
                    1 <= j <= k && slide_move_at(s, pos, color, has_moved, dir, j, m)),
        decreases cap - k, if done {
            0int
        } else {
            1int
        },
    {
        let step = cur.move_dir(dir);
        proof {
            assert(ray_file(pos, dir, k as int + 1) == cur.file + file_delta(dir));
            assert(ray_rank(pos, dir, k as int + 1) == cur.rank + rank_delta(dir));
        }
        match step {
            Err(_) => {
                done = true;
                proof {
                    assert forall|m: Move, j: int|
                        k < j <= cap implies !slide_move_at(
                        s,
                        pos,
                        color,
                        has_moved,
                        dir,
                        j,
                        m,
                    ) by {
                        if slide_move_at(s, pos, color, has_moved, dir, j, m) {
                            if j == k as int + 1 {
                                assert(!in_bounds(ray_file(pos, dir, j), ray_rank(pos, dir, j)));
                            } else {
                                assert(in_bounds(
                                    ray_file(pos, dir, k as int + 1),
                                    ray_rank(pos, dir, k as int + 1),
                                ));
                            }
                        }
                    }
                }
            },
            Ok(next) => {
                let ghost kn = k as int + 1;
                let ghost before = moves@;
                proof {
                    assert(next == shifted(cur, dir));
                    assert(next == pos_from(ray_file(pos, dir, kn), ray_rank(pos, dir, kn)));
                    assert(sq_p(next) == sq(ray_file(pos, dir, kn), ray_rank(pos, dir, kn)));
                }
                let occupant = board.fields_get(next);
                match occupant {
                    Some(fig) => {
                        proof {
                            assert(square(s, ray_file(pos, dir, kn), ray_rank(pos, dir, kn))
                                == Some(fig));
                        }
                        if fig.color() != color {
                            moves.push(Move::Take(pos, next, fig, has_moved));
                            proof {
                                assert(slide_move_at(
                                    s,
                                    pos,
                                    color,
                                    has_moved,
                                    dir,
                                    kn,
                                    Move::Take(pos, next, fig, has_moved),
                                ));
                            }
                        }
                        proof {
                            assert forall|m: Move, j: int|
                                kn < j <= cap implies !slide_move_at(
                                s,
                                pos,
                                color,
                                has_moved,
                                dir,
                                j,
                                m,
                            ) by {
                                if slide_move_at(s, pos, color, has_moved, dir, j, m) {
                                    assert(square(s, ray_file(pos, dir, kn), ray_rank(pos, dir, kn))
                                        is None);
                                }
                            }
                        }
                        k = k + 1;
                        done = true;
                        proof {
                            assert forall|m: Move|
                                #![trigger moves@.contains(m)]
                                moves@.contains(m) <==> orig.contains(m) || (exists|j: int|
                                    1 <= j <= kn && slide_move_at(
                                        s,
                                        pos,
                                        color,
                                        has_moved,
                                        dir,
                                        j,
                                        m,
                                    )) by {
                                if before.contains(m) {
                                    assert(before.contains(m) <==> orig.contains(m) || (exists|
                                        j: int,
                                    |
                                        1 <= j <= kn - 1 && slide_move_at(
                                            s,
                                            pos,
                                            color,
                                            has_moved,
                                            dir,
                                            j,
                                            m,
                                        )));
                                }
                                if exists|j: int|
                                    1 <= j <= kn && slide_move_at(
                                        s,
                                        pos,
                                        color,
                                        has_moved,
                                        dir,
                                        j,
                                        m,
                                    ) {
                                    let j = choose|j: int|
                                        1 <= j <= kn && slide_move_at(
                                            s,
                                            pos,
                                            color,
                                            has_moved,
                                            dir,
                                            j,
                                            m,
                                        );
                                    if j < kn {
                                        assert(before.contains(m) <==> orig.contains(m) || (exists|
                                            j2: int,
                                        |
                                            1 <= j2 <= kn - 1 && slide_move_at(
                                                s,
                                                pos,
                                                color,
                                                has_moved,
                                                dir,
                                                j2,
                                                m,
                                            )));
                                        assert(moves@.contains(m));
                                    } else {
                                        assert(m == Move::Take(pos, next, fig, has_moved));
                                        assert(moves@.contains(m));
                                    }
                                }
                            }
                        }
                    },
                    None => {
                        moves.push(Move::Normal(pos, next, has_moved));
                        proof {
                            assert(slide_move_at(
                                s,
                                pos,
                                color,
                                has_moved,
                                dir,
                                kn,
                                Move::Normal(pos, next, has_moved),
                            ));
                        }
                        k = k + 1;
                        cur = next;
                        proof {
                            assert forall|m: Move|
                                #![trigger moves@.contains(m)]
                                moves@.contains(m) <==> orig.contains(m) || (exists|j: int|
                                    1 <= j <= kn && slide_move_at(
                                        s,
                                        pos,
                                        color,
                                        has_moved,
                                        dir,
                                        j,
                                        m,
                                    )) by {
                                if before.contains(m) {
                                    assert(before.contains(m) <==> orig.contains(m) || (exists|
                                        j: int,
                                    |
                                        1 <= j <= kn - 1 && slide_move_at(
                                            s,
                                            pos,
                                            color,
                                            has_moved,
                                            dir,
                                            j,
                                            m,
                                        )));
                                }
                                if exists|j: int|
                                    1 <= j <= kn && slide_move_at(
                                        s,
                                        pos,
                                        color,
                                        has_moved,
                                        dir,
                                        j,
                                        m,
                                    ) {
                                    let j = choose|j: int|
                                        1 <= j <= kn && slide_move_at(
                                            s,
                                            pos,
                                            color,
                                            has_moved,
                                            dir,
                                            j,
                                            m,
                                        );
                                    if j < kn {
                                        assert(before.contains(m) <==> orig.contains(m) || (exists|
                                            j2: int,
                                        |
                                            1 <= j2 <= kn - 1 && slide_move_at(
                                                s,
                                                pos,
                                                color,
                                                has_moved,
                                                dir,
                                                j2,
                                                m,
                                            )));
                                        assert(moves@.contains(m));
                                    } else {
                                        assert(m == Move::Normal(pos, next, has_moved));
                                        assert(moves@.contains(m));
                                    }
                                }
                            }
                        }
                    },
                }
            },
        }
    }
    proof {
        let capi: int = if single {
            1int
        } else {
            7int
        };
        assert forall|m: Move|
            #![trigger moves@.contains(m)]
            moves@.contains(m) <==> orig.contains(m) || slide_move(
                s,
                pos,
                color,
                has_moved,
                dir,
                capi,
                m,
            ) by {
            assert(moves@.contains(m) <==> orig.contains(m) || (exists|j: int|
                1 <= j <= k && slide_move_at(s, pos, color, has_moved, dir, j, m)));
            if slide_move(s, pos, color, has_moved, dir, capi, m) {
                let j = choose|j: int|
                    1 <= j <= capi && slide_move_at(s, pos, color, has_moved, dir, j, m);
                assert(j <= k);
                assert(slide_move_at(s, pos, color, has_moved, dir, j, m));
                assert(exists|j2: int|
                    1 <= j2 <= k && slide_move_at(s, pos, color, has_moved, dir, j2, m));
            }
            if moves@.contains(m) && !orig.contains(m) {
                let j = choose|j: int|
                    1 <= j <= k && slide_move_at(s, pos, color, has_moved, dir, j, m);
                assert(slide_move_at(s, pos, color, has_moved, dir, j, m));
                assert(1 <= j <= capi);
                assert(slide_move(s, pos, color, has_moved, dir, capi, m));
            }
        }
    }
}

/// Tries the knight jump: one step along the straight direction `d`,
/// then one along its diagonal neighbour `e`; pushes the landing move if
/// both steps stay on the board and the landing square is not own-held.
fn push_jump_move(
    board: &Board,
    pos: Pos,
    color: Color,
    has_moved: bool,
    d: Dir,
    e: Dir,
    moves: &mut Vec<Move>,
)
    requires
        board.wf(),
        pos.wf(),
        is_orthogonal(d),
        is_diag_of(d, e),
    ensures
        forall|m: Move|
            #![trigger final(moves)@.contains(m)]
            final(moves)@.contains(m) <==> old(moves)@.contains(m) || knight_jump(
                board@,
                pos,
                color,
                has_moved,
                d,
                e,
                m,
            ),
{
    let ghost s = board@;
    let ghost orig = moves@;
    let ghost f1 = pos.file + file_delta(d);
    let ghost r1 = pos.rank + rank_delta(d);
    let ghost f = f1 + file_delta(e);
    let ghost r = r1 + rank_delta(e);
    match pos.move_dir(d) {
        Err(_) => {
            proof {
                assert(!in_bounds(f1, r1));
            }
        },
        Ok(one_moved_pos) => {
            match one_moved_pos.move_dir(e) {
                Err(_) => {
                    proof {
                        assert(!in_bounds(f, r));
                    }
                },
                Ok(jump_pos) => {
                    proof {
                        assert(jump_pos == pos_from(f, r));
                        assert(sq_p(jump_pos) == sq(f, r));
                    }
                    match board.fields_get(jump_pos) {
                        Some(attacked_fig) => {
                            if attacked_fig.color() != color {
                                moves.push(Move::Take(pos, jump_pos, attacked_fig, has_moved));
                                proof {
                                    assert(knight_jump(
                                        s,
                                        pos,
                                        color,
                                        has_moved,
                                        d,
                                        e,
                                        Move::Take(pos, jump_pos, attacked_fig, has_moved),
                                    ));
                                }
                            }
                        },
                        None => {
                            moves.push(Move::Normal(pos, jump_pos, has_moved));
                            proof {
                                assert(knight_jump(
                                    s,
                                    pos,
                                    color,
                                    has_moved,
                                    d,
                                    e,
                                    Move::Normal(pos, jump_pos, has_moved),
                                ));
                            }
                        },
                    }
                },
            }
        },
    }
}

/// Pushes the pawn's moves: a single advance onto an empty square, the
/// double advance for a pawn that has not moved, and the two diagonal
/// captures.
fn push_pawn_moves(board: &Board, pos: Pos, color: Color, has_moved: bool, moves: &mut Vec<Move>)
    requires
        board.wf(),
        pos.wf(),
    ensures
        forall|m: Move|
            #![trigger final(moves)@.contains(m)]
            final(moves)@.contains(m) <==> old(moves)@.contains(m) || pawn_move(
                board@,
                pos,
                color,
                has_moved,
                m,
            ),
{
    let ghost s = board@;
    let ghost orig = moves@;
    match pos.advance(color) {
        Err(_) => {
            proof {
                assert(!in_bounds(pos.file as int, pos.rank + rank_delta(forward_dir(color))));
                assert forall|m: Move| !pawn_move(s, pos, color, has_moved, m) by {
                    if exists|side: Dir| pawn_capture_side(s, pos, color, has_moved, side, m) {
                        let side = choose|side: Dir|
                            pawn_capture_side(s, pos, color, has_moved, side, m);
                        assert(!in_bounds(
                            pos.file + file_delta(side),
                            pos.rank + rank_delta(forward_dir(color)),
                        ));
                    }
                }
            }
        },
        Ok(forward_pos) => {
            proof {
                assert(forward_pos == pos_from(
                    pos.file as int,
                    pos.rank + rank_delta(forward_dir(color)),
                ));
                assert(sq_p(forward_pos) == sq(
                    pos.file as int,
                    pos.rank + rank_delta(forward_dir(color)),
                ));
            }
            if board.fields_get(forward_pos).is_none() {
                moves.push(Move::Normal(pos, forward_pos, has_moved));
                proof {
                    assert(pawn_single(
                        s,
                        pos,
                        color,
                        has_moved,
                        Move::Normal(pos, forward_pos, has_moved),
                    ));
                }
                if !has_moved {
                    match forward_pos.advance(color) {
                        Ok(double_forward_pos) => {
                            proof {
                                assert(double_forward_pos == pos_from(
                                    pos.file as int,
                                    pos.rank + 2 * rank_delta(forward_dir(color)),
                                ));
                                assert(sq_p(double_forward_pos) == sq(
                                    pos.file as int,
                                    pos.rank + 2 * rank_delta(forward_dir(color)),
                                ));
                            }
                            if board.fields_get(double_forward_pos).is_none() {
                                moves.push(Move::Normal(pos, double_forward_pos, has_moved));
                                proof {
                                    assert(pawn_double(
                                        s,
                                        pos,
                                        color,
                                        has_moved,
                                        Move::Normal(pos, double_forward_pos, has_moved),
                                    ));
                                }
                            }
                        },
                        Err(_) => {
                            proof {
                                assert(!in_bounds(
                                    pos.file as int,
                                    pos.rank + 2 * rank_delta(forward_dir(color)),
                                ));
                            }
                        },
                    }
                }
            }
            proof {
                assert forall|m: Move|
                    #![trigger moves@.contains(m)]
                    moves@.contains(m) <==> orig.contains(m) || pawn_single(
                        s,
                        pos,
                        color,
                        has_moved,
                        m,
                    ) || pawn_double(s, pos, color, has_moved, m) by {}
            }
            let ghost mid = moves@;
            match forward_pos.move_dir(Dir::Left) {
                Ok(attack_pos) => {
                    proof {
                        assert(attack_pos == pos_from(
                            pos.file + file_delta(Dir::Left),
                            pos.rank + rank_delta(forward_dir(color)),
                        ));
                        assert(sq_p(attack_pos) == sq(
                            pos.file + file_delta(Dir::Left),
                            pos.rank + rank_delta(forward_dir(color)),
                        ));
                    }
                    let new_field = board.fields_get(attack_pos);
                    match new_field {
                        Some(attacked_fig) => {
                            if attacked_fig.color() != color {
                                moves.push(Move::Take(pos, attack_pos, attacked_fig, has_moved));
                                proof {
                                    assert(pawn_capture_side(
                                        s,
                                        pos,
                                        color,
                                        has_moved,
                                        Dir::Left,
                                        Move::Take(pos, attack_pos, attacked_fig, has_moved),
                                    ));
                                }
                            }
                        },
                        None => {},
                    }
                },
                Err(_) => {
                    proof {
                        assert(!in_bounds(
                            pos.file + file_delta(Dir::Left),
                            pos.rank + rank_delta(forward_dir(color)),
                        ));
                    }
                },
            }
            proof {
                assert forall|m: Move|
                    #![trigger moves@.contains(m)]
                    moves@.contains(m) <==> mid.contains(m) || pawn_capture_side(
                        s,
                        pos,
                        color,
                        has_moved,
                        Dir::Left,
                        m,
                    ) by {}
            }
            let ghost mid2 = moves@;
            match forward_pos.move_dir(Dir::Right) {
                Ok(attack_pos) => {
                    proof {
                        assert(attack_pos == pos_from(
                            pos.file + file_delta(Dir::Right),
                            pos.rank + rank_delta(forward_dir(color)),
                        ));
                        assert(sq_p(attack_pos) == sq(
                            pos.file + file_delta(Dir::Right),
                            pos.rank + rank_delta(forward_dir(color)),
                        ));
                    }
                    let new_field = board.fields_get(attack_pos);
                    match new_field {
                        Some(attacked_fig) => {
                            if attacked_fig.color() != color {
                                moves.push(Move::Take(pos, attack_pos, attacked_fig, has_moved));
                                proof {
                                    assert(pawn_capture_side(
                                        s,
                                        pos,
                                        color,
                                        has_moved,
                                        Dir::Right,
                                        Move::Take(pos, attack_pos, attacked_fig, has_moved),
                                    ));
                                }
                            }
                        },
                        None => {},
                    }
                },
                Err(_) => {
                    proof {
                        assert(!in_bounds(
                            pos.file + file_delta(Dir::Right),
                            pos.rank + rank_delta(forward_dir(color)),
                        ));
                    }
                },
            }
            proof {
                assert forall|m: Move|
                    #![trigger moves@.contains(m)]
                    moves@.contains(m) <==> mid2.contains(m) || pawn_capture_side(
                        s,
                        pos,
                        color,
                        has_moved,
                        Dir::Right,
                        m,
                    ) by {}
                assert forall|m: Move|
                    #![trigger moves@.contains(m)]
                    moves@.contains(m) <==> orig.contains(m) || pawn_move(
                        s,
                        pos,
                        color,
                        has_moved,
                        m,
                    ) by {
                    if exists|side: Dir| pawn_capture_side(s, pos, color, has_moved, side, m) {
                        let side = choose|side: Dir|
                            pawn_capture_side(s, pos, color, has_moved, side, m);
                        assert(side == Dir::Left || side == Dir::Right);
                    }
                }
            }
        },
    }
}

/// Walks every direction in `dirs` from `pos`, accumulating that
/// direction's sliding moves (single-step ones for the king).
fn push_moves_line(
    board: &Board,
    pos: Pos,
    color: Color,
    has_moved: bool,
    dirs: &Vec<Dir>,
    single: bool,
    moves: &mut Vec<Move>,
)
    requires
        board.wf(),
        pos.wf(),
    ensures
        forall|m: Move|
            #![trigger final(moves)@.contains(m)]
            final(moves)@.contains(m) <==> old(moves)@.contains(m) || (exists|i: int|
                0 <= i < dirs@.len() && slide_move(
                    board@,
                    pos,
                    color,
                    has_moved,
                    dirs@[i],
                    if single {
                        1int
                    } else {
                        7int
                    },
                    m,
                )),
{
    let ghost s = board@;
    let ghost orig = moves@;
    let ghost cap: int = if single {
        1int
    } else {
        7int
    };
    let mut di: usize = 0;
    while di < dirs.len()
        invariant
            board.wf(),
            board@ == s,
            pos.wf(),
            di <= dirs@.len(),
            cap == if single {
                1int
            } else {
                7int
            },
            forall|m: Move|
                #![trigger moves@.contains(m)]
                moves@.contains(m) <==> orig.contains(m) || (exists|i: int|
                    0 <= i < di && slide_move(s, pos, color, has_moved, dirs@[i], cap, m)),
        decreases dirs@.len() - di,
    {
        let dir = dirs[di];
        let ghost before = moves@;
        push_line_moves(board, pos, color, has_moved, dir, single, moves);
        proof {
            assert forall|m: Move|
                #![trigger moves@.contains(m)]
                moves@.contains(m) <==> orig.contains(m) || (exists|i: int|
                    0 <= i < di + 1 && slide_move(s, pos, color, has_moved, dirs@[i], cap, m)) by {
                if before.contains(m) {
                    assert(before.contains(m) <==> orig.contains(m) || (exists|i: int|
                        0 <= i < di && slide_move(s, pos, color, has_moved, dirs@[i], cap, m)));
                }
                if moves@.contains(m) && !before.contains(m) {
                    assert(slide_move(s, pos, color, has_moved, dirs@[di as int], cap, m));
                }
                if exists|i: int|
                    0 <= i < di + 1 && slide_move(s, pos, color, has_moved, dirs@[i], cap, m) {
                    let i = choose|i: int|
                        0 <= i < di + 1 && slide_move(s, pos, color, has_moved, dirs@[i], cap, m);
                    if i < di {
                        assert(before.contains(m) <==> orig.contains(m) || (exists|i2: int|
                            0 <= i2 < di && slide_move(s, pos, color, has_moved, dirs@[i2], cap, m)));
                        assert(before.contains(m));
                        assert(moves@.contains(m));
                    } else {
                        assert(slide_move(s, pos, color, has_moved, dir, cap, m));
                        assert(moves@.contains(m));
                    }
                }
            }
        }
        di = di + 1;
    }
}

/// The request (from, to) is satisfiable: `from` holds a piece of the
/// side to move with a legal move landing on `to`.
pub open spec fn move_allowed(s: Seq<Option<Figure>>, turn: Color, from: Pos, to: Pos) -> bool {
    square_at(s, from) is Some && fig_at(s, from).color_spec() == turn && (exists|m: Move|
        legal_move(s, turn, from, m) && m.to_spec() == to)
}

/// The turn state machine: the board plus the colour to move.  The
/// active colour alternates strictly after every accepted move; a
/// rejected move leaves the state unchanged.
pub struct ChessState {
    pub board: Board,
    pub turn: Color,
}

impl ChessState {
    /// The board grid is well formed.
    pub open spec fn wf(self) -> bool {
        self.board.wf()
    }

    /// A fresh game: standard initial placement, White to move.
    pub fn new() -> (game: ChessState)
        ensures
            game.wf(),
            game.turn == Color::White,
            forall|f: int, r: int|
                in_bounds(f, r) ==> square(game.board@, f, r) == crate::board::initial_square(f, r),
    {
        ChessState { board: Board::new(), turn: Color::White }
    }

    /// The raw moves of the piece on `pos`, and with `check_for_mate`
    /// only those that do not leave the side to move in check (the
    /// self-check filter speculatively applies each candidate, tests for
    /// check, and reverts the board before returning).
    pub fn possible_moves(&mut self, pos: Pos, check_for_mate: bool) -> (moves: Vec<Move>)
        requires
            old(self).wf(),
            pos.wf(),
            square_at(old(self).board@, pos) is Some,
        ensures
            final(self).wf(),
            final(self).board@ == old(self).board@,
            final(self).turn == old(self).turn,
            forall|m: Move|
                #![trigger moves@.contains(m)]
                moves@.contains(m) <==> piece_move(old(self).board@, pos, m) && (check_for_mate
                    ==> !in_check(apply_spec(old(self).board@, m), old(self).turn)),
        decreases (if check_for_mate {
            3int
        } else {
            0int
        }),
    {
        let ghost s = self.board@;
        let ghost t = self.turn;
        let figure = match self.board.fields_get(pos) {
            Some(f) => f,
            None => {
                proof {
                    assert(false);
                }
                Figure::Pawn(Color::White, false)
            },
        };
        let color = figure.color();
        let has_moved = figure.has_moved();
        let mut moves: Vec<Move> = Vec::new();
        proof {
            assert(figure == fig_at(s, pos));
        }
        match figure {
            Figure::Pawn(_, _) => {
                push_pawn_moves(&self.board, pos, color, has_moved, &mut moves);
            },
            Figure::Rook(_, _) => {
                let mut dirs: Vec<Dir> = Vec::new();
                dirs.push(Dir::Left);
                dirs.push(Dir::Right);
                dirs.push(Dir::Up);
                dirs.push(Dir::Down);
                proof {
                    assert(dirs@ =~= seq![Dir::Left, Dir::Right, Dir::Up, Dir::Down]);
                }
                push_moves_line(&self.board, pos, color, has_moved, &dirs, false, &mut moves);
                proof {
                    assert forall|m: Move|
                        #![trigger moves@.contains(m)]
                        moves@.contains(m) <==> piece_move(s, pos, m) by {
                        if moves@.contains(m) {
                            let i = choose|i: int|
                                0 <= i < dirs@.len() && slide_move(
                                    s,
                                    pos,
                                    color,
                                    has_moved,
                                    dirs@[i],
                                    7,
                                    m,
                                );
                            assert(slide_move(s, pos, color, has_moved, dirs@[i], 7, m));
                            assert(is_orthogonal(dirs@[i]));
                        }
                        if piece_move(s, pos, m) {
                            let d = choose|d: Dir|
                                is_orthogonal(d) && slide_move(s, pos, color, has_moved, d, 7, m);
                            if d == Dir::Left {
                                assert(slide_move(s, pos, color, has_moved, dirs@[0], 7, m));
                            } else if d == Dir::Right {
                                assert(slide_move(s, pos, color, has_moved, dirs@[1], 7, m));
                            } else if d == Dir::Up {
                                assert(slide_move(s, pos, color, has_moved, dirs@[2], 7, m));
                            } else {
                                assert(slide_move(s, pos, color, has_moved, dirs@[3], 7, m));
                            }
                        }
                    }
                }
            },
            Figure::Knight(_, _) => {
                let dirs = [Dir::Left, Dir::Right, Dir::Up, Dir::Down];
                let mut di: usize = 0;
                while di < 4
                    invariant
                        self.wf(),
                        self.board@ == s,
                        self.turn == t,
                        pos.wf(),
                        di <= 4,
                        figure == fig_at(s, pos),
                        color == figure.color_spec(),
                        has_moved == figure.has_moved_spec(),
                        dirs@ =~= seq![Dir::Left, Dir::Right, Dir::Up, Dir::Down],
                        forall|m: Move|
                            #![trigger moves@.contains(m)]
                            moves@.contains(m) <==> (exists|i: int, e: Dir|
                                0 <= i < di && knight_jump(s, pos, color, has_moved, dirs@[i], e, m)),
                    decreases 4 - di,
                {
                    let dir = dirs[di];
                    let ghost before = moves@;
                    let diagonals = dir.get_diagonals();
                    proof {
                        assert(is_orthogonal(dir));
                        assert(diagonals@[0] == diagonals_spec(dir)[0]);
                        assert(diagonals@[1] == diagonals_spec(dir)[1]);
                        assert(is_diag_of(dir, diagonals@[0]));
                        assert(is_diag_of(dir, diagonals@[1]));
                    }
                    let e0 = diagonals[0];
                    let e1 = diagonals[1];
                    push_jump_move(&self.board, pos, color, has_moved, dir, e0, &mut moves);
                    push_jump_move(&self.board, pos, color, has_moved, dir, e1, &mut moves);
                    proof {
                        assert forall|m: Move|
                            #![trigger moves@.contains(m)]
                            moves@.contains(m) <==> (exists|i: int, e: Dir|
                                0 <= i < di + 1 && knight_jump(
                                    s,
                                    pos,
                                    color,
                                    has_moved,
                                    dirs@[i],
                                    e,
                                    m,
                                )) by {
                            if before.contains(m) {
                                assert(before.contains(m) <==> (exists|i: int, e: Dir|
                                    0 <= i < di && knight_jump(
                                        s,
                                        pos,
                                        color,
                                        has_moved,
                                        dirs@[i],
                                        e,
                                        m,
                                    )));
                            }
                            if exists|i: int, e: Dir|
                                0 <= i < di + 1 && knight_jump(
                                    s,
                                    pos,
                                    color,
                                    has_moved,
                                    dirs@[i],
                                    e,
                                    m,
                                ) {
                                let (i, e) = choose|i: int, e: Dir|
                                    0 <= i < di + 1 && knight_jump(
                                        s,
                                        pos,
                                        color,
                                        has_moved,
                                        dirs@[i],
                                        e,
                                        m,
                                    );
                                if i < di {
                                    assert(before.contains(m) <==> (exists|i2: int, e2: Dir|
                                        0 <= i2 < di && knight_jump(
                                            s,
                                            pos,
                                            color,
                                            has_moved,
                                            dirs@[i2],
                                            e2,
                                            m,
                                        )));
                                    assert(before.contains(m));
                                    assert(moves@.contains(m));
                                } else {
                                    assert(knight_jump(s, pos, color, has_moved, dir, e, m));
                                    assert(is_diag_of(dir, e));
                                    assert(e == diagonals_spec(dir)[0] || e == diagonals_spec(
                                        dir,
                                    )[1]);
                                    assert(moves@.contains(m));
                                }
                            }
                        }
                    }
                    di = di + 1;
                }
                proof {
                    assert forall|m: Move|
                        #![trigger moves@.contains(m)]
                        moves@.contains(m) <==> piece_move(s, pos, m) by {
                        if moves@.contains(m) {
                            let (i, e) = choose|i: int, e: Dir|
                                0 <= i < 4 && knight_jump(s, pos, color, has_moved, dirs@[i], e, m);
                            assert(knight_jump(s, pos, color, has_moved, dirs@[i], e, m));
                            assert(knight_move(s, pos, color, has_moved, m));
                        }
                        if piece_move(s, pos, m) {
                            let (d, e) = choose|d: Dir, e: Dir|
                                knight_jump(s, pos, color, has_moved, d, e, m);
                            assert(is_orthogonal(d));
                            assert(d == dirs@[0] || d == dirs@[1] || d == dirs@[2] || d
                                == dirs@[3]);
                            assert(exists|i: int, e2: Dir|
                                0 <= i < 4 && knight_jump(s, pos, color, has_moved, dirs@[i], e2, m));
                        }
                    }
                }
            },
            Figure::Bishop(_, _) => {
                let mut dirs: Vec<Dir> = Vec::new();
                dirs.push(Dir::LeftUp);
                dirs.push(Dir::LeftDown);
                dirs.push(Dir::RightUp);
                dirs.push(Dir::RightDown);
                proof {
                    assert(dirs@ =~= seq![Dir::LeftUp, Dir::LeftDown, Dir::RightUp, Dir::RightDown]);
                }
                push_moves_line(&self.board, pos, color, has_moved, &dirs, false, &mut moves);
                proof {
                    assert forall|m: Move|
                        #![trigger moves@.contains(m)]
                        moves@.contains(m) <==> piece_move(s, pos, m) by {
                        if moves@.contains(m) {
                            let i = choose|i: int|
                                0 <= i < dirs@.len() && slide_move(
                                    s,
                                    pos,
                                    color,
                                    has_moved,
                                    dirs@[i],
                                    7,
                                    m,
                                );
                            assert(slide_move(s, pos, color, has_moved, dirs@[i], 7, m));
                            assert(!is_orthogonal(dirs@[i]));
                        }
                        if piece_move(s, pos, m) {
                            let d = choose|d: Dir|
                                !is_orthogonal(d) && slide_move(s, pos, color, has_moved, d, 7, m);
                            if d == Dir::LeftUp {
                                assert(slide_move(s, pos, color, has_moved, dirs@[0], 7, m));
                            } else if d == Dir::LeftDown {
                                assert(slide_move(s, pos, color, has_moved, dirs@[1], 7, m));
                            } else if d == Dir::RightUp {
                                assert(slide_move(s, pos, color, has_moved, dirs@[2], 7, m));
                            } else {
                                assert(slide_move(s, pos, color, has_moved, dirs@[3], 7, m));
                            }
                        }
                    }
                }
            },
            Figure::Queen(_, _) => {
                let mut dirs: Vec<Dir> = Vec::new();
                dirs.push(Dir::Left);
                dirs.push(Dir::Right);
                dirs.push(Dir::Up);
                dirs.push(Dir::Down);
                dirs.push(Dir::LeftUp);
                dirs.push(Dir::LeftDown);
                dirs.push(Dir::RightUp);
                dirs.push(Dir::RightDown);
                proof {
                    assert(dirs@ =~= seq![Dir::Left, Dir::Right, Dir::Up, Dir::Down, Dir::LeftUp, Dir::LeftDown, Dir::RightUp, Dir::RightDown]);
                }
                push_moves_line(&self.board, pos, color, has_moved, &dirs, false, &mut moves);
                proof {
                    assert forall|m: Move|
                        #![trigger moves@.contains(m)]
                        moves@.contains(m) <==> piece_move(s, pos, m) by {
                        if moves@.contains(m) {
                            let i = choose|i: int|
                                0 <= i < dirs@.len() && slide_move(
                                    s,
                                    pos,
                                    color,
                                    has_moved,
                                    dirs@[i],
                                    7,
                                    m,
                                );
                            assert(slide_move(s, pos, color, has_moved, dirs@[i], 7, m));
                        }
                        if piece_move(s, pos, m) {
                            let d = choose|d: Dir|
                                slide_move(s, pos, color, has_moved, d, 7, m);
                            if d == Dir::Left {
                                assert(slide_move(s, pos, color, has_moved, dirs@[0], 7, m));
                            } else if d == Dir::Right {
                                assert(slide_move(s, pos, color, has_moved, dirs@[1], 7, m));
                            } else if d == Dir::Up {
                                assert(slide_move(s, pos, color, has_moved, dirs@[2], 7, m));
                            } else if d == Dir::Down {
                                assert(slide_move(s, pos, color, has_moved, dirs@[3], 7, m));
                            } else if d == Dir::LeftUp {
                                assert(slide_move(s, pos, color, has_moved, dirs@[4], 7, m));
                            } else if d == Dir::LeftDown {
                                assert(slide_move(s, pos, color, has_moved, dirs@[5], 7, m));
                            } else if d == Dir::RightUp {
                                assert(slide_move(s, pos, color, has_moved, dirs@[6], 7, m));
                            } else {
                                assert(slide_move(s, pos, color, has_moved, dirs@[7], 7, m));
                            }
                        }
                    }
                }
            },
            Figure::King(_, _) => {
                let mut dirs: Vec<Dir> = Vec::new();
                dirs.push(Dir::Left);
                dirs.push(Dir::Right);
                dirs.push(Dir::Up);
                dirs.push(Dir::Down);
                dirs.push(Dir::LeftUp);
                dirs.push(Dir::LeftDown);
                dirs.push(Dir::RightUp);
                dirs.push(Dir::RightDown);
                proof {
                    assert(dirs@ =~= seq![Dir::Left, Dir::Right, Dir::Up, Dir::Down, Dir::LeftUp, Dir::LeftDown, Dir::RightUp, Dir::RightDown]);
                }
                push_moves_line(&self.board, pos, color, has_moved, &dirs, true, &mut moves);
                proof {
                    assert forall|m: Move|
                        #![trigger moves@.contains(m)]
                        moves@.contains(m) <==> piece_move(s, pos, m) by {
                        if moves@.contains(m) {
                            let i = choose|i: int|
                                0 <= i < dirs@.len() && slide_move(
                                    s,
                                    pos,
                                    color,
                                    has_moved,
                                    dirs@[i],
                                    1,
                                    m,
                                );
                            assert(slide_move(s, pos, color, has_moved, dirs@[i], 1, m));
                        }
                        if piece_move(s, pos, m) {
                            let d = choose|d: Dir|
                                slide_move(s, pos, color, has_moved, d, 1, m);
                            if d == Dir::Left {
                                assert(slide_move(s, pos, color, has_moved, dirs@[0], 1, m));
                            } else if d == Dir::Right {
                                assert(slide_move(s, pos, color, has_moved, dirs@[1], 1, m));
                            } else if d == Dir::Up {
                                assert(slide_move(s, pos, color, has_moved, dirs@[2], 1, m));
                            } else if d == Dir::Down {
                                assert(slide_move(s, pos, color, has_moved, dirs@[3], 1, m));
                            } else if d == Dir::LeftUp {
                                assert(slide_move(s, pos, color, has_moved, dirs@[4], 1, m));
                            } else if d == Dir::LeftDown {
                                assert(slide_move(s, pos, color, has_moved, dirs@[5], 1, m));
                            } else if d == Dir::RightUp {
                                assert(slide_move(s, pos, color, has_moved, dirs@[6], 1, m));
                            } else {
                                assert(slide_move(s, pos, color, has_moved, dirs@[7], 1, m));
                            }
                        }
                    }
                }
            },
        }
        if check_for_mate {
            let mut filtered: Vec<Move> = Vec::new();
            let mut i: usize = 0;
            while i < moves.len()
                invariant
                    check_for_mate,
                    self.wf(),
                    self.board@ == s,
                    self.turn == t,
                    pos.wf(),
                    square_at(s, pos) is Some,
                    i <= moves@.len(),
                    forall|m: Move|
                        #![trigger moves@.contains(m)]
                        moves@.contains(m) <==> piece_move(s, pos, m),
                    forall|m: Move|
                        #![trigger filtered@.contains(m)]
                        filtered@.contains(m) <==> (exists|j: int|
                            0 <= j < i && moves@[j] == m) && !in_check(apply_spec(s, m), t),
                decreases moves@.len() - i,
            {
                let mv = moves[i];
                proof {
                    assert(moves@.contains(mv));
                    lemma_piece_move_reversible(s, pos, mv);
                }
                let ghost before = filtered@;
                let keeps = self.check_move_for_mate(mv);
                if keeps {
                    filtered.push(mv);
                }
                proof {
                    assert forall|m: Move|
                        #![trigger filtered@.contains(m)]
                        filtered@.contains(m) <==> (exists|j: int|
                            0 <= j < i + 1 && moves@[j] == m) && !in_check(
                            apply_spec(s, m),
                            t,
                        ) by {
                        if before.contains(m) {
                            assert(before.contains(m) <==> (exists|j: int|
                                0 <= j < i && moves@[j] == m) && !in_check(apply_spec(s, m), t));
                        }
                        if (exists|j: int| 0 <= j < i + 1 && moves@[j] == m) && !in_check(
                            apply_spec(s, m),
                            t,
                        ) {
                            let j = choose|j: int| 0 <= j < i + 1 && moves@[j] == m;
                            if j < i {
                                assert(before.contains(m) <==> (exists|j2: int|
                                    0 <= j2 < i && moves@[j2] == m) && !in_check(
                                    apply_spec(s, m),
                                    t,
                                ));
                                assert(before.contains(m));
                                assert(filtered@.contains(m));
                            } else {
                                assert(m == mv);
                                assert(filtered@.contains(m));
                            }
                        }
                    }
                }
                i = i + 1;
            }
            proof {
                assert forall|m: Move|
                    #![trigger filtered@.contains(m)]
                    filtered@.contains(m) <==> piece_move(s, pos, m) && !in_check(
                        apply_spec(s, m),
                        t,
                    ) by {
                    assert(filtered@.contains(m) <==> (exists|j: int|
                        0 <= j < moves@.len() && moves@[j] == m) && !in_check(apply_spec(s, m), t));
                    if filtered@.contains(m) {
                        let j = choose|j: int| 0 <= j < moves@.len() && moves@[j] == m;
                        assert(moves@.contains(m));
                    }
                    if piece_move(s, pos, m) && !in_check(apply_spec(s, m), t) {
                        assert(moves@.contains(m));
                        let j = choose|j: int| 0 <= j < moves@.len() && moves@[j] == m;
                        assert(exists|j2: int| 0 <= j2 < moves@.len() && moves@[j2] == m);
                        assert(filtered@.contains(m));
                    }
                }
            }
            return filtered;
        }
        moves
    }

    /// Speculatively applies `mv`, tests whether the side to move would
    /// be in check, reverts the board, and returns true when the move is
    /// safe to keep.
    pub fn check_move_for_mate(&mut self, mv: Move) -> (r: bool)
        requires
            old(self).wf(),
            reversible(old(self).board@, mv),
        ensures
            final(self).wf(),
            final(self).board@ == old(self).board@,
            final(self).turn == old(self).turn,
            r == !in_check(apply_spec(old(self).board@, mv), old(self).turn),
        decreases 2int,
    {
        let ghost s = self.board@;
        proof {
            lemma_reversible_can_apply(s, mv);
        }
        // temporarily move the piece(s)...
        self.board.do_move(mv);
        // ...to check whether the mover's king could then be taken...
        let result = self.check_for_mate(self.turn);
        // ...and move the piece(s) back
        self.board.undo_move(mv);
        proof {
            lemma_reverse_round_trip(s, mv);
        }
        !result
    }

    /// Whether `color`'s king is capturable: scans every enemy piece's
    /// raw moves (without the self-check filter, to avoid recursing) for
    /// a capture of a king.
    pub fn check_for_mate(&mut self, color: Color) -> (r: bool)
        requires
            old(self).wf(),
        ensures
            final(self).wf(),
            final(self).board@ == old(self).board@,
            final(self).turn == old(self).turn,
            r == in_check(old(self).board@, color),
        decreases 1int,
    {
        let ghost s = self.board@;
        let ghost t = self.turn;
        let enemy = color.other();
        let mut file: usize = 1;
        while file <= 8
            invariant
                self.wf(),
                self.board@ == s,
                self.turn == t,
                s == old(self).board@,
                t == old(self).turn,
                1 <= file <= 9,
                enemy == color.other_spec(),
                forall|p: Pos| p.wf() && p.file < file ==> !attacks_king_from(s, color, p),
            decreases 9 - file,
        {
            let mut rank: usize = 1;
            while rank <= 8
                invariant
                    self.wf(),
                    self.board@ == s,
                    self.turn == t,
                    s == old(self).board@,
                    t == old(self).turn,
                    1 <= file <= 8,
                    1 <= rank <= 9,
                    enemy == color.other_spec(),
                    forall|p: Pos| p.wf() && p.file < file ==> !attacks_king_from(s, color, p),
                    forall|p: Pos|
                        p.wf() && p.file == file && p.rank < rank ==> !attacks_king_from(
                            s,
                            color,
                            p,
                        ),
                decreases 9 - rank,
            {
                let pos = Pos { file, rank };
                match self.board.fields_get(pos) {
                    Some(figure) => {
                        if figure.color() == enemy {
                            let mvs = self.possible_moves(pos, false);
                            let mut i: usize = 0;
                            while i < mvs.len()
                                invariant
                                    self.wf(),
                                    self.board@ == s,
                                    self.turn == t,
                                    s == old(self).board@,
                                    t == old(self).turn,
                                    pos.wf(),
                                    i <= mvs@.len(),
                                    enemy == color.other_spec(),
                                    square_at(s, pos) is Some,
                                    fig_at(s, pos).color_spec() == enemy,
                                    forall|m: Move|
                                        #![trigger mvs@.contains(m)]
                                        mvs@.contains(m) <==> piece_move(s, pos, m),
                                    forall|j: int| 0 <= j < i ==> !king_capture(mvs@[j]),
                                decreases mvs@.len() - i,
                            {
                                let mv = mvs[i];
                                match mv {
                                    Move::Take(_, _, attacked_fig, _) => {
                                        match attacked_fig {
                                            Figure::King(_, _) => {
                                                proof {
                                                    assert(mvs@.contains(mv));
                                                    assert(piece_move(s, pos, mv));
                                                    assert(king_capture(mv));
                                                    assert(attacks_king_from(s, color, pos));
                                                }
                                                return true;
                                            },
                                            _ => {},
                                        }
                                    },
                                    _ => {},
                                }
                                i = i + 1;
                            }
                            proof {
                                assert forall|m: Move|
                                    piece_move(s, pos, m) implies !king_capture(m) by {
                                    assert(mvs@.contains(m));
                                    let j = choose|j: int| 0 <= j < mvs@.len() && mvs@[j] == m;
                                    assert(!king_capture(mvs@[j]));
                                }
                                assert(!attacks_king_from(s, color, pos));
                            }
                        } else {
                            proof {
                                assert(!attacks_king_from(s, color, pos));
                            }
                        }
                    },
                    None => {
                        proof {
                            assert(!attacks_king_from(s, color, pos));
                        }
                    },
                }
                rank = rank + 1;
                proof {
                    assert forall|p: Pos|
                        p.wf() && p.file == file && p.rank < rank implies !attacks_king_from(
                        s,
                        color,
                        p,
                    ) by {
                        if p.rank < rank - 1 {
                        } else {
                            assert(p == pos);
                        }
                    }
                }
            }
            file = file + 1;
            proof {
                assert forall|p: Pos| p.wf() && p.file < file implies !attacks_king_from(
                    s,
                    color,
                    p,
                ) by {
                    if p.file < file - 1 {
                    } else {
                        assert(p.file == file - 1);
                    }
                }
            }
        }
        proof {
            if in_check(s, color) {
                let p = choose|p: Pos| attacks_king_from(s, color, p);
                assert(p.wf() && p.file < 9);
            }
        }
        false
    }

    /// Whether the side to move is currently in check.
    pub fn player_is_in_check(&mut self) -> (r: bool)
        requires
            old(self).wf(),
        ensures
            final(self).wf(),
            final(self).board@ == old(self).board@,
            final(self).turn == old(self).turn,
            r == in_check(old(self).board@, old(self).turn),
    {
        let turn = self.turn;
        self.check_for_mate(turn)
    }

    /// Whether the side to move has any legal move; combined with
    /// `player_is_in_check` this distinguishes checkmate (no moves, in
    /// check) from stalemate (no moves, not in check).
    pub fn player_has_moves(&mut self) -> (r: bool)
        requires
            old(self).wf(),
        ensures
            final(self).wf(),
            final(self).board@ == old(self).board@,
            final(self).turn == old(self).turn,
            r == has_any_move(old(self).board@, old(self).turn),
    {
        let ghost s = self.board@;
        let ghost t = self.turn;
        let mut file: usize = 1;
        while file <= 8
            invariant
                self.wf(),
                self.board@ == s,
                self.turn == t,
                s == old(self).board@,
                t == old(self).turn,
                1 <= file <= 9,
                forall|p: Pos|
                    p.wf() && p.file < file ==> !(square_at(s, p) is Some && fig_at(
                        s,
                        p,
                    ).color_spec() == t && (exists|m: Move| legal_move(s, t, p, m))),
            decreases 9 - file,
        {
            let mut rank: usize = 1;
            while rank <= 8
                invariant
                    self.wf(),
                    self.board@ == s,
                    self.turn == t,
                    s == old(self).board@,
                    t == old(self).turn,
                    1 <= file <= 8,
                    1 <= rank <= 9,
                    forall|p: Pos|
                        p.wf() && p.file < file ==> !(square_at(s, p) is Some && fig_at(
                            s,
                            p,
                        ).color_spec() == t && (exists|m: Move| legal_move(s, t, p, m))),
                    forall|p: Pos|
                        p.wf() && p.file == file && p.rank < rank ==> !(square_at(s, p) is Some
                            && fig_at(s, p).color_spec() == t && (exists|m: Move|
                            legal_move(s, t, p, m))),
                decreases 9 - rank,
            {
                let pos = Pos { file, rank };
                match self.board.fields_get(pos) {
                    Some(figure) => {
                        if figure.color() == self.turn {
                            let mvs = self.possible_moves(pos, true);
                            if mvs.len() != 0 {
                                proof {
                                    assert(mvs@.contains(mvs@[0]));
                                    assert(legal_move(s, t, pos, mvs@[0]));
                                    assert(exists|m: Move| legal_move(s, t, pos, m));
                                    assert(pos.wf() && square_at(s, pos) is Some && fig_at(
                                        s,
                                        pos,
                                    ).color_spec() == t);
                                    assert(has_any_move(s, t));
                                }
                                return true;
                            }
                            proof {
                                assert forall|m: Move| !legal_move(s, t, pos, m) by {
                                    if legal_move(s, t, pos, m) {
                                        assert(mvs@.contains(m));
                                    }
                                }
                            }
                        }
                    },
                    None => {},
                }
                rank = rank + 1;
                proof {
                    assert forall|p: Pos|
                        p.wf() && p.file == file && p.rank < rank implies !(square_at(
                        s,
                        p,
                    ) is Some && fig_at(s, p).color_spec() == t && (exists|m: Move|
                        legal_move(s, t, p, m))) by {
                        if p.rank < rank - 1 {
                        } else {
                            assert(p == pos);
                        }
                    }
                }
            }
            file = file + 1;
            proof {
                assert forall|p: Pos|
                    p.wf() && p.file < file implies !(square_at(s, p) is Some && fig_at(
                    s,
                    p,
                ).color_spec() == t && (exists|m: Move| legal_move(s, t, p, m))) by {
                    if p.file < file - 1 {
                    } else {
                        assert(p.file == file - 1);
                    }
                }
            }
        }
        proof {
            if has_any_move(s, t) {
                let p = choose|p: Pos|
                    #![auto]
                    p.wf() && square_at(s, p) is Some && fig_at(s, p).color_spec() == t && (exists|
                        m: Move,
                    | legal_move(s, t, p, m));
                assert(p.wf() && p.file < 9);
            }
        }
        false
    }

    /// Attempts the move (pos, new_pos) for the side to move: rejects an
    /// empty source, an enemy piece, or a destination no legal move of
    /// the source piece reaches; otherwise applies the matching legal
    /// move and flips the active colour.  A rejected move leaves the
    /// state completely unchanged.
    pub fn move_checked(&mut self, pos: Pos, new_pos: Pos) -> (r: Result<(), MoveError>)
        requires
            old(self).wf(),
            pos.wf(),
            new_pos.wf(),
        ensures
            final(self).wf(),
            r is Err ==> final(self).board@ == old(self).board@ && final(self).turn == old(
                self,
            ).turn,
            r == Err::<(), MoveError>(MoveError::NoPiece) <==> square_at(
                old(self).board@,
                pos,
            ) is None,
            r == Err::<(), MoveError>(MoveError::WrongColor) <==> square_at(old(self).board@, pos)
                is Some && fig_at(old(self).board@, pos).color_spec() != old(self).turn,
            r is Ok <==> move_allowed(old(self).board@, old(self).turn, pos, new_pos),
            r == Err::<(), MoveError>(MoveError::IllegalDestination) <==> (square_at(
                old(self).board@,
                pos,
            ) is Some && fig_at(old(self).board@, pos).color_spec() == old(self).turn
                && !move_allowed(old(self).board@, old(self).turn, pos, new_pos)),
            r is Ok ==> final(self).turn == old(self).turn.other_spec(),
            r is Ok ==> (exists|m: Move|
                legal_move(old(self).board@, old(self).turn, pos, m) && m.from_spec() == pos
                    && m.to_spec() == new_pos && final(self).board@ == apply_spec(
                    old(self).board@,
                    m,
                )),
            r is Ok ==> count_pieces(final(self).board@) == count_pieces(old(self).board@)
                || count_pieces(final(self).board@) + 1 == count_pieces(old(self).board@),
    {
        let ghost s = self.board@;
        let ghost t = self.turn;
        match self.board.fields_get(pos) {
            None => {
                return Err(MoveError::NoPiece);
            },
            Some(fig) => {
                if fig.color() != self.turn {
                    return Err(MoveError::WrongColor);
                }
            },
        }
        let moves = self.possible_moves(pos, true);
        let mut i: usize = 0;
        while i < moves.len()
            invariant
                self.wf(),
                self.board@ == s,
                self.turn == t,
                s == old(self).board@,
                t == old(self).turn,
                pos.wf(),
                new_pos.wf(),
                i <= moves@.len(),
                square_at(s, pos) is Some,
                fig_at(s, pos).color_spec() == t,
                forall|m: Move|
                    #![trigger moves@.contains(m)]
                    moves@.contains(m) <==> legal_move(s, t, pos, m),
                forall|j: int|
                    0 <= j < i ==> !(moves@[j].from_spec() == pos && moves@[j].to_spec()
                        == new_pos),
            decreases moves@.len() - i,
        {
            let mv = moves[i];
            let mv_from = mv.from_pos();
            let mv_to = mv.to_pos();
            if pos == mv_from && new_pos == mv_to {
                proof {
                    assert(moves@.contains(mv));
                    assert(legal_move(s, t, pos, mv));
                    lemma_piece_move_reversible(s, pos, mv);
                    lemma_reversible_can_apply(s, mv);
                    lemma_count_apply(s, mv);
                }
                self.board.do_move(mv);
                let next_turn = self.turn.other();
                self.turn = next_turn;
                proof {
                    assert(move_allowed(s, t, pos, new_pos));
                }
                return Ok(());
            }
            i = i + 1;
        }
        proof {
            if move_allowed(s, t, pos, new_pos) {
                let m = choose|m: Move| legal_move(s, t, pos, m) && m.to_spec() == new_pos;
                lemma_piece_move_reversible(s, pos, m);
                assert(moves@.contains(m));
                let j = choose|j: int| 0 <= j < moves@.len() && moves@[j] == m;
                assert(!(moves@[j].from_spec() == pos && moves@[j].to_spec() == new_pos));
                assert(false);
            }
        }
        Err(MoveError::IllegalDestination)
    }
}

/// Law: a raw generated move, applied and then reversed, restores the
/// board exactly — and every legal move is such a move.
pub proof fn lemma_generated_move_round_trip(s: Seq<Option<Figure>>, p: Pos, m: Move)
    requires
        s.len() == 64,
        p.wf(),
        piece_move(s, p, m),
    ensures
        undo_spec(apply_spec(s, m), m) == s,
{
    lemma_piece_move_reversible(s, p, m);
    lemma_reverse_round_trip(s, m);
}

} // verus!
