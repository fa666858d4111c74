//! Properties of the board, the move rules and the history that relate several
//! operations or hold of every input.
use vstd::prelude::*;
use crate::board::{in_bounds, listing, row_listing, start_board, Board, GameView};
use crate::geometry::{along, magnitude, on_axis, Color, Dir, Pos2};
use crate::history::{apply_board, back, on_span, opt_opp, span_pos, unapply_board};
use crate::outcome::{Move, SelectionErrorView};
use crate::board::look;
use crate::rules::{check_spec, lemma_check_ok, lemma_span_ends, sel_err, shift, span_vec};

verus! {

/// `b` holds a content for exactly the cells of the hexagon.
pub open spec fn is_board(b: Board) -> bool {
    b.dom() == Set::new(|p: (int, int)| in_bounds(p))
}

/// Number of balls of color `c` among the first `n` cells of row `y`.
pub open spec fn row_count(b: Board, c: Color, y: int, n: int) -> int
    decreases n,
{
    if n <= 0 {
        0
    } else {
        row_count(b, c, y, n - 1) + if in_bounds((n - 1, y)) && b[(n - 1, y)] == Some(c) {
            1int
        } else {
            0int
        }
    }
}

/// Number of balls of color `c` in the first `n` rows.
pub open spec fn ball_count(b: Board, c: Color, n: int) -> int
    decreases n,
{
    if n <= 0 {
        0
    } else {
        ball_count(b, c, n - 1) + row_count(b, c, n - 1, 9)
    }
}

/// The hexagon has 61 cells, listed once each by a row-major walk of the
/// 9 by 9 square that holds it, and it is symmetric under swapping the two
/// coordinates.
pub proof fn lemma_bounds(b: Board)
    ensures
        listing(b, 9).len() == 61,
        forall|p: (int, int)| #[trigger] in_bounds(p) ==> 0 <= p.0 < 9 && 0 <= p.1 < 9,
        forall|p: (int, int)| #[trigger] in_bounds(p) == in_bounds((p.1, p.0)),
{
    reveal_with_fuel(row_listing, 10);
    assert(row_listing(b, 0, 9).len() == 5);
    assert(row_listing(b, 1, 9).len() == 6);
    assert(row_listing(b, 2, 9).len() == 7);
    assert(row_listing(b, 3, 9).len() == 8);
    assert(row_listing(b, 4, 9).len() == 9);
    assert(row_listing(b, 5, 9).len() == 8);
    assert(row_listing(b, 6, 9).len() == 7);
    assert(row_listing(b, 7, 9).len() == 6);
    assert(row_listing(b, 8, 9).len() == 5);
    reveal_with_fuel(listing, 10);
}

/// The starting layout has 14 balls of each color, and turning the board
/// half way round its center swaps the colors and changes nothing else.
pub proof fn lemma_start_layout()
    ensures
        ball_count(start_board(), Color::Black, 9) == 14,
        ball_count(start_board(), Color::White, 9) == 14,
        forall|p: (int, int)|
            #[trigger] in_bounds(p) ==> start_board()[(8 - p.0, 8 - p.1)] == opt_opp(
                start_board()[p],
            ),
{
    reveal_with_fuel(row_count, 10);
    reveal_with_fuel(ball_count, 10);
    let b = start_board();
    assert(row_count(b, Color::Black, 0, 9) == 5);
    assert(row_count(b, Color::Black, 1, 9) == 6);
    assert(row_count(b, Color::Black, 2, 9) == 3);
    assert(row_count(b, Color::Black, 3, 9) == 0);
    assert(row_count(b, Color::Black, 4, 9) == 0);
    assert(row_count(b, Color::Black, 5, 9) == 0);
    assert(row_count(b, Color::Black, 6, 9) == 0);
    assert(row_count(b, Color::Black, 7, 9) == 0);
    assert(row_count(b, Color::Black, 8, 9) == 0);
    assert(row_count(b, Color::White, 0, 9) == 0);
    assert(row_count(b, Color::White, 1, 9) == 0);
    assert(row_count(b, Color::White, 2, 9) == 0);
    assert(row_count(b, Color::White, 3, 9) == 0);
    assert(row_count(b, Color::White, 4, 9) == 0);
    assert(row_count(b, Color::White, 5, 9) == 0);
    assert(row_count(b, Color::White, 6, 9) == 3);
    assert(row_count(b, Color::White, 7, 9) == 6);
    assert(row_count(b, Color::White, 8, 9) == 5);
}

/// Facts about the cells a well-formed move touches.
pub proof fn lemma_move_cells(m: Move)
    requires
        m.well_formed(),
    ensures
        along(m.first()@, m.axis(), 0) == m.first()@,
        in_bounds(m.first()@),
        in_bounds(m.last()@),
        span_vec(m.first(), m.last()) != (0int, 0int) ==> along(m.first()@, m.axis(), m.count())
            == m.last()@,
        m is PushedAway ==> in_bounds(along(m.first()@, m.axis(), m.count() + 1)),
        !(m is Moved) ==> m.count() >= 1,
{
    reveal(Move::well_formed);
    let p = m.first()@;
    let v = span_vec(m.first(), m.last());
    assert(in_bounds(along(p, m.axis(), 0)));
    if v != (0int, 0int) {
        lemma_span_ends(p, v);
        assert(in_bounds(along(p, m.axis(), m.count())));
    }
    if m is PushedAway {
        assert(in_bounds(along(p, m.axis(), m.count() + 1)));
    }
}

#[verifier::rlimit(50)]
proof fn lemma_inverts_moved(b: Board, m: Move)
    requires
        is_board(b),
        m is Moved,
        m.well_formed(),
        m.fits(b),
    ensures
        unapply_board(apply_board(b, m), m) == b,
{
    lemma_move_cells(m);
    reveal(Move::well_formed);
    reveal(Move::fits);
    let p = m.first()@;
    let n = m.axis();
    let c = m.count();
    let d = m->Moved_dir.unit();
    let u = unapply_board(apply_board(b, m), m);
    assert forall|q: (int, int)| #[trigger] b.dom().contains(q) implies u[q] == b[q] by {
        assert(in_bounds(q));
        if on_span(p, n, 0, c, q) {
            let k = span_pos(p, n, q);
            assert(in_bounds(shift(along(p, n, k), d)));
            assert(back(shift(q, d), d) == q);
        }
    }
    assert(u =~= b);
}

#[verifier::rlimit(50)]
proof fn lemma_inverts_pushed_away(b: Board, m: Move)
    requires
        is_board(b),
        m is PushedAway,
        m.well_formed(),
        m.fits(b),
    ensures
        unapply_board(apply_board(b, m), m) == b,
{
    lemma_move_cells(m);
    reveal(Move::well_formed);
    reveal(Move::fits);
    let p = m.first()@;
    let n = m.axis();
    let c = m.count();
    let u = unapply_board(apply_board(b, m), m);
    assert(u.dom() =~= b.dom());
    assert forall|q: (int, int)| #[trigger] b.dom().contains(q) implies u[q] == b[q] by {
        assert(in_bounds(q));
        if on_span(p, n, 0, c, q) {
            let k = span_pos(p, n, q);
            assert(in_bounds(along(p, n, k + 1)));
            assert(back(shift(q, n), n) == q);
        }
    }
    assert(u =~= b);
}

#[verifier::rlimit(50)]
proof fn lemma_inverts_pushed_off(b: Board, m: Move)
    requires
        is_board(b),
        m is PushedOff,
        m.well_formed(),
        m.fits(b),
    ensures
        unapply_board(apply_board(b, m), m) == b,
{
    lemma_move_cells(m);
    reveal(Move::well_formed);
    reveal(Move::fits);
    let p = m.first()@;
    let n = m.axis();
    let c = m.count();
    let u = unapply_board(apply_board(b, m), m);
    assert(u.dom() =~= b.dom());
    assert forall|q: (int, int)| #[trigger] b.dom().contains(q) implies u[q] == b[q] by {
        assert(in_bounds(q));
        if on_span(p, n, 0, c - 1, q) {
            let k = span_pos(p, n, q);
            assert(in_bounds(along(p, n, k + 1)));
            assert(back(shift(q, n), n) == q);
        }
    }
    assert(u =~= b);
}

/// Taking back a well-formed move restores, cell for cell, any board that
/// the move fits.
pub proof fn lemma_unapply_inverts(b: Board, m: Move)
    requires
        is_board(b),
        m.well_formed(),
        m.fits(b),
    ensures
        unapply_board(apply_board(b, m), m) == b,
{
    match m {
        Move::Moved { .. } => lemma_inverts_moved(b, m),
        Move::PushedAway { .. } => lemma_inverts_pushed_away(b, m),
        Move::PushedOff { .. } => lemma_inverts_pushed_off(b, m),
    }
}

/// For any move that `check_move` accepts, applying it and then taking it back
/// gives the board it was checked on, cell for cell.
pub proof fn lemma_apply_then_unapply(b: Board, turn: Color, first: Pos2, last: Pos2, dir: Dir)
    requires
        is_board(b),
        check_spec(b, turn, first, last, dir) is Ok,
    ensures
        ({
            let m = check_spec(b, turn, first, last, dir)->Ok_0;
            unapply_board(apply_board(b, m), m) == b
        }),
{
    lemma_check_ok(b, turn, first, last, dir);
    lemma_unapply_inverts(b, check_spec(b, turn, first, last, dir)->Ok_0);
}

/// Submitting a move that `check_move` accepted and then undoing it restores the
/// board and the side to move.
pub proof fn lemma_submit_then_undo(s: GameView, first: Pos2, last: Pos2, dir: Dir)
    requires
        s.wf(),
        is_board(s.board),
        check_spec(s.board, s.turn, first, last, dir) is Ok,
    ensures
        ({
            let m = check_spec(s.board, s.turn, first, last, dir)->Ok_0;
            &&& s.submitted(m).undone().board == s.board
            &&& s.submitted(m).undone().turn == s.turn
        }),
{
    let m = check_spec(s.board, s.turn, first, last, dir)->Ok_0;
    lemma_apply_then_unapply(s.board, s.turn, first, last, dir);
    assert(s.submitted(m).moves[s.idx] == m);
}

/// Submitting a move after an undo drops the undone moves: a redo that
/// follows does nothing.
pub proof fn lemma_submit_truncates(s: GameView, m: Move)
    requires
        s.wf(),
    ensures
        !s.undone().submitted(m).can_redo(),
        s.undone().submitted(m).redone() == s.undone().submitted(m),
{
}

/// A selection on an axis with a magnitude of three or more fails with the
/// too-many error in every direction, whatever the board holds, unless its
/// first cell holds a ball of the side not to move.
pub proof fn lemma_too_many(b: Board, turn: Color, first: Pos2, last: Pos2, dir: Dir)
    requires
        on_axis(span_vec(first, last).0, span_vec(first, last).1),
        magnitude(span_vec(first, last).0, span_vec(first, last).1) >= 3,
        !(look(b, first@) matches Some(Some(c)) && c != turn),
    ensures
        check_spec(b, turn, first, last, dir) == sel_err(SelectionErrorView::TooMany),
{
}

} // verus!
