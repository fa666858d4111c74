//! Move legality: whether a selected line of balls can move in a direction,
//! and what the move does if it can.
use vstd::prelude::*;
use crate::board::{in_bounds, is_ball, look, Abalone, Board};
use crate::geometry::{along, fits_pair, lemma_pos_at_view, magnitude, on_axis, pos_at, sgn, Color, Dir, Pos2, Vec2};
use crate::outcome::{
    result_view, Error, ErrorView, Move, MoveError, MoveErrorView, SelectionError,
    SelectionErrorView,
};
use crate::history::{back, on_span, span_pos};
use crate::stackvec::StackVec;

verus! {

pub open spec fn shift(q: (int, int), d: (int, int)) -> (int, int) {
    (q.0 + d.0, q.1 + d.1)
}

/// The positions `k` steps from `p` along `n`, for `lo <= k < hi`.
pub open spec fn span_seq(p: (int, int), n: (int, int), lo: int, hi: int) -> Seq<Pos2>
    decreases hi - lo,
{
    if hi <= lo {
        Seq::empty()
    } else {
        span_seq(p, n, lo, hi - 1).push(pos_at(along(p, n, hi - 1)))
    }
}

/// Those of the positions `k` steps from `p` along `n`, `lo <= k < hi`,
/// that hold no ball (or are off the board).
pub open spec fn gaps(b: Board, p: (int, int), n: (int, int), lo: int, hi: int) -> Seq<Pos2>
    decreases hi - lo,
{
    if hi <= lo {
        Seq::empty()
    } else if is_ball(b, along(p, n, hi - 1)) {
        gaps(b, p, n, lo, hi - 1)
    } else {
        gaps(b, p, n, lo, hi - 1).push(pos_at(along(p, n, hi - 1)))
    }
}

/// A ball of a color other than `color` stands at `q`.
pub open spec fn is_foe(b: Board, q: (int, int), color: Color) -> bool {
    is_ball(b, q) && b[q] != Some(color)
}

/// Those of the positions `k` steps from `p` along `n`, `lo <= k < hi`,
/// that hold a ball of the other color.
pub open spec fn foes(b: Board, p: (int, int), n: (int, int), color: Color, lo: int, hi: int) -> Seq<
    Pos2,
>
    decreases hi - lo,
{
    if hi <= lo {
        Seq::empty()
    } else if is_foe(b, along(p, n, hi - 1), color) {
        foes(b, p, n, color, lo, hi - 1).push(pos_at(along(p, n, hi - 1)))
    } else {
        foes(b, p, n, color, lo, hi - 1)
    }
}

/// The occupied destinations, one step along `d`, of the first `hi`
/// positions of the span from `p` along `n`.
pub open spec fn blocked(b: Board, p: (int, int), n: (int, int), d: (int, int), hi: int) -> Seq<
    Pos2,
>
    decreases hi,
{
    if hi <= 0 {
        Seq::empty()
    } else if is_ball(b, shift(along(p, n, hi - 1), d)) {
        blocked(b, p, n, d, hi - 1).push(pos_at(shift(along(p, n, hi - 1), d)))
    } else {
        blocked(b, p, n, d, hi - 1)
    }
}

/// Those of the first `hi` positions of the span from `p` along `n` whose
/// destination, one step along `d`, is off the board.
pub open spec fn overhang(b: Board, p: (int, int), n: (int, int), d: (int, int), hi: int) -> Seq<
    Pos2,
>
    decreases hi,
{
    if hi <= 0 {
        Seq::empty()
    } else if !in_bounds(shift(along(p, n, hi - 1), d)) {
        overhang(b, p, n, d, hi - 1).push(pos_at(along(p, n, hi - 1)))
    } else {
        overhang(b, p, n, d, hi - 1)
    }
}

pub open spec fn sel_err(e: SelectionErrorView) -> Result<Move, ErrorView> {
    Err(ErrorView::Selection(e))
}

pub open spec fn move_err(e: MoveErrorView) -> Result<Move, ErrorView> {
    Err(ErrorView::Move(e))
}

/// The walk over the opposing line of an in-line push: `first` is the own
/// ball that pushes, `opp_first` the first opposing ball, `force` the number
/// of own balls, and `k` the number of opposing balls counted so far.
pub open spec fn push_foes(
    b: Board,
    first: Pos2,
    opp_first: (int, int),
    dir: Dir,
    opp: Color,
    force: int,
    k: int,
) -> Result<Move, ErrorView>
    decreases force - k,
{
    let q = along(opp_first, dir.unit(), k);
    let end = pos_at(along(opp_first, dir.unit(), k - 1));
    match look(b, q) {
        Some(Some(c)) => if c != opp {
            move_err(MoveErrorView::BlockedByOwn(pos_at(q)))
        } else if k >= force - 1 {
            move_err(MoveErrorView::TooManyOpposing { first: pos_at(opp_first), last: pos_at(q) })
        } else {
            push_foes(b, first, opp_first, dir, opp, force, k + 1)
        },
        Some(None) => Ok(Move::PushedAway { first, last: end }),
        None => Ok(Move::PushedOff { first, last: end }),
    }
}

/// The walk over the own line of an in-line push, `force` balls of `color`
/// counted so far from `first`; `mag` is the magnitude of the selection.
pub open spec fn push_line(b: Board, first: Pos2, dir: Dir, color: Color, mag: int, force: int) -> Result<
    Move,
    ErrorView,
>
    decreases 3 - force,
{
    let d = dir.unit();
    let q = along(first@, d, force);
    let end = pos_at(along(first@, d, force - 1));
    match look(b, q) {
        Some(Some(c)) => if c != color {
            if force < mag {
                sel_err(SelectionErrorView::MixedSet(span_seq(first@, d, force, mag + 1)))
            } else if force <= 1 {
                move_err(MoveErrorView::TooManyOpposing { first: pos_at(q), last: pos_at(q) })
            } else {
                push_foes(b, first, q, dir, color.opp(), force, 1)
            }
        } else if force >= 3 {
            move_err(MoveErrorView::TooManyInferred { first, last: pos_at(q) })
        } else {
            push_line(b, first, dir, color, mag, force + 1)
        },
        Some(None) => Ok(Move::Moved { dir, first, last: end }),
        None => move_err(MoveErrorView::PushedOff(seq![end])),
    }
}

/// A sideward move of the span from `first` to `last` (direction `n`,
/// magnitude `mag`) one step along `dir`.
pub open spec fn side_move(
    b: Board,
    first: Pos2,
    last: Pos2,
    n: (int, int),
    dir: Dir,
    color: Color,
    mag: int,
) -> Result<Move, ErrorView> {
    let missing = gaps(b, first@, n, 1, mag + 1);
    let mixed = foes(b, first@, n, color, 1, mag + 1);
    let not_free = blocked(b, first@, n, dir.unit(), mag + 1);
    let off = overhang(b, first@, n, dir.unit(), mag + 1);
    if missing.len() > 0 {
        sel_err(SelectionErrorView::NotABall(missing))
    } else if mixed.len() > 0 {
        sel_err(SelectionErrorView::MixedSet(mixed))
    } else if not_free.len() > 0 {
        move_err(MoveErrorView::NotFree(not_free))
    } else if off.len() > 0 {
        move_err(MoveErrorView::PushedOff(off))
    } else {
        Ok(Move::Moved { dir, first, last })
    }
}

/// The selection's displacement, from `first` to `last`.
pub open spec fn span_vec(first: Pos2, last: Pos2) -> (int, int) {
    (last@.0 - first@.0, last@.1 - first@.1)
}

/// The selection is pushed against its own orientation, so its ends swap.
pub open spec fn flips(first: Pos2, last: Pos2, dir: Dir) -> bool {
    let v = span_vec(first, last);
    v != (0int, 0int) && (-sgn(v.0), -sgn(v.1)) == dir.unit()
}

/// The outcome of trying to move the balls from `first` to `last` one step
/// along `dir`, with `turn` to move on board `b`.
pub open spec fn check_spec(b: Board, turn: Color, first: Pos2, last: Pos2, dir: Dir) -> Result<
    Move,
    ErrorView,
> {
    let v = span_vec(first, last);
    let flip = flips(first, last, dir);
    let f = if flip {
        last
    } else {
        first
    };
    let l = if flip {
        first
    } else {
        last
    };
    let w = span_vec(f, l);
    let n = if v == (0int, 0int) {
        dir.unit()
    } else {
        (sgn(w.0), sgn(w.1))
    };
    let mag = magnitude(w.0, w.1);
    if look(b, first@) matches Some(Some(c)) && c != turn {
        sel_err(SelectionErrorView::WrongTurn(first))
    } else if v != (0int, 0int) && !on_axis(v.0, v.1) {
        sel_err(SelectionErrorView::InvalidSet)
    } else if mag >= 3 {
        sel_err(SelectionErrorView::TooMany)
    } else {
        check_anchor(b, f, l, n, dir, mag)
    }
}

/// The outcome once the selection is known to run from `f` to `l` along
/// `n`, with magnitude `mag` below three.
pub open spec fn check_anchor(b: Board, f: Pos2, l: Pos2, n: (int, int), dir: Dir, mag: int) -> Result<
    Move,
    ErrorView,
> {
    match look(b, f@) {
        Some(Some(color)) => if n == dir.unit() {
            push_line(b, f, dir, color, mag, 1)
        } else {
            side_move(b, f, l, n, dir, color, mag)
        },
        _ => sel_err(SelectionErrorView::NotABall(gaps(b, f@, n, 0, mag + 1))),
    }
}


/// The six directions in the order in which a selection tries them.
pub open spec fn dir_at(k: int) -> Dir {
    if k == 0 {
        Dir::PosX
    } else if k == 1 {
        Dir::PosY
    } else if k == 2 {
        Dir::PosZ
    } else if k == 3 {
        Dir::NegX
    } else if k == 4 {
        Dir::NegY
    } else {
        Dir::NegZ
    }
}

/// Trying the directions from the `k`-th on: the first success, or the
/// first structural error, or no possible move once all failed.
pub open spec fn select_from(b: Board, turn: Color, first: Pos2, last: Pos2, k: int) -> Result<
    (),
    SelectionErrorView,
>
    decreases 6 - k,
{
    if k >= 6 {
        Err(SelectionErrorView::NoPossibleMove)
    } else {
        match check_spec(b, turn, first, last, dir_at(k)) {
            Ok(_) => Ok(()),
            Err(ErrorView::Selection(e)) => Err(e),
            Err(ErrorView::Move(_)) => select_from(b, turn, first, last, k + 1),
        }
    }
}

/// No gaps means a ball at every position of the range.
proof fn lemma_no_gaps(b: Board, p: (int, int), n: (int, int), lo: int, hi: int)
    requires
        gaps(b, p, n, lo, hi).len() == 0,
    ensures
        forall|k: int| lo <= k < hi ==> is_ball(b, #[trigger] along(p, n, k)),
    decreases hi - lo,
{
    if hi > lo {
        lemma_no_gaps(b, p, n, lo, hi - 1);
    }
}

/// No blocked destination means every destination in the range is free.
proof fn lemma_not_blocked(b: Board, p: (int, int), n: (int, int), d: (int, int), hi: int)
    requires
        blocked(b, p, n, d, hi).len() == 0,
    ensures
        forall|k: int| 0 <= k < hi ==> !is_ball(b, shift(#[trigger] along(p, n, k), d)),
    decreases hi,
{
    if hi > 0 {
        lemma_not_blocked(b, p, n, d, hi - 1);
    }
}

/// No overhang means every destination in the range is on the board.
proof fn lemma_no_overhang(b: Board, p: (int, int), n: (int, int), d: (int, int), hi: int)
    requires
        overhang(b, p, n, d, hi).len() == 0,
    ensures
        forall|k: int| 0 <= k < hi ==> in_bounds(shift(#[trigger] along(p, n, k), d)),
    decreases hi,
{
    if hi > 0 {
        lemma_no_overhang(b, p, n, d, hi - 1);
    }
}

proof fn lemma_gaps_split(b: Board, p: (int, int), n: (int, int), lo: int, mid: int, hi: int)
    requires
        lo <= mid <= hi,
    ensures
        gaps(b, p, n, lo, hi) == gaps(b, p, n, lo, mid) + gaps(b, p, n, mid, hi),
    decreases hi - mid,
{
    if hi == mid {
        assert(gaps(b, p, n, lo, mid) + gaps(b, p, n, mid, hi) =~= gaps(b, p, n, lo, mid));
    } else {
        lemma_gaps_split(b, p, n, lo, mid, hi - 1);
        assert(gaps(b, p, n, lo, hi) =~= gaps(b, p, n, lo, mid) + gaps(b, p, n, mid, hi));
    }
}

/// The span from `f` along the sign of a non-zero axis displacement `w`
/// reaches `f + w` after `magnitude(w)` steps, passing only positions that
/// lie between the two ends.
pub proof fn lemma_span_ends(f: (int, int), w: (int, int))
    requires
        on_axis(w.0, w.1),
        w != (0int, 0int),
    ensures
        along(f, (sgn(w.0), sgn(w.1)), magnitude(w.0, w.1)) == shift(f, w),
        forall|k: int|
            0 <= k <= magnitude(w.0, w.1) ==> {
                let q = #[trigger] along(f, (sgn(w.0), sgn(w.1)), k);
                &&& (f.0 <= q.0 <= f.0 + w.0 || f.0 + w.0 <= q.0 <= f.0)
                &&& (f.1 <= q.1 <= f.1 + w.1 || f.1 + w.1 <= q.1 <= f.1)
            },
{
}

fn sign16(v: i16) -> (r: i8)
    ensures
        r == sgn(v as int),
{
    if v > 0 {
        1
    } else if v < 0 {
        -1
    } else {
        0
    }
}

fn magnitude16(x: i16, y: i16) -> (r: i16)
    requires
        -255 <= x <= 255,
        -255 <= y <= 255,
    ensures
        r == magnitude(x as int, y as int),
{
    let ax = if x < 0 {
        -x
    } else {
        x
    };
    let ay = if y < 0 {
        -y
    } else {
        y
    };
    if sign16(x) == sign16(y) {
        if ax >= ay {
            ax
        } else {
            ay
        }
    } else {
        ax + ay
    }
}

impl Abalone {
    /// The positions `k` steps from `first` along `n`, `lo <= k <= mag`, that
    /// hold no ball.
    fn missing(&self, first: Pos2, n: Vec2, lo: i8, mag: i8) -> (r: StackVec<3>)
        requires
            self.wf(),
            0 <= lo,
            lo <= mag + 1,
            mag <= 2,
            -1 <= n.x <= 1,
            -1 <= n.y <= 1,
            forall|k: int|
                lo <= k <= mag ==> fits_pair(#[trigger] along(first@, n@, k)),
        ensures
            r.wf(),
            r@ == gaps(self@.board, first@, n@, lo as int, mag + 1),
    {
        let mut r: StackVec<3> = StackVec::new();
        let mut k: i8 = lo;
        while k <= mag
            invariant
                self.wf(),
                lo <= k <= mag + 1,
                mag <= 2,
                0 <= lo,
                -1 <= n.x <= 1,
                -1 <= n.y <= 1,
                forall|j: int|
                    lo <= j <= mag ==> fits_pair(#[trigger] along(first@, n@, j)),
                r.wf(),
                r@ == gaps(self@.board, first@, n@, lo as int, k as int),
                r@.len() <= k - lo,
            decreases mag + 1 - k,
        {
            let p = first.step(n, k);
            let here = self.get(p);
            if !(here matches Some(Some(_))) {
                r.push(p);
            }
            k = k + 1;
        }
        r
    }

    /// The walk over the opposing line of an in-line push.
    fn push_foes_exec(&self, first: Pos2, opp_first: Pos2, dir: Dir, opp: Color, force: i8) -> (r:
        Result<Move, Error>)
        requires
            self.wf(),
            in_bounds(opp_first@),
            2 <= force <= 3,
        ensures
            result_view(r) == push_foes(self@.board, first, opp_first@, dir, opp, force as int, 1),
            r matches Err(e) ==> e.wf(),
    {
        let d = dir.vec();
        let mut k: i8 = 1;
        proof {
            lemma_pos_at_view(opp_first);
        }
        loop
            invariant
                self.wf(),
                in_bounds(opp_first@),
                2 <= force <= 3,
                1 <= k <= force - 1,
                d@ == dir.unit(),
                push_foes(self@.board, first, opp_first@, dir, opp, force as int, k as int)
                    == push_foes(self@.board, first, opp_first@, dir, opp, force as int, 1),
            decreases force - k,
        {
            let p = opp_first.step(d, k);
            match self.get(p) {
                Some(Some(c)) => {
                    if c != opp {
                        return Err(Error::Move(MoveError::BlockedByOwn(p)));
                    }
                    if k >= force - 1 {
                        return Err(
                            Error::Move(MoveError::TooManyOpposing { first: opp_first, last: p }),
                        );
                    }
                    k = k + 1;
                },
                Some(None) => {
                    let last = opp_first.step(d, k - 1);
                    return Ok(Move::PushedAway { first, last });
                },
                None => {
                    let last = opp_first.step(d, k - 1);
                    return Ok(Move::PushedOff { first, last });
                },
            }
        }
    }

    /// An in-line push of the line that starts at `first`, a ball of `color`.
    fn push_line_exec(&self, first: Pos2, dir: Dir, color: Color, mag: i8) -> (r: Result<
        Move,
        Error,
    >)
        requires
            self.wf(),
            in_bounds(first@),
            0 <= mag <= 2,
        ensures
            result_view(r) == push_line(self@.board, first, dir, color, mag as int, 1),
            r matches Err(e) ==> e.wf(),
    {
        let d = dir.vec();
        let mut force: i8 = 1;
        loop
            invariant
                self.wf(),
                in_bounds(first@),
                0 <= mag <= 2,
                1 <= force <= 3,
                d@ == dir.unit(),
                push_line(self@.board, first, dir, color, mag as int, force as int) == push_line(
                    self@.board,
                    first,
                    dir,
                    color,
                    mag as int,
                    1,
                ),
            decreases 3 - force,
        {
            let p = first.step(d, force);
            match self.get(p) {
                Some(Some(c)) => {
                    if c != color {
                        if force < mag {
                            let mut mixed: StackVec<2> = StackVec::new();
                            mixed.push(p);
                            assert(span_seq(first@, d@, force as int, force as int)
                                =~= Seq::<Pos2>::empty());
                            assert(mixed@ =~= span_seq(first@, d@, force as int, force + 1));
                            let mut k: i8 = force + 1;
                            while k <= mag
                                invariant
                                    in_bounds(first@),
                                    1 <= force < k <= mag + 1,
                                    mag <= 2,
                                    d@ == dir.unit(),
                                    mixed.wf(),
                                    mixed@ == span_seq(first@, d@, force as int, k as int),
                                    mixed@.len() == k - force,
                                decreases mag + 1 - k,
                            {
                                mixed.push(first.step(d, k));
                                k = k + 1;
                            }
                            return Err(Error::Selection(SelectionError::MixedSet(mixed)));
                        } else if force <= 1 {
                            return Err(
                                Error::Move(MoveError::TooManyOpposing { first: p, last: p }),
                            );
                        } else {
                            return self.push_foes_exec(first, p, dir, color.opposite(), force);
                        }
                    }
                    if force >= 3 {
                        return Err(Error::Move(MoveError::TooManyInferred { first, last: p }));
                    }
                    force = force + 1;
                },
                Some(None) => {
                    let last = first.step(d, force - 1);
                    return Ok(Move::Moved { dir, first, last });
                },
                None => {
                    let last = first.step(d, force - 1);
                    let mut off: StackVec<3> = StackVec::new();
                    off.push(last);
                    assert(off@ =~= seq![last]);
                    return Err(Error::Move(MoveError::PushedOff(off)));
                },
            }
        }
    }

    /// A sideward move of the span from `first` (a ball of `color`) along
    /// `n`, of magnitude `mag`, one step along `dir`.
    fn side_move_exec(
        &self,
        first: Pos2,
        last: Pos2,
        n: Vec2,
        dir: Dir,
        color: Color,
        mag: i8,
    ) -> (r: Result<Move, Error>)
        requires
            self.wf(),
            self@.board[first@] == Some(color),
            in_bounds(first@),
            0 <= mag <= 2,
            -1 <= n.x <= 1,
            -1 <= n.y <= 1,
            forall|k: int|
                0 <= k <= mag ==> fits_pair(#[trigger] along(first@, n@, k)),
        ensures
            result_view(r) == side_move(self@.board, first, last, n@, dir, color, mag as int),
            r matches Err(e) ==> e.wf(),
    {
        let ghost b = self@.board;
        let d = dir.vec();
        let mut mixed: StackVec<2> = StackVec::new();
        let mut i: i8 = 1;
        assert(along(first@, n@, 0) == first@);
        while i <= mag
            invariant
                self.wf(),
                b == self@.board,
                in_bounds(first@),
                0 <= mag <= 2,
                1 <= i <= mag + 1,
                -1 <= n.x <= 1,
                -1 <= n.y <= 1,
                forall|k: int|
                    0 <= k <= mag ==> fits_pair(#[trigger] along(first@, n@, k)),
                forall|k: int| 0 <= k < i ==> is_ball(b, #[trigger] along(first@, n@, k)),
                gaps(b, first@, n@, 1, i as int) == Seq::<Pos2>::empty(),
                mixed.wf(),
                mixed@ == foes(b, first@, n@, color, 1, i as int),
                mixed@.len() <= i - 1,
            decreases mag + 1 - i,
        {
            let p = first.step(n, i);
            match self.get(p) {
                Some(Some(c)) => {
                    if c != color {
                        mixed.push(p);
                    }
                },
                _ => {
                    let missing = self.missing(first, n, i, mag);
                    proof {
                        lemma_gaps_split(b, first@, n@, 1, i as int, mag + 1);
                        lemma_gaps_split(b, first@, n@, i as int, i + 1, mag + 1);
                        assert(gaps(b, first@, n@, i as int, i as int) =~= Seq::<Pos2>::empty());
                        assert(gaps(b, first@, n@, i as int, i + 1).len() == 1);
                    }
                    return Err(Error::Selection(SelectionError::NotABall(missing)));
                },
            }
            i = i + 1;
        }
        if !mixed.is_empty() {
            return Err(Error::Selection(SelectionError::MixedSet(mixed)));
        }
        let mut not_free: StackVec<3> = StackVec::new();
        let mut off: StackVec<3> = StackVec::new();
        let mut i: i8 = 0;
        while i <= mag
            invariant
                self.wf(),
                b == self@.board,
                0 <= mag <= 2,
                0 <= i <= mag + 1,
                -1 <= n.x <= 1,
                -1 <= n.y <= 1,
                d@ == dir.unit(),
                forall|k: int| 0 <= k <= mag ==> is_ball(b, #[trigger] along(first@, n@, k)),
                not_free.wf(),
                off.wf(),
                not_free@ == blocked(b, first@, n@, d@, i as int),
                off@ == overhang(b, first@, n@, d@, i as int),
                not_free@.len() <= i,
                off@.len() <= i,
            decreases mag + 1 - i,
        {
            let cur = first.step(n, i);
            let dest = cur.add(d);
            match self.get(dest) {
                Some(Some(_)) => not_free.push(dest),
                Some(None) => {},
                None => off.push(cur),
            }
            i = i + 1;
        }
        if !not_free.is_empty() {
            return Err(Error::Move(MoveError::NotFree(not_free)));
        }
        if !off.is_empty() {
            return Err(Error::Move(MoveError::PushedOff(off)));
        }
        Ok(Move::Moved { dir, first, last })
    }

    #[verifier::rlimit(80)]
    /// Checks whether the balls from `selection[0]` to `selection[1]` can
    /// move one step along `dir`, and returns the move if so.
    pub fn check_move(&self, selection: [Pos2; 2], dir: Dir) -> (r: Result<Move, Error>)
        requires
            self.wf(),
        ensures
            result_view(r) == check_spec(
                self@.board,
                self@.turn,
                selection@[0],
                selection@[1],
                dir,
            ),
            r matches Err(e) ==> e.wf(),
            r matches Ok(m) ==> m.well_formed() && m.fits(self@.board),
    {
        proof {
            if check_spec(self@.board, self@.turn, selection@[0], selection@[1], dir) is Ok {
                lemma_check_ok(self@.board, self@.turn, selection@[0], selection@[1], dir);
            }
        }
        let first0 = selection[0];
        let last0 = selection[1];
        if let Some(Some(color)) = self.get(first0) {
            if color != self.turn {
                return Err(Error::Selection(SelectionError::WrongTurn(first0)));
            }
        }
        let dx: i16 = last0.x as i16 - first0.x as i16;
        let dy: i16 = last0.y as i16 - first0.y as i16;
        let zero = dx == 0 && dy == 0;
        if !zero && !(dx == 0 || dy == 0 || dx == dy) {
            return Err(Error::Selection(SelectionError::InvalidSet));
        }
        let u = dir.vec();
        let flip = !zero && -sign16(dx) == u.x && -sign16(dy) == u.y;
        let first = if flip {
            last0
        } else {
            first0
        };
        let last = if flip {
            first0
        } else {
            last0
        };
        let wx: i16 = if flip {
            -dx
        } else {
            dx
        };
        let wy: i16 = if flip {
            -dy
        } else {
            dy
        };
        let mag16 = magnitude16(wx, wy);
        if mag16 >= 3 {
            return Err(Error::Selection(SelectionError::TooMany));
        }
        let mag = mag16 as i8;
        let n = if zero {
            u
        } else {
            Vec2 { x: sign16(wx), y: sign16(wy) }
        };
        proof {
            if !zero {
                lemma_span_ends(first@, (wx as int, wy as int));
            }
            assert forall|k: int| 0 <= k <= mag implies fits_pair(
                #[trigger] along(first@, n@, k),
            ) by {
                if zero {
                    assert(along(first@, n@, k) == first@);
                }
            }
        }
        self.check_anchor_exec(first, last, n, dir, mag)
    }

    fn check_anchor_exec(&self, first: Pos2, last: Pos2, n: Vec2, dir: Dir, mag: i8) -> (r: Result<
        Move,
        Error,
    >)
        requires
            self.wf(),
            0 <= mag <= 2,
            -1 <= n.x <= 1,
            -1 <= n.y <= 1,
            forall|k: int| 0 <= k <= mag ==> fits_pair(#[trigger] along(first@, n@, k)),
        ensures
            result_view(r) == check_anchor(self@.board, first, last, n@, dir, mag as int),
            r matches Err(e) ==> e.wf(),
    {
        let u = dir.vec();
        match self.get(first) {
            Some(Some(color)) => {
                if n.x == u.x && n.y == u.y {
                    self.push_line_exec(first, dir, color, mag)
                } else {
                    self.side_move_exec(first, last, n, dir, color, mag)
                }
            },
            _ => {
                let missing = self.missing(first, n, 0, mag);
                Err(Error::Selection(SelectionError::NotABall(missing)))
            },
        }
    }

    /// Whether the selection can move in some direction; a structural error
    /// is reported as soon as one direction shows it.
    pub fn check_selection(&self, selection: [Pos2; 2]) -> (r: Result<(), SelectionError>)
        requires
            self.wf(),
        ensures
            match r {
                Ok(()) => select_from(self@.board, self@.turn, selection@[0], selection@[1], 0)
                    == Ok::<(), SelectionErrorView>(()),
                Err(e) => e.wf() && select_from(
                    self@.board,
                    self@.turn,
                    selection@[0],
                    selection@[1],
                    0,
                ) == Err::<(), SelectionErrorView>(e@),
            },
    {
        let dirs = [Dir::PosX, Dir::PosY, Dir::PosZ, Dir::NegX, Dir::NegY, Dir::NegZ];
        let mut k: usize = 0;
        while k < 6
            invariant
                self.wf(),
                0 <= k <= 6,
                forall|j: int| 0 <= j < 6 ==> dirs@[j] == dir_at(j),
                select_from(self@.board, self@.turn, selection@[0], selection@[1], k as int)
                    == select_from(self@.board, self@.turn, selection@[0], selection@[1], 0),
            decreases 6 - k,
        {
            match self.check_move(selection, dirs[k]) {
                Ok(_) => return Ok(()),
                Err(Error::Selection(e)) => return Err(e),
                Err(Error::Move(_)) => {},
            }
            k = k + 1;
        }
        Err(SelectionError::NoPossibleMove)
    }
}

} // verus!

verus! {

/// A successful walk over the opposing line yields a push that fits the
/// board.
proof fn lemma_push_foes_ok(
    b: Board,
    first: Pos2,
    dir: Dir,
    color: Color,
    force: int,
    k: int,
)
    requires
        2 <= force <= 3,
        1 <= k <= force - 1,
        b[first@] == Some(color),
        forall|i: int| 0 <= i < force + k ==> is_ball(b, #[trigger] along(first@, dir.unit(), i)),
        b[along(first@, dir.unit(), force + k - 1)] == Some(color.opp()),
        push_foes(b, first, along(first@, dir.unit(), force), dir, color.opp(), force, k) is Ok,
    ensures
        ({
            let m = push_foes(b, first, along(first@, dir.unit(), force), dir, color.opp(), force, k)->Ok_0;
            m.well_formed() && m.fits(b)
        }),
    decreases force - k,
{
    reveal(Move::well_formed);
    reveal(Move::fits);
    let d = dir.unit();
    let of = along(first@, d, force);
    let q = along(of, d, k);
    assert(q == along(first@, d, force + k));
    assert(along(of, d, k - 1) == along(first@, d, force + k - 1));
    match look(b, q) {
        Some(Some(c)) => {
            if c == color.opp() && k < force - 1 {
                lemma_push_foes_ok(b, first, dir, color, force, k + 1);
            }
        },
        Some(None) => {
            let m = Move::PushedAway { first, last: pos_at(along(first@, d, force + k - 1)) };
            assert(m.axis() == d);
            assert(m.count() == force + k - 1);
            assert(forall|i: int|
                0 <= i <= m.count() + 1 ==> in_bounds(#[trigger] along(first@, m.axis(), i)));
        },
        None => {
            let m = Move::PushedOff { first, last: pos_at(along(first@, d, force + k - 1)) };
            assert(m.axis() == d);
            assert(m.count() == force + k - 1);
            assert(forall|i: int|
                0 <= i <= m.count() ==> in_bounds(#[trigger] along(first@, m.axis(), i)));
        },
    }
}

/// A successful in-line walk yields a move that fits the board.
#[verifier::rlimit(100)]
proof fn lemma_push_line_ok(b: Board, first: Pos2, dir: Dir, color: Color, mag: int, force: int)
    requires
        1 <= force <= 3,
        b[first@] == Some(color),
        forall|i: int| 0 <= i < force ==> is_ball(b, #[trigger] along(first@, dir.unit(), i)),
        push_line(b, first, dir, color, mag, force) is Ok,
    ensures
        push_line(b, first, dir, color, mag, force)->Ok_0.well_formed(),
        push_line(b, first, dir, color, mag, force)->Ok_0.fits(b),
    decreases 3 - force,
{
    let d = dir.unit();
    let q = along(first@, d, force);
    let r = push_line(b, first, dir, color, mag, force);
    if look(b, q) == Some(None::<Color>) {
        assert(r == Ok::<Move, ErrorView>(
            Move::Moved { dir, first, last: pos_at(along(first@, d, force - 1)) },
        ));
        lemma_inline_moved(b, first, dir, force - 1);
    } else if is_ball(b, q) && b[q] != Some(color) {
        assert(force >= mag && force > 1);
        assert(r == push_foes(b, first, q, dir, color.opp(), force, 1));
        assert(b[along(first@, d, force + 1 - 1)] == Some(color.opp()));
        lemma_push_foes_ok(b, first, dir, color, force, 1);
    } else if is_ball(b, q) {
        assert(force < 3);
        assert(r == push_line(b, first, dir, color, mag, force + 1));
        lemma_push_line_ok(b, first, dir, color, mag, force + 1);
    }
}

/// An unresisted in-line move of `c + 1` balls fits the board when the cell
/// beyond them is empty.
proof fn lemma_inline_moved(b: Board, first: Pos2, dir: Dir, c: int)
    requires
        0 <= c <= 2,
        forall|i: int| 0 <= i <= c ==> is_ball(b, #[trigger] along(first@, dir.unit(), i)),
        look(b, along(first@, dir.unit(), c + 1)) == Some(None::<Color>),
    ensures
        (Move::Moved { dir, first, last: pos_at(along(first@, dir.unit(), c)) }).well_formed(),
        (Move::Moved { dir, first, last: pos_at(along(first@, dir.unit(), c)) }).fits(b),
{
    reveal(Move::well_formed);
    reveal(Move::fits);
    let d = dir.unit();
    let m = Move::Moved { dir, first, last: pos_at(along(first@, d, c)) };
    let n = m.axis();
    assert(m.count() == c);
    assert(c > 0 ==> n == d);
    assert(c == 0 ==> n == (0int, 0int));
    assert forall|i: int| 0 <= i <= c implies in_bounds(#[trigger] along(first@, n, i))
        && in_bounds(shift(along(first@, n, i), d)) by {
        assert(is_ball(b, along(first@, d, i)));
        if i < c {
            assert(is_ball(b, along(first@, d, i + 1)));
        }
    }
    assert forall|q: (int, int)|
        in_bounds(q) && on_span(first@, n, 0, c, back(q, d)) && !on_span(first@, n, 0, c, q)
            implies #[trigger] b[q] == None::<Color> by {
        let k = span_pos(first@, n, back(q, d));
        if c > 0 {
            assert(q == along(first@, d, k + 1));
            assert(k == c);
        } else {
            assert(q == along(first@, d, 1));
        }
    }
}

/// Whatever `check_move` accepts has a shape that can be applied, and fits
/// the board it was checked on.
pub proof fn lemma_check_ok(b: Board, turn: Color, first: Pos2, last: Pos2, dir: Dir)
    requires
        check_spec(b, turn, first, last, dir) is Ok,
    ensures
        check_spec(b, turn, first, last, dir)->Ok_0.well_formed(),
        check_spec(b, turn, first, last, dir)->Ok_0.fits(b),
{
    reveal(Move::well_formed);
    reveal(Move::fits);
    let v = span_vec(first, last);
    let flip = flips(first, last, dir);
    let f = if flip {
        last
    } else {
        first
    };
    let l = if flip {
        first
    } else {
        last
    };
    let w = span_vec(f, l);
    let n = if v == (0int, 0int) {
        dir.unit()
    } else {
        (sgn(w.0), sgn(w.1))
    };
    let mag = magnitude(w.0, w.1);
    if let Some(Some(color)) = look(b, f@) {
        if n == dir.unit() {
            assert(along(f@, dir.unit(), 0) == f@);
            lemma_push_line_ok(b, f, dir, color, mag, 1);
        } else {
            let d = dir.unit();
            lemma_span_ends(f@, w);
            lemma_no_gaps(b, f@, n, 1, mag + 1);
            lemma_not_blocked(b, f@, n, d, mag + 1);
            lemma_no_overhang(b, f@, n, d, mag + 1);
            assert(along(f@, n, 0) == f@);
            let m = Move::Moved { dir, first: f, last: l };
            assert(m.axis() == n);
            assert(m.count() == mag);
            assert(forall|i: int|
                0 <= i <= mag ==> in_bounds(#[trigger] along(f@, n, i)) && in_bounds(
                    shift(along(f@, n, i), d),
                ));
            assert forall|q: (int, int)|
                in_bounds(q) && on_span(f@, n, 0, mag, back(q, d)) && !on_span(f@, n, 0, mag, q)
                    implies #[trigger] b[q] == None::<Color> by {
                let k = span_pos(f@, n, back(q, d));
                assert(q == shift(along(f@, n, k), d));
            }
        }
    }
}

} // verus!
