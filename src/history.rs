//! Applying a move to the board, its exact inverse, and the linear history
//! of moves with undo and redo.
use vstd::prelude::*;
use crate::board::{in_bounds, index_of, is_in_bounds, Abalone, Board, GameView, CELLS};
use crate::geometry::{along, magnitude, on_axis, sgn, times, Color, Dir, Pos2, Vec2};
use crate::outcome::Move;
use crate::rules::{lemma_span_ends, shift, span_vec};

verus! {

/// How many steps along the unit displacement `n` lead from `p` towards `q`.
pub open spec fn span_pos(p: (int, int), n: (int, int), q: (int, int)) -> int {
    if n.0 != 0 {
        times(n.0, q.0 - p.0)
    } else {
        times(n.1, q.1 - p.1)
    }
}

/// `q` is `k` steps from `p` along `n` for some `lo <= k <= hi`.
pub open spec fn on_span(p: (int, int), n: (int, int), lo: int, hi: int, q: (int, int)) -> bool {
    let k = span_pos(p, n, q);
    lo <= k <= hi && along(p, n, k) == q
}

pub open spec fn back(q: (int, int), d: (int, int)) -> (int, int) {
    (q.0 - d.0, q.1 - d.1)
}

/// `n` is the zero displacement or the unit displacement of a direction.
pub open spec fn axis_unit(n: (int, int)) -> bool {
    n == (0int, 0int) || n == (1int, 0int) || n == (0int, 1int) || n == (1int, 1int) || n == (
        -1int,
        0int,
    ) || n == (0int, -1int) || n == (-1int, -1int)
}

pub open spec fn opt_opp(c: Option<Color>) -> Option<Color> {
    match c {
        Some(c) => Some(c.opp()),
        None => None,
    }
}

impl Move {
    pub open spec fn first(self) -> Pos2 {
        match self {
            Move::PushedOff { first, .. } => first,
            Move::PushedAway { first, .. } => first,
            Move::Moved { first, .. } => first,
        }
    }

    pub open spec fn last(self) -> Pos2 {
        match self {
            Move::PushedOff { last, .. } => last,
            Move::PushedAway { last, .. } => last,
            Move::Moved { last, .. } => last,
        }
    }

    /// Unit displacement along the span from `first` to `last` (zero if
    /// they coincide).
    pub open spec fn axis(self) -> (int, int) {
        let v = span_vec(self.first(), self.last());
        (sgn(v.0), sgn(v.1))
    }

    /// Number of steps from `first` to `last`.
    pub open spec fn count(self) -> int {
        let v = span_vec(self.first(), self.last());
        magnitude(v.0, v.1)
    }

    /// The move's shape can be applied to any board: its span lies on an
    /// axis, every cell it touches is on the board, and a plain move never
    /// runs against its own span.
    #[verifier::opaque]
    pub open spec fn well_formed(self) -> bool {
        let v = span_vec(self.first(), self.last());
        let p = self.first()@;
        let n = self.axis();
        let c = self.count();
        &&& on_axis(v.0, v.1)
        &&& match self {
            Move::Moved { dir, .. } => {
                &&& !(v != (0int, 0int) && (-n.0, -n.1) == dir.unit())
                &&& forall|k: int|
                    0 <= k <= c ==> in_bounds(#[trigger] along(p, n, k)) && in_bounds(
                        shift(along(p, n, k), dir.unit()),
                    )
            },
            Move::PushedAway { .. } => {
                &&& v != (0int, 0int)
                &&& forall|k: int| 0 <= k <= c + 1 ==> in_bounds(#[trigger] along(p, n, k))
            },
            Move::PushedOff { .. } => {
                &&& v != (0int, 0int)
                &&& forall|k: int| 0 <= k <= c ==> in_bounds(#[trigger] along(p, n, k))
            },
        }
    }

    /// The board before the move allows it to be undone exactly: the cells
    /// it moves into are empty, and a ball pushed off is of the other color
    /// than the first one.
    #[verifier::opaque]
    pub open spec fn fits(self, b: Board) -> bool {
        let p = self.first()@;
        let n = self.axis();
        let c = self.count();
        match self {
            Move::Moved { dir, .. } => forall|q: (int, int)|
                in_bounds(q) && on_span(p, n, 0, c, back(q, dir.unit())) && !on_span(p, n, 0, c, q)
                    ==> #[trigger] b[q] == None::<Color>,
            Move::PushedAway { .. } => b[along(p, n, c + 1)] == None::<Color>,
            Move::PushedOff { .. } => b[self.last()@] == opt_opp(b[p]) && b[p] is Some,
        }
    }
}

/// The board after a plain move: every ball of the span steps along `d`.
pub open spec fn moved_board(b: Board, p: (int, int), n: (int, int), lo: int, hi: int, d: (int, int)) -> Board {
    Map::new(
        |q: (int, int)| in_bounds(q),
        |q: (int, int)|
            if on_span(p, n, lo, hi, back(q, d)) {
                b[back(q, d)]
            } else if on_span(p, n, lo, hi, q) {
                None
            } else {
                b[q]
            },
    )
}

/// The span's balls between `lo` and `hi` steps from `p` each step one
/// further along `n`.
pub open spec fn shifted_board(b: Board, p: (int, int), n: (int, int), lo: int, hi: int) -> Board {
    Map::new(
        |q: (int, int)| in_bounds(q),
        |q: (int, int)|
            if on_span(p, n, lo, hi, back(q, n)) {
                b[back(q, n)]
            } else {
                b[q]
            },
    )
}

/// The board with a plain move of the span's first `hi + 1` balls undone.
pub open spec fn unmoved_board(b: Board, p: (int, int), n: (int, int), hi: int, d: (int, int)) -> Board {
    Map::new(
        |q: (int, int)| in_bounds(q),
        |q: (int, int)|
            if on_span(p, n, 0, hi, q) {
                b[shift(q, d)]
            } else if on_span(p, n, 0, hi, back(q, d)) {
                None
            } else {
                b[q]
            },
    )
}

/// Each of the span's first `hi + 1` cells takes the content of the next.
pub open spec fn unshifted_board(b: Board, p: (int, int), n: (int, int), hi: int) -> Board {
    Map::new(
        |q: (int, int)| in_bounds(q),
        |q: (int, int)|
            if on_span(p, n, 0, hi, q) {
                b[shift(q, n)]
            } else {
                b[q]
            },
    )
}

/// The board after the move.
pub open spec fn apply_board(b: Board, m: Move) -> Board {
    let p = m.first()@;
    let n = m.axis();
    let c = m.count();
    match m {
        Move::Moved { dir, .. } => moved_board(b, p, n, 0, c, dir.unit()),
        Move::PushedAway { .. } => shifted_board(b, p, n, 0, c).insert(p, None),
        Move::PushedOff { .. } => shifted_board(b, p, n, 0, c - 1).insert(p, None),
    }
}

/// The board with the move taken back.
pub open spec fn unapply_board(b: Board, m: Move) -> Board {
    let p = m.first()@;
    let n = m.axis();
    let c = m.count();
    match m {
        Move::Moved { dir, .. } => unmoved_board(b, p, n, c, dir.unit()),
        Move::PushedAway { .. } => unshifted_board(b, p, n, c).insert(along(p, n, c + 1), None),
        Move::PushedOff { .. } => {
            let u = unshifted_board(b, p, n, c - 1);
            u.insert(m.last()@, opt_opp(u[p]))
        },
    }
}

impl GameView {
    /// After committing `m`: moves beyond the cursor are dropped, `m` is
    /// appended, and the other side is to move.
    pub open spec fn submitted(self, m: Move) -> GameView {
        GameView {
            board: apply_board(self.board, m),
            moves: self.moves.subrange(0, self.idx).push(m),
            idx: self.idx + 1,
            turn: self.turn.opp(),
        }
    }

    pub open spec fn can_undo(self) -> bool {
        self.idx > 0
    }

    pub open spec fn can_redo(self) -> bool {
        self.idx < self.moves.len()
    }

    /// After taking back the last move in effect, if there is one.
    pub open spec fn undone(self) -> GameView {
        if self.idx == 0 {
            self
        } else {
            GameView {
                board: unapply_board(self.board, self.moves[self.idx - 1]),
                moves: self.moves,
                idx: self.idx - 1,
                turn: self.turn.opp(),
            }
        }
    }

    /// After making the next undone move again, if there is one.
    pub open spec fn redone(self) -> GameView {
        if self.idx >= self.moves.len() {
            self
        } else {
            GameView {
                board: apply_board(self.board, self.moves[self.idx]),
                moves: self.moves,
                idx: self.idx + 1,
                turn: self.turn.opp(),
            }
        }
    }
}

/// One step of taking back a plain move: the `i`-th ball of the span
/// returns from its destination, which becomes empty.
proof fn lemma_unmoved_step(b: Board, p: (int, int), n: (int, int), i: int, c: int, dir: Dir)
    requires
        axis_unit(n),
        0 <= i <= c <= 8,
        n == (0int, 0int) ==> c == 0,
        !(n != (0int, 0int) && (-n.0, -n.1) == dir.unit()),
        in_bounds(along(p, n, i)),
        in_bounds(shift(along(p, n, i), dir.unit())),
    ensures
        ({
            let d = dir.unit();
            let cur = unmoved_board(b, p, n, i - 1, d);
            let q = along(p, n, i);
            &&& cur[shift(q, d)] == b[shift(q, d)]
            &&& cur.insert(q, cur[shift(q, d)]).insert(shift(q, d), None) == unmoved_board(
                b,
                p,
                n,
                i,
                d,
            )
        }),
{
    let d = dir.unit();
    let cur = unmoved_board(b, p, n, i - 1, d);
    let q = along(p, n, i);
    let src = shift(q, d);
    lemma_step_off_span(p, n, i, dir);
    assert(back(src, d) == q);
    let target = unmoved_board(b, p, n, i, d);
    let next = cur.insert(q, cur[src]).insert(src, None);
    assert forall|x: (int, int)| #[trigger] target.dom().contains(x) implies next[x] == target[x]
        by {
        if x != q && x != src {
            assert(on_span(p, n, 0, i, x) == on_span(p, n, 0, i - 1, x));
            assert(on_span(p, n, 0, i, back(x, d)) == on_span(p, n, 0, i - 1, back(x, d)));
        }
    }
    assert(next =~= target);
}

/// One step along `dir` from the `i`-th position of a span lands on the
/// span only for an in-line step, and then on the next position.
proof fn lemma_step_off_span(p: (int, int), n: (int, int), i: int, dir: Dir)
    requires
        axis_unit(n),
        !(n != (0int, 0int) && (-n.0, -n.1) == dir.unit()),
    ensures
        forall|lo: int, hi: int|
            #[trigger] on_span(p, n, lo, hi, shift(along(p, n, i), dir.unit())) ==> n
                == dir.unit() && lo <= i + 1 <= hi,
{
}

impl Abalone {
    /// Writes one cell of the board.
    fn set_cell(&mut self, pos: Pos2, v: Option<Color>)
        requires
            old(self).wf(),
            in_bounds(pos@),
        ensures
            final(self).wf(),
            final(self)@.board == old(self)@.board.insert(pos@, v),
            final(self)@.moves == old(self)@.moves,
            final(self)@.idx == old(self)@.idx,
            final(self)@.turn == old(self)@.turn,
    {
        let i = (pos.y as usize) * 9 + (pos.x as usize);
        self.balls.set(i, v);
        assert(self@.board =~= old(self)@.board.insert(pos@, v));
    }

    /// Reads one cell of the board.
    fn cell(&self, pos: Pos2) -> (r: Option<Color>)
        requires
            self.wf(),
            in_bounds(pos@),
        ensures
            r == self@.board[pos@],
    {
        self.balls[(pos.y as usize) * 9 + (pos.x as usize)]
    }

    /// Moves the balls `lo..=hi` steps from `first` along `n` one step along
    /// `dir`, the farthest first.
    fn apply_moved(&mut self, first: Pos2, n: Vec2, c: i8, dir: Dir)
        requires
            old(self).wf(),
            axis_unit(n@),
            0 <= c <= 8,
            n@ == (0int, 0int) ==> c == 0,
            !(n@ != (0int, 0int) && (-n@.0, -n@.1) == dir.unit()),
            forall|k: int|
                0 <= k <= c ==> in_bounds(#[trigger] along(first@, n@, k)) && in_bounds(
                    shift(along(first@, n@, k), dir.unit()),
                ),
        ensures
            final(self).wf(),
            final(self)@.board == moved_board(old(self)@.board, first@, n@, 0, c as int, dir.unit()),
            final(self)@.moves == old(self)@.moves,
            final(self)@.idx == old(self)@.idx,
            final(self)@.turn == old(self)@.turn,
    {
        let ghost b = self@.board;
        let ghost d = dir.unit();
        let dv = dir.vec();
        let mut i: i8 = c + 1;
        assert(self@.board =~= moved_board(b, first@, n@, i as int, c as int, d));
        while i > 0
            invariant
                self.wf(),
                axis_unit(n@),
                0 <= i <= c + 1,
                c <= 8,
                n@ == (0int, 0int) ==> c == 0,
                !(n@ != (0int, 0int) && (-n@.0, -n@.1) == d),
                d == dir.unit(),
                dv@ == d,
                forall|k: int|
                    0 <= k <= c ==> in_bounds(#[trigger] along(first@, n@, k)) && in_bounds(
                        shift(along(first@, n@, k), d),
                    ),
                b.dom() == old(self)@.board.dom(),
                b == old(self)@.board,
                self@.board == moved_board(b, first@, n@, i as int, c as int, d),
                self@.moves == old(self)@.moves,
                self@.idx == old(self)@.idx,
                self@.turn == old(self)@.turn,
            decreases i,
        {
            i = i - 1;
            let pos = first.step(n, i);
            let dest = pos.add(dv);
            let v = self.cell(pos);
            self.set_cell(dest, v);
            self.set_cell(pos, None);
            assert(self@.board =~= moved_board(b, first@, n@, i as int, c as int, d));
        }
    }

    /// Shifts the balls `0..=hi` steps from `first` one step further along
    /// `n`, the farthest first, and empties `first`.
    fn apply_shifted(&mut self, first: Pos2, n: Vec2, hi: i8)
        requires
            old(self).wf(),
            axis_unit(n@),
            n@ != (0int, 0int),
            -1 <= hi <= 8,
            forall|k: int| 0 <= k <= hi + 1 ==> in_bounds(#[trigger] along(first@, n@, k)),
        ensures
            final(self).wf(),
            final(self)@.board == shifted_board(old(self)@.board, first@, n@, 0, hi as int).insert(
                first@,
                None,
            ),
            final(self)@.moves == old(self)@.moves,
            final(self)@.idx == old(self)@.idx,
            final(self)@.turn == old(self)@.turn,
    {
        let ghost b = self@.board;
        let mut i: i8 = hi + 1;
        assert(self@.board =~= shifted_board(b, first@, n@, i as int, hi as int));
        while i > 0
            invariant
                self.wf(),
                axis_unit(n@),
                n@ != (0int, 0int),
                0 <= i <= hi + 1,
                hi <= 8,
                forall|k: int| 0 <= k <= hi + 1 ==> in_bounds(#[trigger] along(first@, n@, k)),
                b == old(self)@.board,
                self@.board == shifted_board(b, first@, n@, i as int, hi as int),
                self@.moves == old(self)@.moves,
                self@.idx == old(self)@.idx,
                self@.turn == old(self)@.turn,
            decreases i,
        {
            i = i - 1;
            let pos = first.step(n, i);
            let dest = first.step(n, i + 1);
            let v = self.cell(pos);
            self.set_cell(dest, v);
            assert(self@.board =~= shifted_board(b, first@, n@, i as int, hi as int));
        }
        assert(along(first@, n@, 0) == first@);
        self.set_cell(first, None);
    }

    /// Takes back a plain move of the balls `0..=c` steps from `first`
    /// along `n`, the nearest first.
    fn unapply_moved(&mut self, first: Pos2, n: Vec2, c: i8, dir: Dir)
        requires
            old(self).wf(),
            axis_unit(n@),
            0 <= c <= 8,
            n@ == (0int, 0int) ==> c == 0,
            !(n@ != (0int, 0int) && (-n@.0, -n@.1) == dir.unit()),
            forall|k: int|
                0 <= k <= c ==> in_bounds(#[trigger] along(first@, n@, k)) && in_bounds(
                    shift(along(first@, n@, k), dir.unit()),
                ),
        ensures
            final(self).wf(),
            final(self)@.board == unmoved_board(old(self)@.board, first@, n@, c as int, dir.unit()),
            final(self)@.moves == old(self)@.moves,
            final(self)@.idx == old(self)@.idx,
            final(self)@.turn == old(self)@.turn,
    {
        let ghost b = self@.board;
        let ghost d = dir.unit();
        let dv = dir.vec();
        let mut i: i8 = 0;
        assert(self@.board =~= unmoved_board(b, first@, n@, -1, d));
        while i <= c
            invariant
                self.wf(),
                axis_unit(n@),
                0 <= i <= c + 1,
                c <= 8,
                n@ == (0int, 0int) ==> c == 0,
                !(n@ != (0int, 0int) && (-n@.0, -n@.1) == d),
                d == dir.unit(),
                dv@ == d,
                forall|k: int|
                    0 <= k <= c ==> in_bounds(#[trigger] along(first@, n@, k)) && in_bounds(
                        shift(along(first@, n@, k), d),
                    ),
                b == old(self)@.board,
                self@.board == unmoved_board(b, first@, n@, i - 1, d),
                self@.moves == old(self)@.moves,
                self@.idx == old(self)@.idx,
                self@.turn == old(self)@.turn,
            decreases c + 1 - i,
        {
            let pos = first.step(n, i);
            let src = pos.add(dv);
            proof {
                lemma_unmoved_step(b, first@, n@, i as int, c as int, dir);
            }
            let v = self.cell(src);
            self.set_cell(pos, v);
            self.set_cell(src, None);
            i = i + 1;
        }
    }

    /// Each cell `0..=hi` steps from `first` along `n` takes the content of
    /// the next one, the nearest first.
    fn unapply_shifted(&mut self, first: Pos2, n: Vec2, hi: i8)
        requires
            old(self).wf(),
            axis_unit(n@),
            n@ != (0int, 0int),
            -1 <= hi <= 8,
            forall|k: int| 0 <= k <= hi + 1 ==> in_bounds(#[trigger] along(first@, n@, k)),
        ensures
            final(self).wf(),
            final(self)@.board == unshifted_board(old(self)@.board, first@, n@, hi as int),
            final(self)@.moves == old(self)@.moves,
            final(self)@.idx == old(self)@.idx,
            final(self)@.turn == old(self)@.turn,
    {
        let ghost b = self@.board;
        let mut i: i8 = 0;
        assert(self@.board =~= unshifted_board(b, first@, n@, -1));
        while i <= hi
            invariant
                self.wf(),
                axis_unit(n@),
                n@ != (0int, 0int),
                0 <= i <= hi + 1,
                hi <= 8,
                forall|k: int| 0 <= k <= hi + 1 ==> in_bounds(#[trigger] along(first@, n@, k)),
                b == old(self)@.board,
                self@.board == unshifted_board(b, first@, n@, i - 1),
                self@.moves == old(self)@.moves,
                self@.idx == old(self)@.idx,
                self@.turn == old(self)@.turn,
            decreases hi + 1 - i,
        {
            let pos = first.step(n, i);
            let src = first.step(n, i + 1);
            let v = self.cell(src);
            self.set_cell(pos, v);
            assert(self@.board =~= unshifted_board(b, first@, n@, i as int));
            i = i + 1;
        }
    }

    /// The span of a well-formed move: its axis and its number of steps.
    fn span_of(first: Pos2, last: Pos2) -> (r: (Vec2, i8))
        requires
            in_bounds(first@),
            in_bounds(last@),
            on_axis(last@.0 - first@.0, last@.1 - first@.1),
        ensures
            r.0@ == (sgn(last@.0 - first@.0), sgn(last@.1 - first@.1)),
            r.1 == magnitude(last@.0 - first@.0, last@.1 - first@.1),
            0 <= r.1 <= 8,
            axis_unit(r.0@),
            r.0@ == (0int, 0int) ==> r.1 == 0,
    {
        let vec = last.sub(first);
        (vec.norm(), vec.mag())
    }

    /// Applies a move to the board; the history and the side to move are
    /// left as they are.
    pub fn apply_move(&mut self, mov: Move)
        requires
            old(self).wf(),
            mov.well_formed(),
        ensures
            final(self).wf(),
            final(self)@.board == apply_board(old(self)@.board, mov),
            final(self)@.moves == old(self)@.moves,
            final(self)@.idx == old(self)@.idx,
            final(self)@.turn == old(self)@.turn,
    {
        let ghost p = mov.first()@;
        let ghost v = span_vec(mov.first(), mov.last());
        proof {
            reveal(Move::well_formed);
            assert(along(p, mov.axis(), 0) == p);
            if v != (0int, 0int) {
                lemma_span_ends(p, v);
                assert(in_bounds(along(p, mov.axis(), mov.count())));
            }
        }
        match mov {
            Move::PushedOff { first, last } => {
                let (norm, num) = Self::span_of(first, last);
                self.apply_shifted(first, norm, num - 1);
            },
            Move::PushedAway { first, last } => {
                let (norm, num) = Self::span_of(first, last);
                self.apply_shifted(first, norm, num);
            },
            Move::Moved { dir, first, last } => {
                let (norm, num) = Self::span_of(first, last);
                self.apply_moved(first, norm, num, dir);
            },
        }
    }

    /// Takes a move back: the exact inverse of `apply_move` on a board that
    /// the move fits.
    pub fn unapply_move(&mut self, mov: Move)
        requires
            old(self).wf(),
            mov.well_formed(),
        ensures
            final(self).wf(),
            final(self)@.board == unapply_board(old(self)@.board, mov),
            final(self)@.moves == old(self)@.moves,
            final(self)@.idx == old(self)@.idx,
            final(self)@.turn == old(self)@.turn,
    {
        let ghost p = mov.first()@;
        let ghost v = span_vec(mov.first(), mov.last());
        proof {
            reveal(Move::well_formed);
            assert(along(p, mov.axis(), 0) == p);
            if v != (0int, 0int) {
                lemma_span_ends(p, v);
                assert(in_bounds(along(p, mov.axis(), mov.count())));
            }
        }
        match mov {
            Move::PushedOff { first, last } => {
                let (norm, num) = Self::span_of(first, last);
                self.unapply_shifted(first, norm, num - 1);
                let c = self.cell(first);
                let back = match c {
                    Some(c) => Some(c.opposite()),
                    None => None,
                };
                self.set_cell(last, back);
            },
            Move::PushedAway { first, last } => {
                let (norm, num) = Self::span_of(first, last);
                self.unapply_shifted(first, norm, num);
                let beyond = first.step(norm, num + 1);
                self.set_cell(beyond, None);
            },
            Move::Moved { dir, first, last } => {
                let (norm, num) = Self::span_of(first, last);
                self.unapply_moved(first, norm, num, dir);
            },
        }
    }

    /// Commits a move: applies it, passes the turn, drops the moves that
    /// could have been redone and records the move.
    pub fn submit_move(&mut self, mov: Move)
        requires
            old(self).wf(),
            mov.well_formed(),
        ensures
            final(self).wf(),
            final(self)@ == old(self)@.submitted(mov),
    {
        self.apply_move(mov);
        self.turn = self.turn.opposite();
        self.moves.truncate(self.move_idx);
        self.moves.push(mov);
        self.move_idx = self.moves.len();
        assert(self@.moves =~= old(self)@.moves.subrange(0, old(self)@.idx).push(mov));
    }

    pub fn can_undo(&self) -> (r: bool)
        ensures
            r == self@.can_undo(),
    {
        self.move_idx > 0
    }

    pub fn can_redo(&self) -> (r: bool)
        ensures
            r == self@.can_redo(),
    {
        self.move_idx < self.moves.len()
    }

    /// Takes back the last move in effect; does nothing if there is none.
    pub fn undo_move(&mut self)
        requires
            old(self).wf(),
        ensures
            final(self).wf(),
            final(self)@ == old(self)@.undone(),
    {
        if self.move_idx == 0 {
            return;
        }
        self.turn = self.turn.opposite();
        self.move_idx = self.move_idx - 1;
        let mov = self.moves[self.move_idx];
        self.unapply_move(mov);
    }

    /// Makes the next undone move again; does nothing if there is none.
    pub fn redo_move(&mut self)
        requires
            old(self).wf(),
        ensures
            final(self).wf(),
            final(self)@ == old(self)@.redone(),
    {
        if self.move_idx == self.moves.len() {
            return;
        }
        self.turn = self.turn.opposite();
        let mov = self.moves[self.move_idx];
        self.move_idx = self.move_idx + 1;
        self.apply_move(mov);
    }
}

impl Move {
    /// Whether the move's shape can be applied to a board: see
    /// `well_formed`.
    pub fn is_well_formed(&self) -> (r: bool)
        ensures
            r == self.well_formed(),
    {
        reveal(Move::well_formed);
        let (first, last) = match *self {
            Move::PushedOff { first, last } => (first, last),
            Move::PushedAway { first, last } => (first, last),
            Move::Moved { first, last, .. } => (first, last),
        };
        let ghost p = first@;
        let ghost v = span_vec(first, last);
        proof {
            assert(along(p, self.axis(), 0) == p);
            if v != (0int, 0int) && on_axis(v.0, v.1) {
                lemma_span_ends(p, v);
            }
        }
        if !is_in_bounds(first) || !is_in_bounds(last) {
            return false;
        }
        let vec = last.sub(first);
        if !vec.is_multiple_of_unit_vec() {
            return false;
        }
        let (norm, num) = Abalone::span_of(first, last);
        let (dv, reach) = match *self {
            Move::Moved { dir, .. } => {
                let dv = dir.vec();
                if num > 0 && -norm.x == dv.x && -norm.y == dv.y {
                    return false;
                }
                (dv, num)
            },
            Move::PushedAway { .. } => {
                if num == 0 {
                    return false;
                }
                (Vec2 { x: 0, y: 0 }, num + 1)
            },
            Move::PushedOff { .. } => {
                if num == 0 {
                    return false;
                }
                (Vec2 { x: 0, y: 0 }, num)
            },
        };
        let ghost d = dv@;
        let mut k: i8 = 0;
        while k <= reach
            invariant
                p == first@,
                p == self.first()@,
                0 <= k <= reach + 1,
                0 <= num <= 8,
                reach <= num + 1,
                axis_unit(norm@),
                in_bounds(first@),
                in_bounds(last@),
                norm@ == self.axis(),
                num == self.count(),
                d == dv@,
                -1 <= dv.x <= 1,
                -1 <= dv.y <= 1,
                self is Moved ==> reach == num && d == self->Moved_dir.unit(),
                self is PushedAway ==> reach == num + 1 && d == (0int, 0int),
                self is PushedOff ==> reach == num && d == (0int, 0int),
                num > 0 ==> along(p, norm@, num as int) == last@,
                num == 0 ==> norm@ == (0int, 0int),
                forall|j: int|
                    0 <= j < k ==> in_bounds(#[trigger] along(p, norm@, j)) && in_bounds(
                        shift(along(p, norm@, j), d),
                    ),
            decreases reach + 1 - k,
        {
            let pos = first.step(norm, k);
            assert(pos@ == along(p, self.axis(), k as int));
            if !is_in_bounds(pos) {
                proof {
                    reveal(Move::well_formed);
                    if self.well_formed() {
                        assert(in_bounds(along(p, self.axis(), k as int)));
                    }
                }
                return false;
            }
            let dest = pos.add(dv);
            assert(dest@ == shift(along(p, self.axis(), k as int), d));
            if !is_in_bounds(dest) {
                proof {
                    reveal(Move::well_formed);
                    if self.well_formed() {
                        assert(in_bounds(along(p, self.axis(), k as int)));
                        if self is Moved {
                            assert(in_bounds(shift(along(p, self.axis(), k as int), d)));
                        }
                    }
                }
                return false;
            }
            assert(in_bounds(along(p, norm@, k as int)) && in_bounds(
                shift(along(p, norm@, k as int), d),
            ));
            k = k + 1;
        }
        proof {
            assert forall|j: int| 0 <= j <= reach implies in_bounds(#[trigger] along(p, norm@, j))
                by {
                assert(in_bounds(shift(along(p, norm@, j), d)));
            }
        }
        true
    }
}

} // verus!
