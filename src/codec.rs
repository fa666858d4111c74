//! A byte format for a game session that round-trips exactly: the side to
//! move, the 81 stored cells, then the moves in order with a cursor mark
//! placed before the first move that is not in effect.
use vstd::prelude::*;
use crate::board::{Abalone, CELLS};
use crate::geometry::{Color, Dir, Pos2};
use crate::laws::lemma_move_cells;
use crate::outcome::Move;

verus! {

/// Marks the cursor among the move records.
pub const CURSOR: u8 = 0;

pub const TAG_PUSHED_OFF: u8 = 1;

pub const TAG_PUSHED_AWAY: u8 = 2;

pub const TAG_MOVED: u8 = 3;

/// Length of the header: the side to move and the stored cells.
pub const HEADER: usize = 82;

pub open spec fn color_code(c: Color) -> u8 {
    match c {
        Color::Black => 0,
        Color::White => 1,
    }
}

pub open spec fn cell_code(c: Option<Color>) -> u8 {
    match c {
        None => 0,
        Some(Color::Black) => 1,
        Some(Color::White) => 2,
    }
}

pub open spec fn cell_of_code(b: u8) -> Option<Color> {
    if b == 1 {
        Some(Color::Black)
    } else if b == 2 {
        Some(Color::White)
    } else {
        None
    }
}

pub open spec fn dir_code(d: Dir) -> u8 {
    match d {
        Dir::PosX => 0,
        Dir::PosY => 1,
        Dir::PosZ => 2,
        Dir::NegX => 3,
        Dir::NegY => 4,
        Dir::NegZ => 5,
    }
}

pub open spec fn dir_of_code(b: u8) -> Option<Dir> {
    if b == 0 {
        Some(Dir::PosX)
    } else if b == 1 {
        Some(Dir::PosY)
    } else if b == 2 {
        Some(Dir::PosZ)
    } else if b == 3 {
        Some(Dir::NegX)
    } else if b == 4 {
        Some(Dir::NegY)
    } else if b == 5 {
        Some(Dir::NegZ)
    } else {
        None
    }
}

/// The record of one move: a tag, the direction of a plain move, then the
/// coordinates of the first and last positions.
pub open spec fn move_bytes(m: Move) -> Seq<u8> {
    match m {
        Move::PushedOff { first: f, last: l } => seq![
            TAG_PUSHED_OFF,
            f.x as u8,
            f.y as u8,
            l.x as u8,
            l.y as u8,
        ],
        Move::PushedAway { first: f, last: l } => seq![
            TAG_PUSHED_AWAY,
            f.x as u8,
            f.y as u8,
            l.x as u8,
            l.y as u8,
        ],
        Move::Moved { dir, first: f, last: l } => seq![
            TAG_MOVED,
            dir_code(dir),
            f.x as u8,
            f.y as u8,
            l.x as u8,
            l.y as u8,
        ],
    }
}

/// The records of the moves from the `j`-th on, with the cursor mark
/// before the `idx`-th move (or at the end if `idx` is the number of moves).
pub open spec fn records(ms: Seq<Move>, idx: int, j: int) -> Seq<u8>
    decreases ms.len() - j,
{
    let mark = if j == idx {
        seq![CURSOR]
    } else {
        Seq::empty()
    };
    if 0 <= j < ms.len() {
        mark + move_bytes(ms[j]) + records(ms, idx, j + 1)
    } else {
        mark
    }
}

/// The bytes of a session with stored cells `balls`, moves `ms`, cursor
/// `idx` and `turn` to move.
pub open spec fn encoding(balls: Seq<Option<Color>>, ms: Seq<Move>, idx: int, turn: Color) -> Seq<
    u8,
> {
    seq![color_code(turn)] + balls.map_values(|c: Option<Color>| cell_code(c)) + records(ms, idx, 0)
}

/// The move record at `i`, with its length, if the bytes there form one.
pub open spec fn move_at(bytes: Seq<u8>, i: int) -> Option<(Move, int)> {
    let tag = bytes[i];
    if (tag == TAG_PUSHED_OFF || tag == TAG_PUSHED_AWAY) && i + 5 <= bytes.len() {
        let first = Pos2 { x: bytes[i + 1] as i8, y: bytes[i + 2] as i8 };
        let last = Pos2 { x: bytes[i + 3] as i8, y: bytes[i + 4] as i8 };
        if tag == TAG_PUSHED_OFF {
            Some((Move::PushedOff { first, last }, 5))
        } else {
            Some((Move::PushedAway { first, last }, 5))
        }
    } else if tag == TAG_MOVED && i + 6 <= bytes.len() && dir_of_code(bytes[i + 1]) is Some {
        let first = Pos2 { x: bytes[i + 2] as i8, y: bytes[i + 3] as i8 };
        let last = Pos2 { x: bytes[i + 4] as i8, y: bytes[i + 5] as i8 };
        Some((Move::Moved { dir: dir_of_code(bytes[i + 1])->Some_0, first, last }, 6))
    } else {
        None
    }
}

/// Reads the records from `i` on, given the moves `ms` read so far and the
/// cursor if it was met: the moves and the cursor, or `None` if the bytes
/// hold anything but well-formed moves and exactly one cursor mark.
pub open spec fn parse_records(bytes: Seq<u8>, i: int, ms: Seq<Move>, idx: Option<int>) -> Option<
    (Seq<Move>, int),
>
    decreases bytes.len() - i,
{
    if i < 0 {
        None
    } else if i >= bytes.len() {
        match idx {
            Some(k) => Some((ms, k)),
            None => None,
        }
    } else if bytes[i] == CURSOR {
        if idx is Some {
            None
        } else {
            parse_records(bytes, i + 1, ms, Some(ms.len() as int))
        }
    } else {
        match move_at(bytes, i) {
            Some((m, n)) => if m.well_formed() {
                parse_records(bytes, i + n, ms.push(m), idx)
            } else {
                None
            },
            None => None,
        }
    }
}

/// The session that `bytes` encode, as its stored cells, moves, cursor
/// and side to move; `None` if they encode none.
pub open spec fn parse(bytes: Seq<u8>) -> Option<(Seq<Option<Color>>, Seq<Move>, int, Color)> {
    if bytes.len() >= HEADER && bytes[0] <= 1 && forall|i: int|
        1 <= i < HEADER ==> #[trigger] bytes[i] <= 2 {
        match parse_records(bytes, HEADER as int, Seq::empty(), None) {
            Some((ms, k)) => Some(
                (
                    Seq::new(81, |i: int| cell_of_code(bytes[i + 1])),
                    ms,
                    k,
                    if bytes[0] == 0 {
                        Color::Black
                    } else {
                        Color::White
                    },
                ),
            ),
            None => None,
        }
    } else {
        None
    }
}

/// Reading the records of the moves from the `j`-th on, placed at `i`,
/// gives back all the moves and the cursor.
proof fn lemma_records_parse(bytes: Seq<u8>, i: int, ms: Seq<Move>, idx: int, j: int)
    requires
        0 <= idx <= ms.len(),
        0 <= j <= ms.len(),
        0 <= i <= bytes.len(),
        forall|k: int| 0 <= k < ms.len() ==> (#[trigger] ms[k]).well_formed(),
        bytes.subrange(i, bytes.len() as int) == records(ms, idx, j),
    ensures
        parse_records(
            bytes,
            i,
            ms.subrange(0, j),
            if idx < j {
                Some(idx)
            } else {
                None
            },
        ) == Some((ms, idx)),
    decreases ms.len() - j,
{
    let len = bytes.len() as int;
    let pre = ms.subrange(0, j);
    let rest = bytes.subrange(i, len);
    let mark = if j == idx {
        seq![CURSOR]
    } else {
        Seq::<u8>::empty()
    };
    let tail = if j < ms.len() {
        move_bytes(ms[j]) + records(ms, idx, j + 1)
    } else {
        Seq::<u8>::empty()
    };
    assert(records(ms, idx, j) == mark + tail);
    assert(rest.len() == mark.len() + tail.len());
    let i1 = i + mark.len();
    if j == idx {
        assert(rest[0] == CURSOR);
        assert(bytes[i] == CURSOR);
    }
    assert(bytes.subrange(i1, len) =~= tail) by {
        assert forall|t: int| 0 <= t < tail.len() implies #[trigger] bytes.subrange(i1, len)[t]
            == tail[t] by {
            assert(rest[mark.len() + t] == (mark + tail)[mark.len() + t]);
        }
    }
    let opt1: Option<int> = if idx <= j {
        Some(idx)
    } else {
        None
    };
    let opt: Option<int> = if idx < j {
        Some(idx)
    } else {
        None
    };
    assert(pre.len() == j);
    assert(parse_records(bytes, i, pre, opt) == parse_records(bytes, i1, pre, opt1));
    if j == ms.len() {
        assert(i1 == len);
        assert(pre =~= ms);
    } else {
        let m = ms[j];
        let mb = move_bytes(m);
        let n = mb.len() as int;
        lemma_move_cells(m);
        assert forall|t: int| 0 <= t < n implies bytes[i1 + t] == #[trigger] mb[t] by {
            assert(bytes.subrange(i1, len)[t] == mb[t]);
        }
        let (f, l) = (m.first(), m.last());
        assert((f.x as u8) as i8 == f.x && (f.y as u8) as i8 == f.y);
        assert((l.x as u8) as i8 == l.x && (l.y as u8) as i8 == l.y);
        assert(bytes[i1] == mb[0]);
        assert(bytes[i1 + 1] == mb[1]);
        assert(bytes[i1 + 2] == mb[2]);
        assert(bytes[i1 + 3] == mb[3]);
        assert(bytes[i1 + 4] == mb[4]);
        if m is Moved {
            assert(bytes[i1 + 5] == mb[5]);
        }
        assert(move_at(bytes, i1) == Some((m, n)));
        assert(bytes.subrange(i1 + n, len) =~= records(ms, idx, j + 1)) by {
            let later = records(ms, idx, j + 1);
            assert forall|t: int| 0 <= t < later.len() implies #[trigger] bytes.subrange(
                i1 + n,
                len,
            )[t] == later[t] by {
                assert(bytes.subrange(i1, len)[n + t] == tail[n + t]);
            }
        }
        assert(bytes[i1] != CURSOR);
        assert(parse_records(bytes, i1, pre, opt1) == parse_records(
            bytes,
            i1 + n,
            pre.push(m),
            opt1,
        ));
        lemma_records_parse(bytes, i1 + n, ms, idx, j + 1);
        assert(pre.push(m) =~= ms.subrange(0, j + 1));
    }
}

/// Decoding the encoding of a well-formed session gives that session back.
pub proof fn lemma_round_trip(balls: Seq<Option<Color>>, ms: Seq<Move>, idx: int, turn: Color)
    requires
        balls.len() == CELLS,
        0 <= idx <= ms.len(),
        forall|k: int| 0 <= k < ms.len() ==> (#[trigger] ms[k]).well_formed(),
    ensures
        parse(encoding(balls, ms, idx, turn)) == Some((balls, ms, idx, turn)),
{
    let e = encoding(balls, ms, idx, turn);
    let cells = balls.map_values(|c: Option<Color>| cell_code(c));
    assert forall|i: int| 1 <= i < HEADER implies #[trigger] e[i] <= 2 by {
        assert(e[i] == cells[i - 1]);
    }
    assert(Seq::new(81, |i: int| cell_of_code(e[i + 1])) =~= balls) by {
        assert forall|i: int| 0 <= i < 81 implies cell_of_code(e[i + 1]) == balls[i] by {
            assert(e[i + 1] == cells[i]);
        }
    }
    assert(e.subrange(HEADER as int, e.len() as int) =~= records(ms, idx, 0));
    lemma_records_parse(e, HEADER as int, ms, idx, 0);
    assert(ms.subrange(0, 0) =~= Seq::<Move>::empty());
}

pub open spec fn opt_int(o: Option<usize>) -> Option<int> {
    match o {
        Some(k) => Some(k as int),
        None => None,
    }
}

fn dir_from_code(b: u8) -> (r: Option<Dir>)
    ensures
        r == dir_of_code(b),
{
    if b == 0 {
        Some(Dir::PosX)
    } else if b == 1 {
        Some(Dir::PosY)
    } else if b == 2 {
        Some(Dir::PosZ)
    } else if b == 3 {
        Some(Dir::NegX)
    } else if b == 4 {
        Some(Dir::NegY)
    } else if b == 5 {
        Some(Dir::NegZ)
    } else {
        None
    }
}

/// Reads the move record at `i`, with its length.
fn read_move(bytes: &[u8], i: usize) -> (r: Option<(Move, usize)>)
    requires
        i < bytes@.len(),
    ensures
        r matches Some((m, n)) ==> move_at(bytes@, i as int) == Some((m, n as int)),
        r is None ==> move_at(bytes@, i as int) is None,
{
    let tag = bytes[i];
    let room = bytes.len() - i;
    if (tag == TAG_PUSHED_OFF || tag == TAG_PUSHED_AWAY) && room >= 5 {
        let first = Pos2 { x: bytes[i + 1] as i8, y: bytes[i + 2] as i8 };
        let last = Pos2 { x: bytes[i + 3] as i8, y: bytes[i + 4] as i8 };
        if tag == TAG_PUSHED_OFF {
            Some((Move::PushedOff { first, last }, 5))
        } else {
            Some((Move::PushedAway { first, last }, 5))
        }
    } else if tag == TAG_MOVED && room >= 6 {
        match dir_from_code(bytes[i + 1]) {
            Some(dir) => {
                let first = Pos2 { x: bytes[i + 2] as i8, y: bytes[i + 3] as i8 };
                let last = Pos2 { x: bytes[i + 4] as i8, y: bytes[i + 5] as i8 };
                Some((Move::Moved { dir, first, last }, 6))
            },
            None => None,
        }
    } else {
        None
    }
}

/// Appends the record of `m`.
fn push_move(out: &mut Vec<u8>, m: Move)
    ensures
        final(out)@ == old(out)@ + move_bytes(m),
{
    let ghost before = out@;
    match m {
        Move::PushedOff { first, last } => {
            out.push(TAG_PUSHED_OFF);
        },
        Move::PushedAway { first, last } => {
            out.push(TAG_PUSHED_AWAY);
        },
        Move::Moved { dir, first, last } => {
            out.push(TAG_MOVED);
            out.push(
                match dir {
                    Dir::PosX => 0,
                    Dir::PosY => 1,
                    Dir::PosZ => 2,
                    Dir::NegX => 3,
                    Dir::NegY => 4,
                    Dir::NegZ => 5,
                },
            );
        },
    }
    let (first, last) = match m {
        Move::PushedOff { first, last } => (first, last),
        Move::PushedAway { first, last } => (first, last),
        Move::Moved { first, last, .. } => (first, last),
    };
    out.push(first.x as u8);
    out.push(first.y as u8);
    out.push(last.x as u8);
    out.push(last.y as u8);
    assert(out@ =~= before + move_bytes(m));
}

impl Abalone {
    /// The session as bytes: see `encoding`.
    pub fn encode(&self) -> (r: Vec<u8>)
        ensures
            r@ == encoding(self.balls@, self.moves@, self.move_idx as int, self.turn),
    {
        let ghost full = encoding(self.balls@, self.moves@, self.move_idx as int, self.turn);
        let ghost cells = self.balls@.map_values(|c: Option<Color>| cell_code(c));
        let mut out: Vec<u8> = Vec::new();
        out.push(
            match self.turn {
                Color::Black => 0,
                Color::White => 1,
            },
        );
        let mut i: usize = 0;
        while i < self.balls.len()
            invariant
                0 <= i <= self.balls@.len(),
                cells == self.balls@.map_values(|c: Option<Color>| cell_code(c)),
                out@ == seq![color_code(self.turn)] + cells.subrange(0, i as int),
            decreases self.balls@.len() - i,
        {
            out.push(
                match self.balls[i] {
                    None => 0,
                    Some(Color::Black) => 1,
                    Some(Color::White) => 2,
                },
            );
            i = i + 1;
            assert(out@ =~= seq![color_code(self.turn)] + cells.subrange(0, i as int));
        }
        assert(cells.subrange(0, i as int) =~= cells);
        let mut j: usize = 0;
        while j < self.moves.len()
            invariant
                0 <= j <= self.moves@.len(),
                full == encoding(self.balls@, self.moves@, self.move_idx as int, self.turn),
                out@ + records(self.moves@, self.move_idx as int, j as int) == full,
            decreases self.moves@.len() - j,
        {
            let ghost later = records(self.moves@, self.move_idx as int, j + 1);
            let ghost before = out@;
            if j == self.move_idx {
                out.push(CURSOR);
            }
            push_move(&mut out, self.moves[j]);
            j = j + 1;
            assert(out@ + later =~= before + records(self.moves@, self.move_idx as int, j - 1));
        }
        if self.move_idx == self.moves.len() {
            out.push(CURSOR);
        }
        assert(out@ =~= full);
        out
    }

    /// The session that `bytes` encode, or `None` if they encode none:
    /// a side to move, 81 cell codes, and well-formed move records with
    /// exactly one cursor mark.
    pub fn decode(bytes: &[u8]) -> (r: Option<Abalone>)
        ensures
            match r {
                Some(g) => g.wf() && parse(bytes@) == Some(
                    (g.balls@, g.moves@, g.move_idx as int, g.turn),
                ),
                None => parse(bytes@) is None,
            },
    {
        if bytes.len() < HEADER {
            return None;
        }
        let turn = match Color::try_from(bytes[0]) {
            Ok(c) => c,
            Err(_) => return None,
        };
        let mut balls: Vec<Option<Color>> = Vec::new();
        let mut i: usize = 1;
        while i < HEADER
            invariant
                1 <= i <= HEADER,
                bytes@.len() >= HEADER,
                forall|k: int| 1 <= k < i ==> #[trigger] bytes@[k] <= 2,
                balls@ == Seq::new((i - 1) as nat, |k: int| cell_of_code(bytes@[k + 1])),
            decreases HEADER - i,
        {
            let b = bytes[i];
            if b > 2 {
                return None;
            }
            balls.push(
                if b == 1 {
                    Some(Color::Black)
                } else if b == 2 {
                    Some(Color::White)
                } else {
                    None
                },
            );
            i = i + 1;
            assert(balls@ =~= Seq::new((i - 1) as nat, |k: int| cell_of_code(bytes@[k + 1])));
        }
        let mut moves: Vec<Move> = Vec::new();
        let mut idx: Option<usize> = None;
        let mut i: usize = HEADER;
        while i < bytes.len()
            invariant
                HEADER <= i <= bytes@.len(),
                forall|k: int| 0 <= k < moves@.len() ==> (#[trigger] moves@[k]).well_formed(),
                idx matches Some(k) ==> k <= moves@.len(),
                parse_records(bytes@, i as int, moves@, opt_int(idx)) == parse_records(
                    bytes@,
                    HEADER as int,
                    Seq::empty(),
                    None,
                ),
            decreases bytes@.len() - i,
        {
            if bytes[i] == CURSOR {
                if idx.is_some() {
                    return None;
                }
                idx = Some(moves.len());
                i = i + 1;
            } else {
                match read_move(bytes, i) {
                    Some((m, n)) => {
                        if !m.is_well_formed() {
                            return None;
                        }
                        moves.push(m);
                        i = i + n;
                    },
                    None => return None,
                }
            }
        }
        match idx {
            Some(k) => Some(Abalone { balls, moves, move_idx: k, turn }),
            None => None,
        }
    }
}

} // verus!
