//! The board: a hexagon of 61 cells carved out of a 9 by 9 square, and the
//! game session that owns it.
use vstd::prelude::*;
use crate::geometry::{Color, Pos2};
use crate::outcome::Move;

verus! {

/// Balls of each color on the board at the start.
pub const NUM_STARTING_BALLS: u8 = 14;

/// Width and height of the square that holds the hexagon.
pub const SIZE: i8 = 9;

/// Number of cells of the square.
pub const CELLS: usize = 81;

/// The cell `p` belongs to the hexagon.
pub open spec fn in_bounds(p: (int, int)) -> bool {
    0 <= p.0 < 9 && 0 <= p.1 < 9 && p.0 - p.1 < 5 && p.1 - p.0 < 5
}

/// Where cell `p` is stored: rows one after another.
pub open spec fn index_of(p: (int, int)) -> int {
    9 * p.1 + p.0
}

/// Contents of the hexagon's cells.
pub type Board = Map<(int, int), Option<Color>>;

/// A cell of the board: `None` off the board, else whether a ball is there.
pub open spec fn look(b: Board, p: (int, int)) -> Option<Option<Color>> {
    if in_bounds(p) {
        Some(b[p])
    } else {
        None
    }
}

/// A ball stands at `p`.
pub open spec fn is_ball(b: Board, p: (int, int)) -> bool {
    in_bounds(p) && b[p] is Some
}

/// The starting layout: each color fills a 14-cell cluster on its side.
pub open spec fn start_cell(p: (int, int)) -> Option<Color> {
    let (x, y) = p;
    if (y == 0 && 0 <= x < 5) || (y == 1 && 0 <= x < 6) || (y == 2 && 2 <= x < 5) {
        Some(Color::Black)
    } else if (y == 8 && 4 <= x < 9) || (y == 7 && 3 <= x < 9) || (y == 6 && 4 <= x < 7) {
        Some(Color::White)
    } else {
        None
    }
}

pub open spec fn start_board() -> Board {
    Map::new(|p: (int, int)| in_bounds(p), |p: (int, int)| start_cell(p))
}

/// A game session: the board, the moves made, how many of them are in
/// effect (the rest can be redone), and the side to move.
#[derive(Clone, Debug, PartialEq)]
pub struct Abalone {
    /// The cells of the 9 by 9 square, row by row; cells off the hexagon
    /// stay empty.
    pub balls: Vec<Option<Color>>,
    pub moves: Vec<Move>,
    pub move_idx: usize,
    pub turn: Color,
}

/// The state of a session as mathematics.
pub struct GameView {
    pub board: Board,
    pub moves: Seq<Move>,
    pub idx: int,
    pub turn: Color,
}

impl View for Abalone {
    type V = GameView;

    open spec fn view(&self) -> GameView {
        GameView {
            board: Map::new(
                |p: (int, int)| in_bounds(p),
                |p: (int, int)| self.balls@[index_of(p)],
            ),
            moves: self.moves@,
            idx: self.move_idx as int,
            turn: self.turn,
        }
    }
}

impl Default for Abalone {
    fn default() -> (r: Abalone)
        ensures
            r.wf(),
            r@.board == start_board(),
            r@.moves == Seq::<Move>::empty(),
            r@.idx == 0,
            r@.turn == Color::White,
    {
        Abalone::new()
    }
}

pub fn is_in_bounds(pos: Pos2) -> (r: bool)
    ensures
        r == in_bounds(pos@),
{
    0 <= pos.x && pos.x < SIZE && 0 <= pos.y && pos.y < SIZE && pos.x - pos.y < 5 && pos.y
        - pos.x < 5
}

fn start_cell_at(x: i8, y: i8) -> (r: Option<Color>)
    ensures
        r == start_cell((x as int, y as int)),
{
    if (y == 0 && 0 <= x && x < 5) || (y == 1 && 0 <= x && x < 6) || (y == 2 && 2 <= x && x
        < 5) {
        Some(Color::Black)
    } else if (y == 8 && 4 <= x && x < 9) || (y == 7 && 3 <= x && x < 9) || (y == 6 && 4 <= x
        && x < 7) {
        Some(Color::White)
    } else {
        None
    }
}

/// Storage index of an in-bounds position.
pub(crate) fn cell_index(pos: Pos2) -> (r: usize)
    requires
        in_bounds(pos@),
    ensures
        r == index_of(pos@),
        r < CELLS,
{
    (pos.y as usize) * 9 + (pos.x as usize)
}

/// One entry of the cell listing.
pub open spec fn entry(b: Board, x: int, y: int) -> Seq<(i8, i8, Option<Color>)> {
    if in_bounds((x, y)) {
        seq![(x as i8, y as i8, b[(x, y)])]
    } else {
        Seq::empty()
    }
}

/// The addressable cells among the first `n` of row `y`.
pub open spec fn row_listing(b: Board, y: int, n: int) -> Seq<(i8, i8, Option<Color>)>
    decreases n,
{
    if n <= 0 {
        Seq::empty()
    } else {
        row_listing(b, y, n - 1) + entry(b, n - 1, y)
    }
}

/// The addressable cells of the first `n` rows, in row-major order.
pub open spec fn listing(b: Board, n: int) -> Seq<(i8, i8, Option<Color>)>
    decreases n,
{
    if n <= 0 {
        Seq::empty()
    } else {
        listing(b, n - 1) + row_listing(b, n - 1, 9)
    }
}

impl GameView {
    /// The cursor lies within the history, and every recorded move has a
    /// shape that can be applied.
    pub open spec fn wf(self) -> bool {
        &&& 0 <= self.idx <= self.moves.len()
        &&& forall|i: int| 0 <= i < self.moves.len() ==> (#[trigger] self.moves[i]).well_formed()
    }
}

impl Abalone {
    pub open spec fn wf(&self) -> bool {
        &&& self.balls@.len() == CELLS
        &&& self@.wf()
    }

    /// A new game in the starting position, White to move:
    ///
    /// ```md
    ///               0 1 2 3 4 5 6 7 8
    ///            # - - - - - - - - - x
    ///         0 / b b b b b . . . .
    ///        1 / b b b b b b . . .
    ///       2 / * * b b b * * . .
    ///      3 / * * * * * * * * .
    ///     4 / * * * * * * * * *
    ///    5 / . * * * * * * * *
    ///   6 / . . * * w w w * *
    ///  7 / . . . w w w w w w
    /// 8 / . . . . w w w w w
    ///  y
    /// ```
    pub fn new() -> (r: Abalone)
        ensures
            r.wf(),
            r@.board == start_board(),
            r@.moves == Seq::<Move>::empty(),
            r@.idx == 0,
            r@.turn == Color::White,
    {
        let mut balls: Vec<Option<Color>> = Vec::new();
        let mut y: i8 = 0;
        while y < SIZE
            invariant
                0 <= y <= 9,
                balls@.len() == 9 * y,
                forall|p: (int, int)|
                    0 <= p.0 < 9 && 0 <= p.1 < y ==> #[trigger] balls@[index_of(p)] == start_cell(
                        p,
                    ),
            decreases 9 - y,
        {
            let mut x: i8 = 0;
            while x < SIZE
                invariant
                    0 <= y < 9,
                    0 <= x <= 9,
                    balls@.len() == 9 * y + x,
                    forall|p: (int, int)|
                        0 <= p.0 < 9 && 0 <= p.1 < 9 && index_of(p) < balls@.len()
                            ==> #[trigger] balls@[index_of(p)] == start_cell(p),
                decreases 9 - x,
            {
                balls.push(start_cell_at(x, y));
                x = x + 1;
            }
            y = y + 1;
        }
        let r = Abalone { balls, moves: Vec::new(), move_idx: 0, turn: Color::White };
        assert(r@.board =~= start_board());
        r
    }

    /// The cell at `pos`: `None` off the board, else its content.
    pub fn get(&self, pos: Pos2) -> (r: Option<Option<Color>>)
        requires
            self.wf(),
        ensures
            r == look(self@.board, pos@),
    {
        if !is_in_bounds(pos) {
            return None;
        }
        Some(self.balls[cell_index(pos)])
    }

    /// Mutable access to the cell at `pos`: `None` off the board.
    pub fn get_mut(&mut self, pos: Pos2) -> (r: Option<&mut Option<Color>>)
        requires
            old(self).wf(),
        ensures
            !in_bounds(pos@) ==> r.is_none() && *final(self) == *old(self),
            in_bounds(pos@) ==> {
                &&& r.is_some()
                &&& *r.unwrap() == old(self)@.board[pos@]
                &&& final(self).wf()
                &&& final(self).balls@ == old(self).balls@.update(
                    index_of(pos@),
                    *final(r.unwrap()),
                )
                &&& final(self).moves == old(self).moves
                &&& final(self).move_idx == old(self).move_idx
                &&& final(self).turn == old(self).turn
            },
    {
        if !is_in_bounds(pos) {
            return None;
        }
        let i = cell_index(pos);
        Some(&mut self.balls[i])
    }

    /// Every addressable cell as `(x, y, content)`, row by row.
    pub fn iter(&self) -> (r: Vec<(i8, i8, Option<Color>)>)
        requires
            self.wf(),
        ensures
            r@ == listing(self@.board, 9),
    {
        let mut r: Vec<(i8, i8, Option<Color>)> = Vec::new();
        let mut y: i8 = 0;
        while y < SIZE
            invariant
                self.wf(),
                0 <= y <= 9,
                r@ == listing(self@.board, y as int),
            decreases 9 - y,
        {
            let mut x: i8 = 0;
            while x < SIZE
                invariant
                    self.wf(),
                    0 <= y < 9,
                    0 <= x <= 9,
                    r@ == listing(self@.board, y as int) + row_listing(
                        self@.board,
                        y as int,
                        x as int,
                    ),
                decreases 9 - x,
            {
                let pos = Pos2 { x, y };
                if let Some(val) = self.get(pos) {
                    r.push((x, y, val));
                }
                assert(r@ =~= listing(self@.board, y as int) + row_listing(
                    self@.board,
                    y as int,
                    x + 1,
                ));
                x = x + 1;
            }
            y = y + 1;
        }
        r
    }
}

} // verus!
