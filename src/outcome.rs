//! Outcomes of a legality check: a move that can be applied, or an error.
use vstd::prelude::*;
use crate::geometry::{Dir, Pos2};
use crate::stackvec::StackVec;

verus! {

/// A legal move, carrying what is needed both to apply and to invert it.
#[derive(Clone, Copy, Debug, PartialEq, Eq, Structural)]
pub enum Move {
    /// Pushed the opposing color off the board.
    PushedOff {
        /// First ball that was pushed.
        first: Pos2,
        /// Last opposing ball, the one pushed off.
        last: Pos2,
    },
    /// Pushed the opposing color, but not off the board.
    PushedAway {
        /// First ball that was pushed.
        first: Pos2,
        /// Last opposing ball that was pushed away.
        last: Pos2,
    },
    /// Moved without resistance.
    Moved {
        dir: Dir,
        /// First ball that was moved.
        first: Pos2,
        /// Last ball, of the same color, that was moved.
        last: Pos2,
    },
}

#[derive(Clone, Debug, PartialEq, Eq)]
pub enum Error {
    Selection(SelectionError),
    Move(MoveError),
}

/// Errors that hold whichever direction is tried.
#[derive(Clone, Debug, PartialEq, Eq)]
pub enum SelectionError {
    /// It is the other color's turn.
    WrongTurn(Pos2),
    /// The displacement from the first to the last ball lies on no axis.
    InvalidSet,
    /// The selection holds balls of both colors; these are the offending
    /// positions.
    MixedSet(StackVec<2>),
    /// No ball at these selected positions.
    NotABall(StackVec<3>),
    /// More than three balls selected.
    TooMany,
    /// No direction yields a legal move.
    NoPossibleMove,
}

/// Errors specific to the direction that was tried.
#[derive(Clone, Debug, PartialEq, Eq)]
pub enum MoveError {
    /// Would push an own ball off the board.
    PushedOff(StackVec<3>),
    /// A ball of the own color blocks the push behind the opposing balls.
    BlockedByOwn(Pos2),
    /// More than three own balls in the push line.
    TooManyInferred {
        /// First own ball.
        first: Pos2,
        /// The own ball beyond the third.
        last: Pos2,
    },
    /// The opposing line is as long as the pushing one, or longer.
    TooManyOpposing {
        /// First opposing ball.
        first: Pos2,
        /// Last opposing ball counted.
        last: Pos2,
    },
    /// Destination cells are occupied (sideward moves only).
    NotFree(StackVec<3>),
}

/// What a `SelectionError` says, with its position lists as sequences.
pub enum SelectionErrorView {
    WrongTurn(Pos2),
    InvalidSet,
    MixedSet(Seq<Pos2>),
    NotABall(Seq<Pos2>),
    TooMany,
    NoPossibleMove,
}

/// What a `MoveError` says, with its position lists as sequences.
pub enum MoveErrorView {
    PushedOff(Seq<Pos2>),
    BlockedByOwn(Pos2),
    TooManyInferred { first: Pos2, last: Pos2 },
    TooManyOpposing { first: Pos2, last: Pos2 },
    NotFree(Seq<Pos2>),
}

pub enum ErrorView {
    Selection(SelectionErrorView),
    Move(MoveErrorView),
}

impl View for SelectionError {
    type V = SelectionErrorView;

    open spec fn view(&self) -> SelectionErrorView {
        match self {
            SelectionError::WrongTurn(p) => SelectionErrorView::WrongTurn(*p),
            SelectionError::InvalidSet => SelectionErrorView::InvalidSet,
            SelectionError::MixedSet(s) => SelectionErrorView::MixedSet(s@),
            SelectionError::NotABall(s) => SelectionErrorView::NotABall(s@),
            SelectionError::TooMany => SelectionErrorView::TooMany,
            SelectionError::NoPossibleMove => SelectionErrorView::NoPossibleMove,
        }
    }
}

impl View for MoveError {
    type V = MoveErrorView;

    open spec fn view(&self) -> MoveErrorView {
        match self {
            MoveError::PushedOff(s) => MoveErrorView::PushedOff(s@),
            MoveError::BlockedByOwn(p) => MoveErrorView::BlockedByOwn(*p),
            MoveError::TooManyInferred { first, last } => MoveErrorView::TooManyInferred {
                first: *first,
                last: *last,
            },
            MoveError::TooManyOpposing { first, last } => MoveErrorView::TooManyOpposing {
                first: *first,
                last: *last,
            },
            MoveError::NotFree(s) => MoveErrorView::NotFree(s@),
        }
    }
}

impl View for Error {
    type V = ErrorView;

    open spec fn view(&self) -> ErrorView {
        match self {
            Error::Selection(e) => ErrorView::Selection(e@),
            Error::Move(e) => ErrorView::Move(e@),
        }
    }
}

impl SelectionError {
    /// Every position list is within its capacity.
    pub open spec fn wf(&self) -> bool {
        match self {
            SelectionError::MixedSet(s) => s.wf(),
            SelectionError::NotABall(s) => s.wf(),
            _ => true,
        }
    }
}

impl MoveError {
    /// Every position list is within its capacity.
    pub open spec fn wf(&self) -> bool {
        match self {
            MoveError::PushedOff(s) => s.wf(),
            MoveError::NotFree(s) => s.wf(),
            _ => true,
        }
    }
}

impl Error {
    pub open spec fn wf(&self) -> bool {
        match self {
            Error::Selection(e) => e.wf(),
            Error::Move(e) => e.wf(),
        }
    }
}

/// The view of the result of a legality test.
pub open spec fn result_view(r: Result<Move, Error>) -> Result<Move, ErrorView> {
    match r {
        Ok(m) => Ok(m),
        Err(e) => Err(e@),
    }
}

} // verus!
