//! The actions a player may take, and the kinds of action a turn's budget allows.
use crate::pieces::{Color, PieceType};
use crate::systems::{DestId, SystemId};
use vstd::prelude::*;

verus! {

/// The kind of action a turn's budget allows.
#[derive(PartialEq, Eq, Structural, Clone, Copy, Debug)]
pub enum AvailableStdAction {
    /// Any kind, sacrifice included.
    Any,
    Capture,
    Build,
    Trade,
    Move,
}

/// Moves a ship of `piece_type` from `src_id` to `dest_id`.
#[derive(PartialEq, Eq, Structural, Clone, Copy, Debug)]
pub struct MoveAction {
    pub src_id: SystemId,
    pub dest_id: DestId,
    pub piece_type: PieceType,
}

/// Places a new ship of `piece_type`, drawn from the bank, at `location`.
#[derive(PartialEq, Eq, Structural, Clone, Copy, Debug)]
pub struct BuildAction {
    pub location: SystemId,
    pub piece_type: PieceType,
}

/// Swaps a ship of `old_type` at `location` for one of `new_type` from the bank.
#[derive(PartialEq, Eq, Structural, Clone, Copy, Debug)]
pub struct TradeAction {
    pub location: SystemId,
    pub old_type: PieceType,
    pub new_type: PieceType,
}

/// Takes control of an opposing ship of `piece_type` at `location`.
#[derive(PartialEq, Eq, Structural, Clone, Copy, Debug)]
pub struct CaptureAction {
    pub location: SystemId,
    pub piece_type: PieceType,
}

/// Returns one's own ship of `piece_type` at `location` to the bank for extra actions.
#[derive(PartialEq, Eq, Structural, Clone, Copy, Debug)]
pub struct SacrificeAction {
    pub piece_type: PieceType,
    pub location: SystemId,
}

/// Removes every piece of `color` at `location`.
#[derive(PartialEq, Eq, Structural, Clone, Copy, Debug)]
pub struct CatastropheAction {
    pub location: SystemId,
    pub color: Color,
}

#[derive(PartialEq, Eq, Structural, Clone, Copy, Debug)]
pub enum Action {
    Move(MoveAction),
    Build(BuildAction),
    Trade(TradeAction),
    Capture(CaptureAction),
    Sacrifice(SacrificeAction),
    Catastrophe(CatastropheAction),
}

/// The kinds of action, for the generator's bookkeeping.
#[derive(PartialEq, Eq, Structural, Clone, Copy, Debug)]
pub enum ActionKind {
    Move,
    Build,
    Trade,
    Capture,
    Sacrifice,
    Catastrophe,
}

impl Action {
    pub open spec fn kind(self) -> ActionKind {
        match self {
            Action::Move(_) => ActionKind::Move,
            Action::Build(_) => ActionKind::Build,
            Action::Trade(_) => ActionKind::Trade,
            Action::Capture(_) => ActionKind::Capture,
            Action::Sacrifice(_) => ActionKind::Sacrifice,
            Action::Catastrophe(_) => ActionKind::Catastrophe,
        }
    }

    /// The system the action is taken at (for a move, its source).
    pub open spec fn location(self) -> SystemId {
        match self {
            Action::Move(m) => m.src_id,
            Action::Build(b) => b.location,
            Action::Trade(t) => t.location,
            Action::Capture(c) => c.location,
            Action::Sacrifice(s) => s.location,
            Action::Catastrophe(c) => c.location,
        }
    }
}

/// Signals an action that is not legal in the state it was applied to.
#[derive(PartialEq, Eq, Structural, Clone, Copy, Debug)]
pub struct IllegalAction;

} // verus!
