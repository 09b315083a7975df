//! A minimal catalog of piece kinds: sizes, colours, types and pieces, without a bank.
use vstd::prelude::*;

verus! {

/// The three piece sizes.
#[derive(PartialEq, Eq, Structural, Clone, Copy, Debug)]
pub enum Size {
    Small,
    Medium,
    Large,
}

/// The four piece colours.
#[derive(PartialEq, Eq, Structural, Clone, Copy, Debug)]
pub enum Color {
    Red,
    Green,
    Blue,
    Yellow,
}

/// A (colour, size) combination.
#[derive(PartialEq, Eq, Structural, Clone, Copy, Debug)]
pub struct PieceType {
    color: Color,
    size: Size,
}

impl PieceType {
    pub closed spec fn spec_color(self) -> Color {
        self.color
    }

    pub closed spec fn spec_size(self) -> Size {
        self.size
    }

    pub fn new(color: Color, size: Size) -> (r: Self)
        ensures
            r.spec_color() == color,
            r.spec_size() == size,
    {
        PieceType { color, size }
    }

    pub fn color(&self) -> (r: &Color)
        ensures
            *r == self.spec_color(),
    {
        &self.color
    }

    pub fn size(&self) -> (r: &Size)
        ensures
            *r == self.spec_size(),
    {
        &self.size
    }
}

/// One physical piece: a type and which of its copies this is.
#[derive(PartialEq, Eq, Structural, Clone, Copy, Debug)]
pub struct Piece {
    type_: PieceType,
    id: u8,
}

impl Piece {
    pub closed spec fn spec_type(self) -> PieceType {
        self.type_
    }

    pub closed spec fn spec_id(self) -> u8 {
        self.id
    }

    pub fn type_(&self) -> (r: &PieceType)
        ensures
            *r == self.spec_type(),
    {
        &self.type_
    }

    pub fn new(type_: PieceType, id: u8) -> (r: Self)
        ensures
            r.spec_type() == type_,
            r.spec_id() == id,
    {
        Piece { type_, id }
    }
}

} // verus!
