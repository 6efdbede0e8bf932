use vstd::prelude::*;

verus! {

/// Through which edge a traced line leaves a cell.
#[derive(Debug, Clone, Copy, PartialEq, Eq, Structural)]
pub enum ExitType {
    Horizontal,
    Vertical,
}

/// A coordinate inside a cell, in fixed point: `i32::MIN` and `i32::MAX` are its edges, 0 its
/// middle.
#[derive(Debug, Clone, Copy, PartialEq, Eq, Structural)]
pub struct CellPositionComponent(pub i32);

impl CellPositionComponent {
    pub fn max() -> (r: Self)
        ensures
            r.0 == i32::MAX,
    {
        CellPositionComponent(i32::MAX)
    }

    pub fn min() -> (r: Self)
        ensures
            r.0 == i32::MIN,
    {
        CellPositionComponent(i32::MIN)
    }

    pub fn mid() -> (r: Self)
        ensures
            r.0 == 0,
    {
        CellPositionComponent(0)
    }

    pub fn from_i16(value: i16) -> (r: Self)
        ensures
            r.0 == value,
    {
        CellPositionComponent(value as i32)
    }
}

/// A position inside a cell.
#[derive(Debug, Clone, Copy, PartialEq, Eq, Structural)]
pub struct CellPosition {
    pub x: CellPositionComponent,
    pub y: CellPositionComponent,
}

} // verus!
