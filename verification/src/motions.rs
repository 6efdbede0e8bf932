use vstd::prelude::*;

use crate::iter::{CanvasIndexIterator, CanvasIterationJump, StopCondition, StopConditionContent, WordBoundaryType};
use crate::rect::{fits_i16, CanvasIndex};
use crate::state::ProgramState;
use crate::style::DirectionFree;

verus! {

/// A search along a line of cells: the iterator that decides where it stops, the cell it starts
/// from, and how the line steps from cell to cell. The line itself is traced outside.
#[derive(Debug)]
pub struct MotionSearch {
    pub iterator: CanvasIndexIterator,
    pub start: CanvasIndex,
    pub jump: CanvasIterationJump,
}

/// A fresh search from the cursor.
pub open spec fn search_from(
    r: MotionSearch,
    s: ProgramState,
    direction: DirectionFree,
    stop: StopCondition,
    stop_count: u32,
    jump: CanvasIterationJump,
) -> bool {
    &&& r.start == s.cursor_position
    &&& r.jump == jump
    &&& r.iterator.direction == direction
    &&& r.iterator.stop == stop
    &&& r.iterator.stop_count == stop_count
    &&& r.iterator.to_yield is None
    &&& !r.iterator.initial_word_boundary_passed
    &&& r.iterator.indices_iterated@.len() == 0
    &&& r.iterator.found@.len() == 0
}

fn search(
    program_state: &ProgramState,
    direction: DirectionFree,
    stop: StopCondition,
    stop_count: u32,
    jump: CanvasIterationJump,
) -> (r: MotionSearch)
    ensures
        search_from(r, *program_state, direction, stop, stop_count, jump),
{
    MotionSearch {
        iterator: CanvasIndexIterator::new(direction, stop, stop_count),
        start: program_state.cursor_position,
        jump,
    }
}

/// A number of cells in a direction: the search stops at every cell, and ends after that many.
#[derive(Debug, Clone, Copy)]
pub struct FixedNumberOfCells {
    pub direction: DirectionFree,
    pub number_of_cells: u16,
    pub jump: CanvasIterationJump,
}

impl FixedNumberOfCells {
    pub fn search(&self, program_state: &ProgramState) -> (r: MotionSearch)
        ensures
            search_from(
                r,
                *program_state,
                self.direction,
                StopCondition::Always,
                self.number_of_cells as u32,
                self.jump,
            ),
    {
        search(program_state, self.direction, StopCondition::Always, self.number_of_cells as u32, self.jump)
    }
}

/// Up to the next word boundary of the given kind, passing diagonals.
#[derive(Debug, Clone, Copy)]
pub struct WordBoundary {
    pub direction: DirectionFree,
    pub boundary_type: WordBoundaryType,
}

impl WordBoundary {
    pub fn search(&self, program_state: &ProgramState) -> (r: MotionSearch)
        ensures
            search_from(
                r,
                *program_state,
                self.direction,
                StopCondition::Content(StopConditionContent::WordBoundary(self.boundary_type)),
                1,
                CanvasIterationJump::Diagonals,
            ),
    {
        search(
            program_state,
            self.direction,
            StopCondition::Content(StopConditionContent::WordBoundary(self.boundary_type)),
            1,
            CanvasIterationJump::Diagonals,
        )
    }
}

/// Up to the next cell that holds a character, passing diagonals.
#[derive(Debug, Clone, Copy, PartialEq, Eq, Structural)]
pub struct FindChar {
    pub direction: DirectionFree,
    pub ch: char,
}

impl FindChar {
    pub fn search(&self, program_state: &ProgramState) -> (r: MotionSearch)
        ensures
            search_from(
                r,
                *program_state,
                self.direction,
                StopCondition::Content(StopConditionContent::CharacterMatch(self.ch)),
                1,
                CanvasIterationJump::Diagonals,
            ),
    {
        search(
            program_state,
            self.direction,
            StopCondition::Content(StopConditionContent::CharacterMatch(self.ch)),
            1,
            CanvasIterationJump::Diagonals,
        )
    }
}

/// The last character search again, in its direction or the reverse one.
#[derive(Debug, Clone, Copy)]
pub struct FindCharRepeat {
    pub direction_reversed: bool,
}

impl FindCharRepeat {
    /// The search of the last character search, turned around where asked; `None` where there
    /// was none.
    pub fn search(&self, program_state: &ProgramState) -> (r: Option<MotionSearch>)
        requires
            program_state.find_char_last matches Some(f) ==> f.direction.rows != i16::MIN
                && f.direction.columns != i16::MIN,
        ensures
            match program_state.find_char_last {
                Some(f) => r matches Some(s) && search_from(
                    s,
                    *program_state,
                    if self.direction_reversed {
                        DirectionFree { rows: -f.direction.rows as i16, columns: -f.direction.columns as i16 }
                    } else {
                        f.direction
                    },
                    StopCondition::Content(StopConditionContent::CharacterMatch(f.ch)),
                    1,
                    CanvasIterationJump::Diagonals,
                ),
                None => r is None,
            },
    {
        match program_state.find_char_last {
            Some(f) => {
                let mut find_char = f;
                if self.direction_reversed {
                    find_char.direction = f.direction.reversed();
                }
                Some(find_char.search(program_state))
            },
            None => None,
        }
    }
}

/// Up to the mark in a slot, along the line from the cursor to it.
#[derive(Debug, Clone, Copy)]
pub struct GoToMark {
    pub jump: CanvasIterationJump,
    pub slot: char,
}

impl GoToMark {
    /// The search towards the mark; `None` where the slot holds no mark.
    pub fn search(&self, program_state: &ProgramState) -> (r: Option<MotionSearch>)
        requires
            program_state.marks.wf(),
            program_state.marks.view_map().contains_key(self.slot) ==> ({
                let mark = program_state.marks.view_map()[self.slot];
                fits_i16(mark.0 - program_state.cursor_position.0) && fits_i16(
                    mark.1 - program_state.cursor_position.1,
                )
            }),
        ensures
            program_state.marks.view_map().contains_key(self.slot) ==> ({
                let mark = program_state.marks.view_map()[self.slot];
                let cursor = program_state.cursor_position;
                r matches Some(s) && search_from(
                    s,
                    *program_state,
                    DirectionFree {
                        rows: (mark.0 - cursor.0) as i16,
                        columns: (mark.1 - cursor.1) as i16,
                    },
                    StopCondition::Index(mark),
                    1,
                    self.jump,
                )
            }),
            !program_state.marks.view_map().contains_key(self.slot) ==> r is None,
    {
        match program_state.marks.get(self.slot) {
            Some(mark) => {
                let cursor = program_state.cursor_position;
                let direction = DirectionFree { rows: mark.0 - cursor.0, columns: mark.1 - cursor.1 };
                Some(search(program_state, direction, StopCondition::Index(*mark), 1, self.jump))
            },
            None => None,
        }
    }
}

} // verus!
