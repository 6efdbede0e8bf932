use vstd::prelude::*;

use crate::canvas::{read_cell, Canvas};
use crate::rect::{fits_i16, CanvasIndex, CanvasRect};
use crate::style::DirectionFree;

verus! {

/// How a traced line of cells steps from one cell to the next.
#[derive(Debug, Clone, Copy, PartialEq, Eq, Structural)]
pub enum CanvasIterationJump {
    NoJump,
    Diagonals,
    DirectionAsStride,
}

/// Which ends of a word count as its boundary.
#[derive(Debug, Clone, Copy, PartialEq, Eq, Structural)]
pub struct WordBoundaryType {
    pub start: bool,
    pub end: bool,
}

impl WordBoundaryType {
    pub fn start() -> (w: Self)
        ensures
            w.start && !w.end,
    {
        WordBoundaryType { start: true, end: false }
    }

    pub fn end() -> (w: Self)
        ensures
            !w.start && w.end,
    {
        WordBoundaryType { start: false, end: true }
    }

    pub fn any() -> (w: Self)
        ensures
            w.start && w.end,
    {
        WordBoundaryType { start: true, end: true }
    }
}

/// A stop condition that looks at the characters of the canvas.
#[derive(Debug, Clone, Copy, PartialEq, Eq, Structural)]
pub enum StopConditionContent {
    CharacterChange,
    WordBoundary(WordBoundaryType),
    CharacterMatch(char),
}

/// Where an iteration along a line of cells stops.
#[derive(Debug, Clone, Copy)]
pub enum StopCondition {
    Index(CanvasIndex),
    Always,
    Content(StopConditionContent),
}

pub open spec fn signum(x: int) -> int {
    if x > 0 {
        1
    } else if x < 0 {
        -1
    } else {
        0
    }
}

fn signum_i16(x: i16) -> (r: i16)
    ensures
        r == signum(x as int),
{
    if x > 0 {
        1
    } else if x < 0 {
        -1
    } else {
        0
    }
}

pub open spec fn character_at(canvas: Canvas, index: CanvasIndex) -> char {
    read_cell(canvas.cell_map(), index).character
}

/// A word ends at `index`: it holds a character other than a space and `next` holds a space.
pub open spec fn spec_word_end_close(canvas: Canvas, index: CanvasIndex, next: CanvasIndex) -> bool {
    character_at(canvas, index) != ' ' && character_at(canvas, next) == ' '
}

pub fn word_end_close(index: CanvasIndex, index_next: CanvasIndex, canvas: &Canvas) -> (b: bool)
    requires
        canvas.wf(),
    ensures
        b == spec_word_end_close(*canvas, index, index_next),
{
    let ch = canvas.character(index);
    let ch_next = canvas.character(index_next);
    ch != ' ' && ch_next == ' '
}

/// Iteration along a line of cells until a stop condition has held `stop_count` times. The
/// cells of the line come from a tracer outside this type: a scan starts with `begin`, is fed
/// one cell after the other with `step` until it says to stop, and then hands its cells out with
/// `pop`.
#[derive(Debug)]
pub struct CanvasIndexIterator {
    pub direction: DirectionFree,
    pub stop: StopCondition,
    pub stop_count: u32,
    pub to_yield: Option<Vec<CanvasIndex>>,
    pub initial_word_boundary_passed: bool,
    pub start_index: CanvasIndex,
    pub indices_iterated: Vec<CanvasIndex>,
    pub found: Vec<CanvasIndex>,
}

/// Whether the stop condition holds at `index`, and the new value of the flag that says the
/// start has left the end of a word behind.
pub open spec fn stop_holds(
    it: CanvasIndexIterator,
    canvas: Canvas,
    index: CanvasIndex,
    next: CanvasIndex,
) -> (bool, bool) {
    let prev = it.indices_iterated@.last();
    let has_prev = it.indices_iterated@.len() > 0;
    match it.stop {
        StopCondition::Always => (true, it.initial_word_boundary_passed),
        StopCondition::Index(target) => (index == target, it.initial_word_boundary_passed),
        StopCondition::Content(c) => match c {
            StopConditionContent::CharacterChange => (
                has_prev && character_at(canvas, index) != character_at(canvas, prev),
                it.initial_word_boundary_passed,
            ),
            StopConditionContent::WordBoundary(typ) => {
                let passed = it.initial_word_boundary_passed || !spec_word_end_close(
                    canvas,
                    it.start_index,
                    next,
                );
                let word_start = character_at(canvas, prev) == ' ' && character_at(canvas, index)
                    != ' ';
                let word_end = character_at(canvas, index) != ' ' && character_at(canvas, next)
                    == ' ';
                let boundary = (typ.start && word_start) || (typ.end && word_end);
                (has_prev && boundary && passed, passed)
            },
            StopConditionContent::CharacterMatch(ch) => (
                ch == character_at(canvas, index),
                it.initial_word_boundary_passed,
            ),
        },
    }
}

/// A walk towards an index stops there and nowhere else: its stop condition holds exactly at
/// the target, whatever was walked before and whatever comes next.
pub proof fn law_index_stop_holds_only_at_target(
    it: CanvasIndexIterator,
    canvas: Canvas,
    index: CanvasIndex,
    next: CanvasIndex,
    target: CanvasIndex,
)
    requires
        it.stop == StopCondition::Index(target),
    ensures
        stop_holds(it, canvas, index, next).0 <==> (index.0 == target.0 && index.1 == target.1),
{
}

/// The iteration can never stop from `index` on.
pub open spec fn search_is_infinite(
    stop: StopCondition,
    direction: DirectionFree,
    index: CanvasIndex,
    area: CanvasRect,
) -> bool {
    match stop {
        StopCondition::Index(target) => if index.0 == target.0 || index.1 == target.1 {
            false
        } else {
            !(signum(direction.rows as int) == signum(target.0 - index.0) && signum(
                direction.columns as int,
            ) == signum(target.1 - index.1))
        },
        StopCondition::Always => false,
        StopCondition::Content(_) => (signum(direction.rows as int) == signum(index.0 - area.row)
            && !area.spec_includes((index.0, area.column))) || (signum(direction.columns as int)
            == signum(index.1 - area.column) && !area.spec_includes((area.row, index.1))),
    }
}

/// `search_is_infinite` runs without overflow.
pub open spec fn search_fits(stop: StopCondition, index: CanvasIndex, area: CanvasRect) -> bool {
    match stop {
        StopCondition::Index(target) => fits_i16(target.0 - index.0) && fits_i16(target.1 - index.1),
        StopCondition::Always => true,
        StopCondition::Content(_) => fits_i16(index.0 - area.row) && fits_i16(index.1 - area.column)
            && area.last_row_fits() && area.last_column_fits(),
    }
}

impl CanvasIndexIterator {
    pub fn new(direction: DirectionFree, stop: StopCondition, stop_count: u32) -> (it: Self)
        ensures
            it.direction == direction,
            it.stop == stop,
            it.stop_count == stop_count,
            it.to_yield is None,
            !it.initial_word_boundary_passed,
            it.indices_iterated@.len() == 0,
            it.found@.len() == 0,
    {
        CanvasIndexIterator {
            direction,
            stop,
            stop_count,
            to_yield: None,
            initial_word_boundary_passed: false,
            start_index: (0, 0),
            indices_iterated: Vec::new(),
            found: Vec::new(),
        }
    }

    /// Starts a scan at `start`, the first cell of the line; `next` is the cell after it.
    pub fn begin(&mut self, start: CanvasIndex, next: CanvasIndex, canvas: &Canvas)
        requires
            canvas.wf(),
        ensures
            final(self).direction == old(self).direction,
            final(self).stop_count == old(self).stop_count,
            final(self).to_yield == old(self).to_yield,
            final(self).start_index == start,
            final(self).indices_iterated@ == seq![start],
            final(self).found@ == seq![start],
            final(self).initial_word_boundary_passed == (match old(self).stop {
                StopCondition::Content(_) => old(self).initial_word_boundary_passed || !spec_word_end_close(*canvas, start, next),
                _ => old(self).initial_word_boundary_passed,
            }),
    {
        match self.stop {
            StopCondition::Content(_) => {
                let close = word_end_close(start, next, canvas);
                self.initial_word_boundary_passed = self.initial_word_boundary_passed || !close;
            },
            _ => {},
        }
        self.start_index = start;
        let mut indices: Vec<CanvasIndex> = Vec::new();
        indices.push(start);
        let mut found: Vec<CanvasIndex> = Vec::new();
        found.push(start);
        proof {
            assert(indices@ =~= seq![start]);
            assert(found@ =~= seq![start]);
        }
        self.indices_iterated = indices;
        self.found = found;
    }

    /// Feeds the next cell of the line, `index`, with the one after it, `next`. Says whether the
    /// scan is over; then the cells to hand out are in `to_yield`.
    pub fn step(&mut self, index: CanvasIndex, next: CanvasIndex, canvas: &Canvas) -> (done: bool)
        requires
            canvas.wf(),
            search_fits(old(self).stop, index, canvas.area),
        ensures
            ({
                let (stop, passed) = stop_holds(*old(self), *canvas, index, next);
                let iterated = old(self).indices_iterated@.push(index);
                let found = if stop {
                    iterated
                } else {
                    old(self).found@
                };
                let count = if stop && old(self).stop_count > 0 {
                    (old(self).stop_count - 1) as u32
                } else {
                    old(self).stop_count
                };
                let finished = (stop && count == 0) || search_is_infinite(
                    old(self).stop,
                    old(self).direction,
                    index,
                    canvas.area,
                );
                &&& done == finished
                &&& final(self).initial_word_boundary_passed == passed
                &&& final(self).indices_iterated@ == iterated
                &&& final(self).found@ == found
                &&& final(self).stop_count == count
                &&& final(self).direction == old(self).direction
                &&& final(self).start_index == old(self).start_index
                &&& finished ==> (final(self).to_yield matches Some(v) && v@ == found)
                &&& !finished ==> final(self).to_yield == old(self).to_yield
            }),
    {
        let n = self.indices_iterated.len();
        let stop = match self.stop {
            StopCondition::Always => true,
            StopCondition::Index(target) => index.0 == target.0 && index.1 == target.1,
            StopCondition::Content(c) => match c {
                StopConditionContent::CharacterChange => {
                    if n > 0 {
                        let prev = self.indices_iterated[n - 1];
                        canvas.character(index) != canvas.character(prev)
                    } else {
                        false
                    }
                },
                StopConditionContent::WordBoundary(typ) => {
                    let close = word_end_close(self.start_index, next, canvas);
                    self.initial_word_boundary_passed = self.initial_word_boundary_passed || !close;
                    if n > 0 {
                        let prev = self.indices_iterated[n - 1];
                        let character_prev = canvas.character(prev);
                        let character = canvas.character(index);
                        let character_next = canvas.character(next);
                        let word_start = character_prev == ' ' && character != ' ';
                        let word_end = character != ' ' && character_next == ' ';
                        let boundary = (typ.start && word_start) || (typ.end && word_end);
                        boundary && self.initial_word_boundary_passed
                    } else {
                        false
                    }
                },
                StopConditionContent::CharacterMatch(ch) => ch == canvas.character(index),
            },
        };
        self.indices_iterated.push(index);
        let infinite = match self.stop {
            StopCondition::Index(target) => {
                if index.0 == target.0 || index.1 == target.1 {
                    false
                } else {
                    let rows = target.0 - index.0;
                    let columns = target.1 - index.1;
                    !(signum_i16(self.direction.rows) == signum_i16(rows) && signum_i16(
                        self.direction.columns,
                    ) == signum_i16(columns))
                }
            },
            StopCondition::Always => false,
            StopCondition::Content(_) => {
                let area = canvas.area;
                (signum_i16(self.direction.rows) == signum_i16(index.0 - area.row)
                    && !area.includes_index((index.0, area.column))) || (signum_i16(
                    self.direction.columns,
                ) == signum_i16(index.1 - area.column) && !area.includes_index(
                    (area.row, index.1),
                ))
            },
        };
        if stop {
            self.found = copy_indices(&self.indices_iterated);
        }
        if stop && self.stop_count > 0 {
            self.stop_count = self.stop_count - 1;
        }
        let done = (stop && self.stop_count == 0) || infinite;
        if done {
            self.to_yield = Some(copy_indices(&self.found));
        }
        done
    }

    /// Hands out the next cell of a finished scan, if one is left.
    pub fn pop(&mut self) -> (r: Option<CanvasIndex>)
        requires
            old(self).to_yield is Some,
        ensures
            ({
                let v = old(self).to_yield->0@;
                &&& v.len() > 0 ==> r == Some(v[0]) && (final(self).to_yield matches Some(w) && w@
                    == v.drop_first())
                &&& v.len() == 0 ==> r is None && (final(self).to_yield matches Some(w) && w@.len()
                    == 0)
                &&& final(self).stop_count == old(self).stop_count
                &&& final(self).direction == old(self).direction
            }),
    {
        let mut v = match self.to_yield.take() {
            Some(v) => v,
            None => Vec::new(),
        };
        let r = if v.len() > 0 {
            let first = v.remove(0);
            proof {
                assert(v@ =~= old(self).to_yield->0@.drop_first());
            }
            Some(first)
        } else {
            None
        };
        self.to_yield = Some(v);
        r
    }
}

/// An element-wise copy of `v`.
fn copy_indices(v: &Vec<CanvasIndex>) -> (r: Vec<CanvasIndex>)
    ensures
        r@ == v@,
{
    let mut r: Vec<CanvasIndex> = Vec::new();
    let mut i: usize = 0;
    while i < v.len()
        invariant
            0 <= i <= v@.len(),
            r@ == v@.take(i as int),
        decreases v@.len() - i,
    {
        r.push(v[i]);
        proof {
            assert(r@ =~= v@.take(i as int + 1));
        }
        i += 1;
    }
    proof {
        assert(v@.take(v@.len() as int) =~= v@);
    }
    r
}

} // verus!
