use vstd::prelude::*;

use crate::canvas::read_cell;
use crate::history::VersionControlledCanvas;
use crate::index_map::entries_map;
use crate::operations::{builder_add_modifications, modification_diff, CanvasModification};
use crate::rect::{fits_i16, wrap_i16, CanvasIndex, CanvasRect};
use crate::keystroke::Keystroke;
use crate::state::{
    Brush, ColorOrSlot, ColorOrSlotSpecification, InputMode, Macro, MacroRecording, ProgramState,
    SlotSpecification,
};
use crate::style::{Axis, Color, Direction, Ground, Modifier};
use crate::transform::{mirror_cells, mirror_map, mirrored_fits};
use crate::yank::CanvasYank;

verus! {

/// The cursor moved `cells` columns to the left; where it leaves the visible part of the canvas,
/// the view follows.
pub open spec fn moved_left(s: ProgramState, cells: i16) -> ProgramState {
    let column = s.cursor_position.1 - cells;
    let edge = s.canvas_visible.column - column;
    ProgramState {
        cursor_position: (s.cursor_position.0, column as i16),
        focus_position: if edge > 0 {
            (s.focus_position.0, (s.focus_position.1 - edge) as i16)
        } else {
            s.focus_position
        },
        canvas_visible: if edge > 0 {
            CanvasRect { column: (s.canvas_visible.column - edge) as i16, ..s.canvas_visible }
        } else {
            s.canvas_visible
        },
        ..s
    }
}

pub open spec fn moved_left_fits(s: ProgramState, cells: i16) -> bool {
    let column = s.cursor_position.1 - cells;
    let edge = s.canvas_visible.column - column;
    fits_i16(column) && fits_i16(edge) && (edge > 0 ==> fits_i16(s.focus_position.1 - edge)
        && fits_i16(s.canvas_visible.column - edge))
}

pub open spec fn moved_right(s: ProgramState, cells: i16) -> ProgramState {
    let column = s.cursor_position.1 + cells;
    let edge = column - s.canvas_visible.spec_last_column();
    ProgramState {
        cursor_position: (s.cursor_position.0, column as i16),
        focus_position: if edge > 0 {
            (s.focus_position.0, (s.focus_position.1 + edge) as i16)
        } else {
            s.focus_position
        },
        canvas_visible: if edge > 0 {
            CanvasRect { column: (s.canvas_visible.column + edge) as i16, ..s.canvas_visible }
        } else {
            s.canvas_visible
        },
        ..s
    }
}

pub open spec fn moved_right_fits(s: ProgramState, cells: i16) -> bool {
    let column = s.cursor_position.1 + cells;
    let edge = column - s.canvas_visible.spec_last_column();
    s.canvas_visible.last_column_fits() && fits_i16(column) && fits_i16(edge) && (edge > 0
        ==> fits_i16(s.focus_position.1 + edge) && fits_i16(s.canvas_visible.column + edge))
}

pub open spec fn moved_up(s: ProgramState, cells: i16) -> ProgramState {
    let row = s.cursor_position.0 - cells;
    let edge = s.canvas_visible.row - row;
    ProgramState {
        cursor_position: (row as i16, s.cursor_position.1),
        focus_position: if edge > 0 {
            ((s.focus_position.0 - edge) as i16, s.focus_position.1)
        } else {
            s.focus_position
        },
        canvas_visible: if edge > 0 {
            CanvasRect { row: (s.canvas_visible.row - edge) as i16, ..s.canvas_visible }
        } else {
            s.canvas_visible
        },
        ..s
    }
}

pub open spec fn moved_up_fits(s: ProgramState, cells: i16) -> bool {
    let row = s.cursor_position.0 - cells;
    let edge = s.canvas_visible.row - row;
    fits_i16(row) && fits_i16(edge) && (edge > 0 ==> fits_i16(s.focus_position.0 - edge)
        && fits_i16(s.canvas_visible.row - edge))
}

pub open spec fn moved_down(s: ProgramState, cells: i16) -> ProgramState {
    let row = s.cursor_position.0 + cells;
    let edge = row - s.canvas_visible.spec_last_row();
    ProgramState {
        cursor_position: (row as i16, s.cursor_position.1),
        focus_position: if edge > 0 {
            ((s.focus_position.0 + edge) as i16, s.focus_position.1)
        } else {
            s.focus_position
        },
        canvas_visible: if edge > 0 {
            CanvasRect { row: (s.canvas_visible.row + edge) as i16, ..s.canvas_visible }
        } else {
            s.canvas_visible
        },
        ..s
    }
}

pub open spec fn moved_down_fits(s: ProgramState, cells: i16) -> bool {
    let row = s.cursor_position.0 + cells;
    let edge = row - s.canvas_visible.spec_last_row();
    s.canvas_visible.last_row_fits() && fits_i16(row) && fits_i16(edge) && (edge > 0 ==> fits_i16(
        s.focus_position.0 + edge,
    ) && fits_i16(s.canvas_visible.row + edge))
}

/// Moving the cursor a number of columns to the left or to the right keeps it inside the
/// visible part of the canvas where it was inside before: the view follows it.
pub proof fn law_horizontal_move_keeps_cursor_visible(s: ProgramState, cells: i16)
    requires
        cells >= 0,
        s.canvas_visible.spec_includes(s.cursor_position),
    ensures
        moved_left_fits(s, cells) ==> moved_left(s, cells).canvas_visible.spec_includes(
            moved_left(s, cells).cursor_position,
        ),
        moved_right_fits(s, cells) ==> moved_right(s, cells).canvas_visible.spec_includes(
            moved_right(s, cells).cursor_position,
        ),
{
}

pub fn cursor_left(program_state: &mut ProgramState, cells: i16)
    requires
        moved_left_fits(*old(program_state), cells),
    ensures
        *final(program_state) == moved_left(*old(program_state), cells),
{
    program_state.cursor_position.1 = program_state.cursor_position.1 - cells;
    let outside_edge = program_state.canvas_visible.first_column() - program_state.cursor_position.1;
    if outside_edge > 0 {
        program_state.focus_position.1 = program_state.focus_position.1 - outside_edge;
        program_state.canvas_visible.column = program_state.canvas_visible.column - outside_edge;
    }
}

pub fn cursor_right(program_state: &mut ProgramState, cells: i16)
    requires
        moved_right_fits(*old(program_state), cells),
    ensures
        *final(program_state) == moved_right(*old(program_state), cells),
{
    program_state.cursor_position.1 = program_state.cursor_position.1 + cells;
    let outside_edge = program_state.cursor_position.1 - program_state.canvas_visible.last_column();
    if outside_edge > 0 {
        program_state.focus_position.1 = program_state.focus_position.1 + outside_edge;
        program_state.canvas_visible.column = program_state.canvas_visible.column + outside_edge;
    }
}

pub fn cursor_up(program_state: &mut ProgramState, cells: i16)
    requires
        moved_up_fits(*old(program_state), cells),
    ensures
        *final(program_state) == moved_up(*old(program_state), cells),
{
    program_state.cursor_position.0 = program_state.cursor_position.0 - cells;
    let outside_edge = program_state.canvas_visible.first_row() - program_state.cursor_position.0;
    if outside_edge > 0 {
        program_state.focus_position.0 = program_state.focus_position.0 - outside_edge;
        program_state.canvas_visible.row = program_state.canvas_visible.row - outside_edge;
    }
}

pub fn cursor_down(program_state: &mut ProgramState, cells: i16)
    requires
        moved_down_fits(*old(program_state), cells),
    ensures
        *final(program_state) == moved_down(*old(program_state), cells),
{
    program_state.cursor_position.0 = program_state.cursor_position.0 + cells;
    let outside_edge = program_state.cursor_position.0 - program_state.canvas_visible.last_row();
    if outside_edge > 0 {
        program_state.focus_position.0 = program_state.focus_position.0 + outside_edge;
        program_state.canvas_visible.row = program_state.canvas_visible.row + outside_edge;
    }
}

/// Moves the cursor a number of cells in a direction.
#[derive(Debug, Clone, Copy)]
pub struct MoveCursor {
    pub direction: Direction,
    pub cells: u16,
}

impl MoveCursor {
    pub fn left(cells: u16) -> (m: Self)
        ensures
            m.direction == Direction::Left && m.cells == cells,
    {
        MoveCursor { direction: Direction::Left, cells }
    }

    pub fn right(cells: u16) -> (m: Self)
        ensures
            m.direction == Direction::Right && m.cells == cells,
    {
        MoveCursor { direction: Direction::Right, cells }
    }

    pub fn up(cells: u16) -> (m: Self)
        ensures
            m.direction == Direction::Up && m.cells == cells,
    {
        MoveCursor { direction: Direction::Up, cells }
    }

    pub fn down(cells: u16) -> (m: Self)
        ensures
            m.direction == Direction::Down && m.cells == cells,
    {
        MoveCursor { direction: Direction::Down, cells }
    }

    /// The number of cells as the signed step it is taken as.
    pub open spec fn step(&self) -> i16 {
        wrap_i16(self.cells) as i16
    }

    pub open spec fn fits(&self, s: ProgramState) -> bool {
        match self.direction {
            Direction::Left => moved_left_fits(s, self.step()),
            Direction::Right => moved_right_fits(s, self.step()),
            Direction::Up => moved_up_fits(s, self.step()),
            Direction::Down => moved_down_fits(s, self.step()),
        }
    }

    pub open spec fn result(&self, s: ProgramState) -> ProgramState {
        match self.direction {
            Direction::Left => moved_left(s, self.step()),
            Direction::Right => moved_right(s, self.step()),
            Direction::Up => moved_up(s, self.step()),
            Direction::Down => moved_down(s, self.step()),
        }
    }

    pub fn execute(&self, program_state: &mut ProgramState)
        requires
            self.fits(*old(program_state)),
        ensures
            *final(program_state) == self.result(*old(program_state)),
    {
        proof {
            crate::rect::lemma_u16_as_i16(self.cells);
        }
        let cells = self.cells as i16;
        match self.direction {
            Direction::Left => cursor_left(program_state, cells),
            Direction::Right => cursor_right(program_state, cells),
            Direction::Up => cursor_up(program_state, cells),
            Direction::Down => cursor_down(program_state, cells),
        }
    }
}

/// Moves the view a number of cells in a direction, leaving the cursor where it is.
#[derive(Debug, Clone, Copy)]
pub struct Pan {
    pub direction: Direction,
    pub cells: u16,
}

impl Pan {
    pub fn left(cells: u16) -> (m: Self)
        ensures
            m.direction == Direction::Left && m.cells == cells,
    {
        Pan { direction: Direction::Left, cells }
    }

    pub fn right(cells: u16) -> (m: Self)
        ensures
            m.direction == Direction::Right && m.cells == cells,
    {
        Pan { direction: Direction::Right, cells }
    }

    pub fn up(cells: u16) -> (m: Self)
        ensures
            m.direction == Direction::Up && m.cells == cells,
    {
        Pan { direction: Direction::Up, cells }
    }

    pub fn down(cells: u16) -> (m: Self)
        ensures
            m.direction == Direction::Down && m.cells == cells,
    {
        Pan { direction: Direction::Down, cells }
    }

    /// The focus after panning.
    pub open spec fn focus_after(&self, focus: CanvasIndex) -> (int, int) {
        let c = wrap_i16(self.cells);
        match self.direction {
            Direction::Left => (focus.0 as int, focus.1 - c),
            Direction::Right => (focus.0 as int, focus.1 + c),
            Direction::Up => (focus.0 - c, focus.1 as int),
            Direction::Down => (focus.0 + c, focus.1 as int),
        }
    }

    pub fn execute(&self, program_state: &mut ProgramState)
        requires
            fits_i16(self.focus_after(old(program_state).focus_position).0),
            fits_i16(self.focus_after(old(program_state).focus_position).1),
        ensures
            *final(program_state) == (ProgramState {
                focus_position: (
                    self.focus_after(old(program_state).focus_position).0 as i16,
                    self.focus_after(old(program_state).focus_position).1 as i16,
                ),
                ..*old(program_state)
            }),
    {
        proof {
            crate::rect::lemma_u16_as_i16(self.cells);
        }
        let cells = self.cells as i16;
        match self.direction {
            Direction::Left => {
                program_state.focus_position.1 = program_state.focus_position.1 - cells;
            },
            Direction::Right => {
                program_state.focus_position.1 = program_state.focus_position.1 + cells;
            },
            Direction::Up => {
                program_state.focus_position.0 = program_state.focus_position.0 - cells;
            },
            Direction::Down => {
                program_state.focus_position.0 = program_state.focus_position.0 + cells;
            },
        }
    }
}

/// Does nothing.
#[derive(Debug, Clone, Copy)]
pub struct DoNothing;

impl DoNothing {
    pub fn execute(&self, program_state: &mut ProgramState)
        ensures
            *final(program_state) == *old(program_state),
    {
    }
}

/// Switches to choosing the direction of insertion.
#[derive(Debug, Clone, Copy)]
pub struct ModeChooseInsertDirection {}

impl ModeChooseInsertDirection {
    pub fn execute(&self, program_state: &mut ProgramState)
        ensures
            *final(program_state) == (ProgramState {
                input_mode: InputMode::ChooseInsertDirection,
                ..*old(program_state)
            }),
    {
        program_state.input_mode = InputMode::ChooseInsertDirection;
    }
}

/// Switches to inserting text in a direction.
#[derive(Debug, Clone, Copy)]
pub struct ModeInsert {
    pub direction: Direction,
}

impl ModeInsert {
    pub fn left() -> (m: Self)
        ensures
            m.direction == Direction::Left,
    {
        ModeInsert { direction: Direction::Left }
    }

    pub fn right() -> (m: Self)
        ensures
            m.direction == Direction::Right,
    {
        ModeInsert { direction: Direction::Right }
    }

    pub fn up() -> (m: Self)
        ensures
            m.direction == Direction::Up,
    {
        ModeInsert { direction: Direction::Up }
    }

    pub fn down() -> (m: Self)
        ensures
            m.direction == Direction::Down,
    {
        ModeInsert { direction: Direction::Down }
    }

    pub fn execute(&self, program_state: &mut ProgramState)
        ensures
            *final(program_state) == (ProgramState {
                input_mode: InputMode::Insert(self.direction),
                ..*old(program_state)
            }),
    {
        program_state.input_mode = InputMode::Insert(self.direction);
    }
}

/// Switches to replacing characters.
#[derive(Debug, Clone, Copy)]
pub struct ModeReplace {}

impl ModeReplace {
    pub fn execute(&self, program_state: &mut ProgramState)
        ensures
            *final(program_state) == (ProgramState { input_mode: InputMode::Replace, ..*old(program_state) }),
    {
        program_state.input_mode = InputMode::Replace;
    }
}

/// Switches to changing the brush.
#[derive(Debug, Clone, Copy)]
pub struct ModeChangeBrush {}

impl ModeChangeBrush {
    pub fn execute(&self, program_state: &mut ProgramState)
        ensures
            *final(program_state) == (ProgramState {
                input_mode: InputMode::ChangeBrush,
                ..*old(program_state)
            }),
    {
        program_state.input_mode = InputMode::ChangeBrush;
    }
}

/// Switches to picking the brush's foreground or background color.
#[derive(Debug, Clone, Copy)]
pub struct ModeColorPicker {
    pub ground: Ground,
}

impl ModeColorPicker {
    pub fn fg() -> (m: Self)
        ensures
            m.ground == Ground::Foreground,
    {
        ModeColorPicker { ground: Ground::Foreground }
    }

    pub fn bg() -> (m: Self)
        ensures
            m.ground == Ground::Background,
    {
        ModeColorPicker { ground: Ground::Background }
    }

    /// Switches the mode and hands back the title and the initial color of the picker to show.
    pub fn execute(&self, program_state: &mut ProgramState) -> (r: (&'static str, Option<Color>))
        ensures
            *final(program_state) == (ProgramState {
                input_mode: InputMode::ColorPicker(self.ground),
                ..*old(program_state)
            }),
            self.ground == Ground::Foreground ==> r.0@ == "FG Color"@ && r.1 == old(program_state).brush.fg,
            self.ground == Ground::Background ==> r.0@ == "BG Color"@ && r.1 == old(program_state).brush.bg,
    {
        let r = match self.ground {
            Ground::Foreground => ("FG Color", program_state.brush.fg),
            Ground::Background => ("BG Color", program_state.brush.bg),
        };
        program_state.input_mode = InputMode::ColorPicker(self.ground);
        r
    }
}

/// Switches to choosing the brush's character.
#[derive(Debug, Clone, Copy)]
pub struct ModeChooseBrushCharacter {}

impl ModeChooseBrushCharacter {
    pub fn execute(&self, program_state: &mut ProgramState)
        ensures
            *final(program_state) == (ProgramState {
                input_mode: InputMode::ChooseBrushCharacter,
                ..*old(program_state)
            }),
    {
        program_state.input_mode = InputMode::ChooseBrushCharacter;
    }
}

/// Switches to taking aspects of a cell into the brush.
#[derive(Debug, Clone, Copy)]
pub struct ModePipette {}

impl ModePipette {
    pub fn execute(&self, program_state: &mut ProgramState)
        ensures
            *final(program_state) == (ProgramState { input_mode: InputMode::Pipette, ..*old(program_state) }),
    {
        program_state.input_mode = InputMode::Pipette;
    }
}

/// Switches to the command line, which starts empty.
#[derive(Debug, Clone, Copy)]
pub struct ModeCommand {}

impl ModeCommand {
    pub fn execute(&self, program_state: &mut ProgramState)
        ensures
            *final(program_state) == (ProgramState {
                input_mode: InputMode::Command,
                command_line: final(program_state).command_line,
                ..*old(program_state)
            }),
            final(program_state).command_line@ == Seq::<char>::empty(),
    {
        program_state.command_line = String::new();
        program_state.input_mode = InputMode::Command;
    }
}

/// Switches to selecting a rectangle, which starts and ends at the cursor.
#[derive(Debug, Clone, Copy)]
pub struct ModeVisualRect {}

impl ModeVisualRect {
    pub fn execute(&self, program_state: &mut ProgramState)
        ensures
            *final(program_state) == (ProgramState {
                input_mode: InputMode::VisualRect(
                    old(program_state).cursor_position,
                    old(program_state).cursor_position,
                ),
                ..*old(program_state)
            }),
    {
        program_state.input_mode = InputMode::VisualRect(
            program_state.cursor_position,
            program_state.cursor_position,
        );
    }
}

/// Highlights the selection in `slot`.
#[derive(Debug, Clone, Copy)]
pub struct HighlightSelection {
    pub slot: char,
}

impl HighlightSelection {
    pub fn execute(&self, program_state: &mut ProgramState)
        ensures
            *final(program_state) == (ProgramState {
                selection_highlight: Some(self.slot),
                ..*old(program_state)
            }),
    {
        program_state.selection_highlight = Some(self.slot);
    }
}

/// Highlights no selection.
#[derive(Debug, Clone, Copy)]
pub struct HighlightSelectionClear {}

impl HighlightSelectionClear {
    pub fn execute(&self, program_state: &mut ProgramState)
        ensures
            *final(program_state) == (ProgramState { selection_highlight: None, ..*old(program_state) }),
    {
        program_state.selection_highlight = None;
    }
}

/// Makes `slot` the active selection, and highlights it where asked to.
#[derive(Debug, Clone, Copy)]
pub struct SetSelectionActive {
    pub slot: char,
    pub highlight: bool,
}

impl SetSelectionActive {
    pub fn execute(&self, program_state: &mut ProgramState)
        ensures
            *final(program_state) == (ProgramState {
                selection_active: self.slot,
                selection_highlight: if self.highlight {
                    Some(self.slot)
                } else {
                    old(program_state).selection_highlight
                },
                ..*old(program_state)
            }),
    {
        program_state.selection_active = self.slot;
        if self.highlight {
            program_state.selection_highlight = Some(self.slot);
        }
    }
}

/// Makes a color or a color slot the active one.
#[derive(Debug, Clone, Copy)]
pub struct SetColorOrSlotActive {
    pub color_or_slot: ColorOrSlot,
}

impl SetColorOrSlotActive {
    pub fn execute(&self, program_state: &mut ProgramState)
        ensures
            *final(program_state) == (ProgramState {
                color_or_slot_active: self.color_or_slot,
                ..*old(program_state)
            }),
    {
        program_state.color_or_slot_active = self.color_or_slot;
    }
}

/// Makes `slot` the active yank slot.
#[derive(Debug, Clone, Copy)]
pub struct SetYankActive {
    pub slot: char,
}

impl SetYankActive {
    pub fn execute(&self, program_state: &mut ProgramState)
        ensures
            *final(program_state) == (ProgramState { yank_active: self.slot, ..*old(program_state) }),
    {
        program_state.yank_active = self.slot;
    }
}

/// Marks the cursor position in `slot`.
#[derive(Debug, Clone, Copy)]
pub struct MarkSet {
    pub slot: char,
}

impl MarkSet {
    pub fn execute(&self, program_state: &mut ProgramState)
        requires
            old(program_state).marks.wf(),
        ensures
            final(program_state).marks.wf(),
            final(program_state).marks.view_map() == old(program_state).marks.view_map().insert(
                self.slot,
                old(program_state).cursor_position,
            ),
            *final(program_state) == (ProgramState {
                marks: final(program_state).marks,
                ..*old(program_state)
            }),
    {
        let position = program_state.cursor_position;
        program_state.marks.insert(self.slot, position);
    }
}

/// Undoes the newest commit.
#[derive(Debug, Clone, Copy)]
pub struct Undo {}

impl Undo {
    pub fn execute(&self, program_state: &mut ProgramState)
        requires
            old(program_state).wf(),
            old(program_state).canvas.can_undo(),
        ensures
            final(program_state).wf(),
            old(program_state).canvas.undo_step(final(program_state).canvas),
            *final(program_state) == (ProgramState {
                canvas: final(program_state).canvas,
                ..*old(program_state)
            }),
    {
        program_state.canvas.undo();
    }
}

/// Redoes the newest undone commit.
#[derive(Debug, Clone, Copy)]
pub struct Redo {}

impl Redo {
    pub fn execute(&self, program_state: &mut ProgramState)
        requires
            old(program_state).wf(),
            old(program_state).canvas.can_redo(),
        ensures
            final(program_state).wf(),
            old(program_state).canvas.redo_step(final(program_state).canvas),
            *final(program_state) == (ProgramState {
                canvas: final(program_state).canvas,
                ..*old(program_state)
            }),
    {
        program_state.canvas.redo();
    }
}

/// Quits where nothing has changed since the last save.
#[derive(Debug, Clone, Copy)]
pub struct Quit {}

pub open spec fn unsaved_changes_message() -> Seq<char> {
    "Changes have been made since last save. Use :x to save changes and quit or :q! to quit without saving changes."@
}

impl Quit {
    pub fn try_execute(&self, program_state: &mut ProgramState) -> (r: Result<(), String>)
        ensures
            old(program_state).last_saved_revision == (if old(program_state).canvas.commits@.len()
                > 0 {
                old(program_state).canvas.commits@.last().revision
            } else {
                0
            }) ==> r is Ok && *final(program_state) == (ProgramState {
                exit: true,
                ..*old(program_state)
            }),
            old(program_state).last_saved_revision != (if old(program_state).canvas.commits@.len()
                > 0 {
                old(program_state).canvas.commits@.last().revision
            } else {
                0
            }) ==> (r matches Err(m) && m@ == unsaved_changes_message()) && *final(program_state)
                == *old(program_state),
    {
        if program_state.last_saved_revision == program_state.canvas.get_current_revision() {
            program_state.exit = true;
            Ok(())
        } else {
            Err(
                "Changes have been made since last save. Use :x to save changes and quit or :q! to quit without saving changes.".to_owned(),
            )
        }
    }
}

/// Quits, whatever has changed.
#[derive(Debug, Clone, Copy)]
pub struct ForceQuit {}

impl ForceQuit {
    pub fn execute(&self, program_state: &mut ProgramState)
        ensures
            *final(program_state) == (ProgramState { exit: true, ..*old(program_state) }),
    {
        program_state.exit = true;
    }
}

/// How the view is placed relative to the cursor along one axis.
#[derive(Debug, Clone, Copy, PartialEq, Eq, Structural)]
pub enum ChangeFocusType {
    /// The cursor in the middle.
    Center,
    /// The cursor the given number of cells from the start of the view.
    Start(u16),
    /// The cursor the given number of cells from the end of the view.
    End(u16),
}

/// The focus coordinate after placing the view along one axis, and whether it stays in `i16`.
pub open spec fn focus_coordinate(
    t: ChangeFocusType,
    focus: i16,
    cursor: i16,
    first: int,
    last: int,
) -> (int, bool) {
    match t {
        ChangeFocusType::Center => (cursor as int, true),
        ChangeFocusType::Start(n) => {
            let a = cursor - first;
            let b = a - wrap_i16(n);
            (focus + b, fits_i16(a) && fits_i16(b) && fits_i16(focus + b))
        },
        ChangeFocusType::End(n) => {
            let a = cursor - last;
            let b = a + wrap_i16(n);
            (focus + b, fits_i16(a) && fits_i16(b) && fits_i16(focus + b))
        },
    }
}

/// Places the view relative to the cursor.
#[derive(Debug, Clone, Copy)]
pub struct ChangeFocus {
    pub type_horizontal: Option<ChangeFocusType>,
    pub type_vertical: Option<ChangeFocusType>,
}

impl ChangeFocus {
    pub open spec fn fits(&self, s: ProgramState) -> bool {
        &&& self.type_horizontal is Some ==> s.canvas_visible.last_column_fits() && focus_coordinate(
            self.type_horizontal->0,
            s.focus_position.1,
            s.cursor_position.1,
            s.canvas_visible.column as int,
            s.canvas_visible.spec_last_column(),
        ).1
        &&& self.type_vertical is Some ==> s.canvas_visible.last_row_fits() && focus_coordinate(
            self.type_vertical->0,
            s.focus_position.0,
            s.cursor_position.0,
            s.canvas_visible.row as int,
            s.canvas_visible.spec_last_row(),
        ).1
    }

    pub open spec fn focus_after(&self, s: ProgramState) -> CanvasIndex {
        (
            match self.type_vertical {
                Some(t) => focus_coordinate(
                    t,
                    s.focus_position.0,
                    s.cursor_position.0,
                    s.canvas_visible.row as int,
                    s.canvas_visible.spec_last_row(),
                ).0 as i16,
                None => s.focus_position.0,
            },
            match self.type_horizontal {
                Some(t) => focus_coordinate(
                    t,
                    s.focus_position.1,
                    s.cursor_position.1,
                    s.canvas_visible.column as int,
                    s.canvas_visible.spec_last_column(),
                ).0 as i16,
                None => s.focus_position.1,
            },
        )
    }

    pub fn execute(&self, program_state: &mut ProgramState)
        requires
            self.fits(*old(program_state)),
        ensures
            *final(program_state) == (ProgramState {
                focus_position: self.focus_after(*old(program_state)),
                ..*old(program_state)
            }),
    {
        match self.type_horizontal {
            Some(ChangeFocusType::Center) => {
                program_state.focus_position.1 = program_state.cursor_position.1;
            },
            Some(ChangeFocusType::Start(columns)) => {
                proof {
                    crate::rect::lemma_u16_as_i16(columns);
                }
                let a = program_state.cursor_position.1 - program_state.canvas_visible.first_column();
                let b = a - columns as i16;
                program_state.focus_position.1 = program_state.focus_position.1 + b;
            },
            Some(ChangeFocusType::End(columns)) => {
                proof {
                    crate::rect::lemma_u16_as_i16(columns);
                }
                let a = program_state.cursor_position.1 - program_state.canvas_visible.last_column();
                let b = a + columns as i16;
                program_state.focus_position.1 = program_state.focus_position.1 + b;
            },
            None => {},
        }
        match self.type_vertical {
            Some(ChangeFocusType::Center) => {
                program_state.focus_position.0 = program_state.cursor_position.0;
            },
            Some(ChangeFocusType::Start(rows)) => {
                proof {
                    crate::rect::lemma_u16_as_i16(rows);
                }
                let a = program_state.cursor_position.0 - program_state.canvas_visible.first_row();
                let b = a - rows as i16;
                program_state.focus_position.0 = program_state.focus_position.0 + b;
            },
            Some(ChangeFocusType::End(rows)) => {
                proof {
                    crate::rect::lemma_u16_as_i16(rows);
                }
                let a = program_state.cursor_position.0 - program_state.canvas_visible.last_row();
                let b = a + rows as i16;
                program_state.focus_position.0 = program_state.focus_position.0 + b;
            },
            None => {},
        }
    }
}

/// Takes the color under the cursor into a color slot.
#[derive(Debug, Clone, Copy)]
pub struct Pipette {
    pub ground: Ground,
    pub slot: ColorOrSlotSpecification,
}

impl Pipette {
    pub fn execute(&self, program_state: &mut ProgramState)
        requires
            old(program_state).wf(),
        ensures
            final(program_state).wf(),
            match old(program_state).spec_color_or_slot(self.slot) {
                ColorOrSlot::Slot(ch) => {
                    let cell = read_cell(
                        old(program_state).canvas.current.cell_map(),
                        old(program_state).cursor_position,
                    );
                    &&& final(program_state).color_slots.view_map()
                        == old(program_state).color_slots.view_map().insert(
                        ch,
                        if self.ground == Ground::Foreground {
                            cell.fg
                        } else {
                            cell.bg
                        },
                    )
                    &&& *final(program_state) == (ProgramState {
                        color_slots: final(program_state).color_slots,
                        ..*old(program_state)
                    })
                },
                ColorOrSlot::Color(_) => *final(program_state) == *old(program_state),
            },
    {
        match self.slot.as_color_or_slot(program_state) {
            ColorOrSlot::Slot(ch) => {
                let color = program_state.canvas.raw().color(program_state.cursor_position, self.ground);
                program_state.color_slots.insert(ch, color);
            },
            ColorOrSlot::Color(_) => {},
        }
    }
}

/// Which aspects of the cell under the cursor go into the brush.
#[derive(Debug, Clone, Copy)]
pub enum PipetteTake {
    Fg,
    Bg,
    Colors,
    Character,
    All,
}

impl PipetteTake {
    pub open spec fn takes_fg(&self) -> bool {
        self matches PipetteTake::Fg || self matches PipetteTake::Colors || self matches PipetteTake::All
    }

    pub open spec fn takes_bg(&self) -> bool {
        self matches PipetteTake::Bg || self matches PipetteTake::Colors || self matches PipetteTake::All
    }

    pub open spec fn takes_character(&self) -> bool {
        self matches PipetteTake::Character || self matches PipetteTake::All
    }

    pub fn execute(&self, program_state: &mut ProgramState)
        requires
            old(program_state).wf(),
        ensures
            ({
                let cell = read_cell(
                    old(program_state).canvas.current.cell_map(),
                    old(program_state).cursor_position,
                );
                *final(program_state) == (ProgramState {
                    brush: Brush {
                        character: if self.takes_character() {
                            Some(cell.character)
                        } else {
                            old(program_state).brush.character
                        },
                        fg: if self.takes_fg() {
                            Some(cell.fg)
                        } else {
                            old(program_state).brush.fg
                        },
                        bg: if self.takes_bg() {
                            Some(cell.bg)
                        } else {
                            old(program_state).brush.bg
                        },
                        ..old(program_state).brush
                    },
                    ..*old(program_state)
                })
            }),
    {
        let cell = program_state.canvas.raw().cell(program_state.cursor_position);
        match self {
            PipetteTake::Fg => {
                program_state.brush.fg = Some(cell.fg);
            },
            PipetteTake::Bg => {
                program_state.brush.bg = Some(cell.bg);
            },
            PipetteTake::Colors => {
                program_state.brush.fg = Some(cell.fg);
                program_state.brush.bg = Some(cell.bg);
            },
            PipetteTake::Character => {
                program_state.brush.character = Some(cell.character);
            },
            PipetteTake::All => {
                program_state.brush.fg = Some(cell.fg);
                program_state.brush.bg = Some(cell.bg);
                program_state.brush.character = Some(cell.character);
            },
        }
    }
}

pub open spec fn opt_modification(present: bool, m: CanvasModification) -> Seq<CanvasModification> {
    if present {
        seq![m]
    } else {
        Seq::empty()
    }
}

impl Brush {
    /// The modifications that painting with the brush at `index` commits, one for each aspect
    /// the brush holds: character, foreground, background, modifiers.
    pub open spec fn paint_modifications(&self, index: CanvasIndex) -> Seq<CanvasModification> {
        opt_modification(self.character is Some, CanvasModification::SetCharacter(index, self.character->0))
            + opt_modification(self.fg is Some, CanvasModification::SetFgColor(index, self.fg->0))
            + opt_modification(self.bg is Some, CanvasModification::SetBgColor(index, self.bg->0))
            + opt_modification(self.modifiers is Some, CanvasModification::SetModifiers(index, self.modifiers->0))
    }

    /// Commits `modifications`, if there are any.
    fn commit_if_any(canvas: &mut VersionControlledCanvas, modifications: Vec<CanvasModification>)
        requires
            old(canvas).wf(),
            modifications@.len() > 0 ==> old(canvas).can_commit(modifications@),
        ensures
            final(canvas).wf(),
            modifications@.len() > 0 ==> old(canvas).create_commit_step(*final(canvas), modifications@),
            modifications@.len() == 0 ==> *final(canvas) == *old(canvas),
    {
        if modifications.len() > 0 {
            canvas.create_commit(modifications);
        }
    }

    /// Paints every aspect the brush holds at `index`, in one commit.
    pub fn paint(&self, canvas: &mut VersionControlledCanvas, index: CanvasIndex)
        requires
            old(canvas).wf(),
            self.paint_modifications(index).len() > 0 ==> old(canvas).can_commit(
                self.paint_modifications(index),
            ),
        ensures
            final(canvas).wf(),
            self.paint_modifications(index).len() > 0 ==> old(canvas).create_commit_step(
                *final(canvas),
                self.paint_modifications(index),
            ),
            self.paint_modifications(index).len() == 0 ==> *final(canvas) == *old(canvas),
    {
        let ghost p1 = opt_modification(
            self.character is Some,
            CanvasModification::SetCharacter(index, self.character->0),
        );
        let ghost p2 = opt_modification(self.fg is Some, CanvasModification::SetFgColor(index, self.fg->0));
        let ghost p3 = opt_modification(self.bg is Some, CanvasModification::SetBgColor(index, self.bg->0));
        let ghost p4 = opt_modification(
            self.modifiers is Some,
            CanvasModification::SetModifiers(index, self.modifiers->0),
        );
        let mut operations: Vec<CanvasModification> = Vec::new();
        match self.character {
            Some(_) => {
                let character = crate::operations::some_char(self.character);
                operations.push(CanvasModification::SetCharacter(index, character));
            },
            None => {},
        }
        assert(operations@ =~= p1);
        match self.fg {
            Some(fg) => operations.push(CanvasModification::SetFgColor(index, fg)),
            None => {},
        }
        assert(operations@ =~= p1 + p2);
        match self.bg {
            Some(bg) => operations.push(CanvasModification::SetBgColor(index, bg)),
            None => {},
        }
        assert(operations@ =~= p1 + p2 + p3);
        match self.modifiers {
            Some(modifiers) => operations.push(CanvasModification::SetModifiers(index, modifiers)),
            None => {},
        }
        assert(operations@ =~= p1 + p2 + p3 + p4);
        Brush::commit_if_any(canvas, operations);
    }

    /// Paints with the brush, its character replaced by `character`.
    pub fn paint_with_character(&self, canvas: &mut VersionControlledCanvas, index: CanvasIndex, character: char)
        requires
            old(canvas).wf(),
            old(canvas).can_commit(Brush { character: Some(character), ..*self }.paint_modifications(index)),
        ensures
            final(canvas).wf(),
            old(canvas).create_commit_step(
                *final(canvas),
                Brush { character: Some(character), ..*self }.paint_modifications(index),
            ),
    {
        let brush = Brush { character: Some(character), fg: self.fg, bg: self.bg, modifiers: self.modifiers };
        brush.paint(canvas, index);
    }

    /// Paints the brush's character at `index`, if it has one.
    pub fn paint_character(&self, canvas: &mut VersionControlledCanvas, index: CanvasIndex)
        requires
            old(canvas).wf(),
            self.character is Some ==> old(canvas).can_commit(
                seq![CanvasModification::SetCharacter(index, self.character->0)],
            ),
        ensures
            final(canvas).wf(),
            self.character is Some ==> old(canvas).create_commit_step(
                *final(canvas),
                seq![CanvasModification::SetCharacter(index, self.character->0)],
            ),
            self.character is None ==> *final(canvas) == *old(canvas),
    {
        match self.character {
            Some(_) => {
                let v = crate::operations::some_char(self.character);
                let mut operations: Vec<CanvasModification> = Vec::new();
                operations.push(CanvasModification::SetCharacter(index, v));
                assert(operations@ =~= seq![CanvasModification::SetCharacter(index, self.character->0)]);
                canvas.create_commit(operations);
            },
            None => {},
        }
    }

    /// Paints the brush's foreground color at `index`, if it has one.
    pub fn paint_fg(&self, canvas: &mut VersionControlledCanvas, index: CanvasIndex)
        requires
            old(canvas).wf(),
            self.fg is Some ==> old(canvas).can_commit(
                seq![CanvasModification::SetFgColor(index, self.fg->0)],
            ),
        ensures
            final(canvas).wf(),
            self.fg is Some ==> old(canvas).create_commit_step(
                *final(canvas),
                seq![CanvasModification::SetFgColor(index, self.fg->0)],
            ),
            self.fg is None ==> *final(canvas) == *old(canvas),
    {
        match self.fg {
            Some(v) => {
                let mut operations: Vec<CanvasModification> = Vec::new();
                operations.push(CanvasModification::SetFgColor(index, v));
                assert(operations@ =~= seq![CanvasModification::SetFgColor(index, self.fg->0)]);
                canvas.create_commit(operations);
            },
            None => {},
        }
    }

    /// Paints the brush's background color at `index`, if it has one.
    pub fn paint_bg(&self, canvas: &mut VersionControlledCanvas, index: CanvasIndex)
        requires
            old(canvas).wf(),
            self.bg is Some ==> old(canvas).can_commit(
                seq![CanvasModification::SetBgColor(index, self.bg->0)],
            ),
        ensures
            final(canvas).wf(),
            self.bg is Some ==> old(canvas).create_commit_step(
                *final(canvas),
                seq![CanvasModification::SetBgColor(index, self.bg->0)],
            ),
            self.bg is None ==> *final(canvas) == *old(canvas),
    {
        match self.bg {
            Some(v) => {
                let mut operations: Vec<CanvasModification> = Vec::new();
                operations.push(CanvasModification::SetBgColor(index, v));
                assert(operations@ =~= seq![CanvasModification::SetBgColor(index, self.bg->0)]);
                canvas.create_commit(operations);
            },
            None => {},
        }
    }

    /// Paints the brush's colors at `index`, in one commit.
    pub fn paint_fg_bg(&self, canvas: &mut VersionControlledCanvas, index: CanvasIndex)
        requires
            old(canvas).wf(),
            (Brush { character: None, modifiers: None, ..*self }).paint_modifications(index).len() > 0
                ==> old(canvas).can_commit(
                (Brush { character: None, modifiers: None, ..*self }).paint_modifications(index),
            ),
        ensures
            final(canvas).wf(),
            (Brush { character: None, modifiers: None, ..*self }).paint_modifications(index).len() > 0
                ==> old(canvas).create_commit_step(
                *final(canvas),
                (Brush { character: None, modifiers: None, ..*self }).paint_modifications(index),
            ),
            (Brush { character: None, modifiers: None, ..*self }).paint_modifications(index).len()
                == 0 ==> *final(canvas) == *old(canvas),
    {
        let brush = Brush { character: None, fg: self.fg, bg: self.bg, modifiers: None };
        brush.paint(canvas, index);
    }

    /// Paints the brush's modifiers at `index`, if it has any.
    pub fn paint_modifiers(&self, canvas: &mut VersionControlledCanvas, index: CanvasIndex)
        requires
            old(canvas).wf(),
            self.modifiers is Some ==> old(canvas).can_commit(
                seq![CanvasModification::SetModifiers(index, self.modifiers->0)],
            ),
        ensures
            final(canvas).wf(),
            self.modifiers is Some ==> old(canvas).create_commit_step(
                *final(canvas),
                seq![CanvasModification::SetModifiers(index, self.modifiers->0)],
            ),
            self.modifiers is None ==> *final(canvas) == *old(canvas),
    {
        match self.modifiers {
            Some(v) => {
                let mut operations: Vec<CanvasModification> = Vec::new();
                operations.push(CanvasModification::SetModifiers(index, v));
                assert(operations@ =~= seq![CanvasModification::SetModifiers(index, self.modifiers->0)]);
                canvas.create_commit(operations);
            },
            None => {},
        }
    }
}

/// Which aspects of the brush are painted at the cursor.
#[derive(Debug, Clone, Copy)]
pub enum BrushApply {
    Fg,
    Bg,
    Colors,
    Character,
    Modifiers,
    All,
}

impl BrushApply {
    /// The part of the brush that is painted.
    pub open spec fn applied(&self, b: Brush) -> Brush {
        match self {
            BrushApply::Fg => Brush { character: None, fg: b.fg, bg: None, modifiers: None },
            BrushApply::Bg => Brush { character: None, fg: None, bg: b.bg, modifiers: None },
            BrushApply::Colors => Brush { character: None, fg: b.fg, bg: b.bg, modifiers: None },
            BrushApply::Character => Brush { character: b.character, fg: None, bg: None, modifiers: None },
            BrushApply::Modifiers => Brush { character: None, fg: None, bg: None, modifiers: b.modifiers },
            BrushApply::All => b,
        }
    }

    pub open spec fn modifications(&self, s: ProgramState) -> Seq<CanvasModification> {
        self.applied(s.brush).paint_modifications(s.cursor_position)
    }

    pub fn execute(&self, program_state: &mut ProgramState)
        requires
            old(program_state).wf(),
            self.modifications(*old(program_state)).len() > 0 ==> old(program_state).canvas.can_commit(
                self.modifications(*old(program_state)),
            ),
        ensures
            final(program_state).wf(),
            self.modifications(*old(program_state)).len() > 0 ==> old(program_state).canvas.create_commit_step(
                final(program_state).canvas,
                self.modifications(*old(program_state)),
            ),
            *final(program_state) == (ProgramState {
                canvas: final(program_state).canvas,
                ..*old(program_state)
            }),
            self.modifications(*old(program_state)).len() == 0 ==> final(program_state).canvas
                == old(program_state).canvas,
    {
        let index = program_state.cursor_position;
        let b = program_state.brush;
        let brush = match self {
            BrushApply::Fg => Brush { character: None, fg: b.fg, bg: None, modifiers: None },
            BrushApply::Bg => Brush { character: None, fg: None, bg: b.bg, modifiers: None },
            BrushApply::Colors => Brush { character: None, fg: b.fg, bg: b.bg, modifiers: None },
            BrushApply::Character => Brush { character: b.character, fg: None, bg: None, modifiers: None },
            BrushApply::Modifiers => Brush { character: None, fg: None, bg: None, modifiers: b.modifiers },
            BrushApply::All => b,
        };
        brush.paint(&mut program_state.canvas, index);
    }
}

/// Pastes the yank in a slot at the cursor, in one commit.
#[derive(Debug, Clone, Copy)]
pub struct Paste {
    pub slot: SlotSpecification,
}

/// A copy of a yank commits the same paste as the yank itself.
proof fn lemma_paste_copy(canvas: VersionControlledCanvas, at: CanvasIndex, y1: CanvasYank, y2: CanvasYank)
    requires
        y1.cells@ == y2.cells@,
        y1.content_type == y2.content_type,
    ensures
        canvas.commit_diff(seq![CanvasModification::Paste(at, y1)]) == canvas.commit_diff(
            seq![CanvasModification::Paste(at, y2)],
        ),
        builder_add_modifications(
            Map::empty(),
            seq![CanvasModification::Paste(at, y1)],
            canvas.current.cell_map(),
            true,
        ) == builder_add_modifications(
            Map::empty(),
            seq![CanvasModification::Paste(at, y2)],
            canvas.current.cell_map(),
            true,
        ),
{
    let s1 = seq![CanvasModification::Paste(at, y1)];
    let s2 = seq![CanvasModification::Paste(at, y2)];
    let cm = canvas.current.cell_map();
    assert(modification_diff(s1[0], cm) =~= modification_diff(s2[0], cm));
    assert(s1.drop_first() =~= s2.drop_first());
    assert(builder_add_modifications(Map::empty(), s1, cm, true) == builder_add_modifications(
        Map::empty(),
        s2,
        cm,
        true,
    ));
}

impl Paste {
    pub fn execute(&self, program_state: &mut ProgramState)
        requires
            old(program_state).wf(),
            ({
                let c = old(program_state).spec_yank_slot(self.slot);
                old(program_state).yanks.view_map().contains_key(c) ==> old(program_state).canvas.can_commit(
                    seq![
                        CanvasModification::Paste(
                            old(program_state).cursor_position,
                            old(program_state).yanks.view_map()[c],
                        ),
                    ],
                )
            }),
        ensures
            final(program_state).wf(),
            ({
                let c = old(program_state).spec_yank_slot(self.slot);
                &&& old(program_state).yanks.view_map().contains_key(c) ==> old(program_state).canvas.create_commit_step(
                    final(program_state).canvas,
                    seq![
                        CanvasModification::Paste(
                            old(program_state).cursor_position,
                            old(program_state).yanks.view_map()[c],
                        ),
                    ],
                )
                &&& !old(program_state).yanks.view_map().contains_key(c) ==> final(program_state).canvas
                    == old(program_state).canvas
            }),
            *final(program_state) == (ProgramState {
                canvas: final(program_state).canvas,
                ..*old(program_state)
            }),
    {
        let c = self.slot.as_yank_slot(program_state);
        let at = program_state.cursor_position;
        match program_state.yanks.get(c) {
            Some(yank) => {
                let copy = yank.clone();
                let ghost y = *yank;
                let mut modifications: Vec<CanvasModification> = Vec::new();
                modifications.push(CanvasModification::Paste(at, copy));
                proof {
                    lemma_paste_copy(program_state.canvas, at, y, copy);
                    assert(modifications@ =~= seq![CanvasModification::Paste(at, copy)]);
                }
                let ghost before = program_state.canvas;
                program_state.canvas.create_commit(modifications);
                proof {
                    crate::history::lemma_commit_step_same_diff(
                        before,
                        program_state.canvas,
                        seq![CanvasModification::Paste(at, copy)],
                        seq![CanvasModification::Paste(at, y)],
                    );
                }
            },
            None => {},
        }
    }
}

/// Mirrors the yank in a slot about its origin.
#[derive(Debug, Clone, Copy)]
pub struct MirrorYank {
    pub slot: SlotSpecification,
    pub axis: Axis,
}

impl MirrorYank {
    pub open spec fn swaps(&self, s: ProgramState) -> Map<char, char> {
        if self.axis == Axis::X {
            s.character_mirrors_x.swaps()
        } else {
            s.character_mirrors_y.swaps()
        }
    }

    pub fn execute(&self, program_state: &mut ProgramState)
        requires
            old(program_state).wf(),
            ({
                let c = old(program_state).spec_yank_slot(self.slot);
                old(program_state).yanks.view_map().contains_key(c) ==> forall|j: int|
                    0 <= j < old(program_state).yanks.view_map()[c].cells@.len() ==> mirrored_fits(
                        #[trigger] old(program_state).yanks.view_map()[c].cells@[j].0,
                        self.axis,
                        0,
                    )
            }),
        ensures
            final(program_state).wf(),
            ({
                let c = old(program_state).spec_yank_slot(self.slot);
                let before = old(program_state).yanks.view_map();
                let after = final(program_state).yanks.view_map();
                &&& after.dom() == before.dom()
                &&& forall|d: char| d != c && #[trigger] before.contains_key(d) ==> after[d] == before[d]
                &&& before.contains_key(c) ==> after[c].content_type == before[c].content_type
                    && entries_map(after[c].cells@) == mirror_map(
                    entries_map(before[c].cells@),
                    self.axis,
                    0,
                    self.swaps(*old(program_state)),
                )
            }),
            *final(program_state) == (ProgramState {
                yanks: final(program_state).yanks,
                ..*old(program_state)
            }),
    {
        let c = self.slot.as_yank_slot(program_state);
        let ghost before = program_state.yanks.view_map();
        match program_state.yanks.remove(c) {
            Some(y) => {
                let mut yank = y;
                assert(before.contains_key(c));
                match self.axis {
                    Axis::X => mirror_cells(&mut yank.cells, self.axis, 0, &program_state.character_mirrors_x),
                    Axis::Y => mirror_cells(&mut yank.cells, self.axis, 0, &program_state.character_mirrors_y),
                }
                program_state.yanks.insert(c, yank);
                proof {
                    let after = program_state.yanks.view_map();
                    assert(after.dom() =~= before.dom());
                }
            },
            None => {
                proof {
                    assert(program_state.yanks.view_map() =~= before);
                }
            },
        }
    }
}


/// Whether a macro recording starts, into a slot, or stops.
#[derive(Debug, Clone, Copy, PartialEq, Eq, Structural)]
pub enum MacroRecordingStartStopType {
    Start(char),
    Stop,
}

/// Starts recording a macro, or stops the recording and stores the macro.
#[derive(Debug, Clone, Copy)]
pub struct MacroRecordingStartStop {
    pub start_or_stop: MacroRecordingStartStopType,
}

impl MacroRecordingStartStop {
    /// Starting begins an empty recording into the slot. Stopping stores what was recorded in
    /// its slot, without the last keystrokes as many as are still pending (those of the command
    /// that stops the recording), and ends the recording; without a recording it does nothing.
    pub fn execute(&self, program_state: &mut ProgramState)
        requires
            old(program_state).wf(),
        ensures
            final(program_state).wf(),
            self.start_or_stop matches MacroRecordingStartStopType::Start(ch) ==> {
                &&& final(program_state).macro_recording matches Some(r) && r.slot == ch
                    && r.keystrokes@.len() == 0
                &&& *final(program_state) == (ProgramState {
                    macro_recording: final(program_state).macro_recording,
                    ..*old(program_state)
                })
            },
            self.start_or_stop is Stop ==> match old(program_state).macro_recording {
                Some(r) => {
                    let kept = if r.keystrokes@.len() >= old(program_state).keystroke_sequence_incomplete@.len() {
                        r.keystrokes@.len() - old(program_state).keystroke_sequence_incomplete@.len()
                    } else {
                        0
                    };
                    &&& final(program_state).macro_recording is None
                    &&& final(program_state).macros.view_map().dom() == old(program_state).macros.view_map().dom().insert(r.slot)
                    &&& final(program_state).macros.view_map()[r.slot].keystrokes@ == r.keystrokes@.take(kept)
                    &&& forall|c: char| c != r.slot && #[trigger] old(program_state).macros.view_map().contains_key(c)
                        ==> final(program_state).macros.view_map()[c] == old(program_state).macros.view_map()[c]
                    &&& *final(program_state) == (ProgramState {
                        macro_recording: final(program_state).macro_recording,
                        macros: final(program_state).macros,
                        ..*old(program_state)
                    })
                },
                None => *final(program_state) == *old(program_state),
            },
    {
        match self.start_or_stop {
            MacroRecordingStartStopType::Start(ch) => {
                program_state.macro_recording = Some(MacroRecording::new(ch));
            },
            MacroRecordingStartStopType::Stop => {
                if let Some(mut recording) = program_state.macro_recording.take() {
                    let n = program_state.keystroke_sequence_incomplete.len();
                    let ghost k0 = recording.keystrokes@;
                    let ghost slot0 = recording.slot;
                    let mut i: usize = 0;
                    while i < n
                        invariant
                            0 <= i <= n,
                            recording.slot == slot0,
                            recording.keystrokes@ == k0.take(if k0.len() >= i { k0.len() - i } else { 0 }),
                        decreases n - i,
                    {
                        let ghost before = recording.keystrokes@;
                        recording.keystrokes.pop();
                        proof {
                            if before.len() > 0 {
                                assert(recording.keystrokes@ =~= before.drop_last());
                            }
                            assert(recording.keystrokes@ =~= k0.take(if k0.len() >= i + 1 { k0.len() - (i + 1) } else { 0 }));
                        }
                        i += 1;
                    }
                    let slot = recording.slot;
                    program_state.macros.insert(slot, Macro { keystrokes: recording.keystrokes });
                    proof {
                        assert(program_state.macros.view_map().dom() =~= old(program_state).macros.view_map().dom().insert(slot));
                    }
                }
            },
        }
    }
}

/// Types the keystrokes of the macro in a slot again.
#[derive(Debug, Clone, Copy)]
pub struct MacroExecute {
    pub slot: char,
}

impl MacroExecute {
    /// Clears the pending keystrokes and hands back the keystrokes of the macro, for the caller
    /// to handle one after the other as if typed; `None`, with nothing changed, where the slot
    /// holds no macro.
    pub fn execute(&self, program_state: &mut ProgramState) -> (r: Option<Vec<Keystroke>>)
        requires
            old(program_state).wf(),
        ensures
            final(program_state).wf(),
            match r {
                Some(ks) => old(program_state).macros.view_map().contains_key(self.slot)
                    && ks@ == old(program_state).macros.view_map()[self.slot].keystrokes@
                    && final(program_state).keystroke_sequence_incomplete@.len() == 0
                    && *final(program_state) == (ProgramState {
                    keystroke_sequence_incomplete: final(program_state).keystroke_sequence_incomplete,
                    ..*old(program_state)
                }),
                None => !old(program_state).macros.view_map().contains_key(self.slot)
                    && *final(program_state) == *old(program_state),
            },
    {
        let keystrokes = match program_state.macros.get(self.slot) {
            Some(m) => {
                let mut ks: Vec<Keystroke> = Vec::new();
                let mut i: usize = 0;
                while i < m.keystrokes.len()
                    invariant
                        0 <= i <= m.keystrokes@.len(),
                        ks@ == m.keystrokes@.take(i as int),
                    decreases m.keystrokes@.len() - i,
                {
                    ks.push(m.keystrokes[i]);
                    proof {
                        assert(ks@ =~= m.keystrokes@.take(i as int + 1));
                    }
                    i += 1;
                }
                proof {
                    assert(m.keystrokes@.take(m.keystrokes@.len() as int) =~= m.keystrokes@);
                }
                Some(ks)
            },
            None => None,
        };
        if keystrokes.is_some() {
            program_state.keystroke_sequence_incomplete = Vec::new();
        }
        keystrokes
    }
}

/// The canvas indices under the previous and the current mouse positions, given as terminal
/// `(row, column)` under the shift `translation` (`(y - row, x - column)`), and the pan between
/// them.
pub open spec fn mouse_drag(translation: (i16, i16), previous: (u16, u16), row: u16, column: u16) -> (
    (int, int),
    (int, int),
) {
    let from = (wrap_i16(previous.0) - translation.0, wrap_i16(previous.1) - translation.1);
    let to = (wrap_i16(row) - translation.0, wrap_i16(column) - translation.1);
    (from, to)
}

/// The computations of a mouse drag stay in range.
pub open spec fn mouse_drag_fits(
    s: ProgramState,
    translation: (i16, i16),
    previous: (u16, u16),
    row: u16,
    column: u16,
) -> bool {
    let (from, to) = mouse_drag(translation, previous, row, column);
    &&& fits_i16(from.0) && fits_i16(from.1) && fits_i16(to.0) && fits_i16(to.1)
    &&& fits_i16(from.0 - to.0) && fits_i16(from.1 - to.1)
    &&& fits_i16(s.focus_position.0 + (from.0 - to.0))
    &&& fits_i16(s.focus_position.1 + (from.1 - to.1))
}

/// Pans the view by a mouse drag from the previous mouse position, if there is one, to
/// `(row, column)`: the focus moves by the drag the other way, so that the canvas follows the
/// pointer.
pub fn mouse_move_focus(
    program_state: &mut ProgramState,
    translation: (i16, i16),
    previous: Option<(u16, u16)>,
    row: u16,
    column: u16,
)
    requires
        previous matches Some(p) ==> mouse_drag_fits(*old(program_state), translation, p, row, column),
    ensures
        match previous {
            Some(p) => {
                let (from, to) = mouse_drag(translation, p, row, column);
                *final(program_state) == (ProgramState {
                    focus_position: (
                        (old(program_state).focus_position.0 + (from.0 - to.0)) as i16,
                        (old(program_state).focus_position.1 + (from.1 - to.1)) as i16,
                    ),
                    ..*old(program_state)
                })
            },
            None => *final(program_state) == *old(program_state),
        },
{
    match previous {
        Some(p) => {
            proof {
                crate::rect::lemma_u16_as_i16(p.0);
                crate::rect::lemma_u16_as_i16(p.1);
                crate::rect::lemma_u16_as_i16(row);
                crate::rect::lemma_u16_as_i16(column);
            }
            let from = (p.0 as i16 - translation.0, p.1 as i16 - translation.1);
            let to = (row as i16 - translation.0, column as i16 - translation.1);
            let rows = from.0 - to.0;
            let columns = from.1 - to.1;
            program_state.focus_position.1 = program_state.focus_position.1 + columns;
            program_state.focus_position.0 = program_state.focus_position.0 + rows;
        },
        None => {},
    }
}

} // verus!
