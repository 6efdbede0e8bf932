use vstd::prelude::*;

use crate::history::VersionControlledCanvas;
use crate::keystroke::Keystroke;
use crate::motions::FindChar;
use crate::index_map::{entries_map, sorted_keys};
use crate::rect::{CanvasIndex, CanvasRect};
use crate::slots::SlotMap;
use crate::style::{Color, Direction, Ground, Modifier};
use crate::transform::CharacterSwapMap;
use crate::yank::CanvasYank;

verus! {

/// What keystrokes currently do.
#[derive(Debug)]
pub enum InputMode {
    Normal,
    Insert(Direction),
    Command,
    ColorPicker(Ground),
    VisualRect(CanvasIndex, CanvasIndex),
    ChooseInsertDirection,
    Replace,
    ChangeBrush,
    ChooseBrushCharacter,
    Pipette,
}

/// What painting writes: each aspect that is `Some`.
#[derive(Debug, Clone, Copy)]
pub struct Brush {
    pub character: Option<char>,
    pub fg: Option<Color>,
    pub bg: Option<Color>,
    pub modifiers: Option<Modifier>,
}

/// A color given directly, or the name of the color slot that holds it.
#[derive(Debug, Clone, Copy, PartialEq, Eq, Structural)]
pub enum ColorOrSlot {
    Color(Color),
    Slot(char),
}

/// A color or slot given directly, or the active one.
#[derive(Debug, Clone, Copy, PartialEq, Eq, Structural)]
pub enum ColorOrSlotSpecification {
    Active,
    Specific(ColorOrSlot),
}

/// A slot name given directly, or the active slot.
#[derive(Debug, Clone, Copy, PartialEq, Eq, Structural)]
pub enum SlotSpecification {
    Active,
    Specific(char),
}

/// A set of canvas indices, in row-major order.
#[derive(Debug)]
pub struct Selection {
    pub indices: Vec<(CanvasIndex, ())>,
}

impl Selection {
    pub open spec fn wf(&self) -> bool {
        sorted_keys(self.indices@)
    }

    /// The indices in the selection.
    pub open spec fn index_set(&self) -> Set<CanvasIndex> {
        entries_map(self.indices@).dom()
    }
}

/// The editor's state, as far as the editing actions read and change it.
#[derive(Debug)]
pub struct ProgramState {
    pub cursor_position: CanvasIndex,
    pub focus_position: CanvasIndex,
    pub canvas_visible: CanvasRect,
    pub canvas: VersionControlledCanvas,
    pub brush: Brush,
    pub input_mode: InputMode,
    pub color_slots: SlotMap<Color>,
    pub color_or_slot_active: ColorOrSlot,
    pub marks: SlotMap<CanvasIndex>,
    pub yanks: SlotMap<CanvasYank>,
    pub yank_active: char,
    pub selections: SlotMap<Selection>,
    pub selection_active: char,
    pub selection_highlight: Option<char>,
    pub character_mirrors_x: CharacterSwapMap,
    pub character_mirrors_y: CharacterSwapMap,
    pub command_line: String,
    pub user_feedback: Option<String>,
    pub open_file: Option<String>,
    pub last_saved_revision: u64,
    pub exit: bool,
    /// The macro being recorded, if one is.
    pub macro_recording: Option<MacroRecording>,
    /// The recorded macros, by slot.
    pub macros: SlotMap<Macro>,
    /// The keystrokes typed since the last complete command.
    pub keystroke_sequence_incomplete: Vec<Keystroke>,
    /// The last character search, to repeat.
    pub find_char_last: Option<FindChar>,
}

/// A macro being recorded into a slot: the keystrokes typed so far.
#[derive(Debug)]
pub struct MacroRecording {
    pub slot: char,
    pub keystrokes: Vec<Keystroke>,
}

impl MacroRecording {
    pub fn new(slot: char) -> (r: Self)
        ensures
            r.slot == slot,
            r.keystrokes@.len() == 0,
    {
        MacroRecording { slot, keystrokes: Vec::new() }
    }
}

/// A recorded macro: keystrokes to type again.
#[derive(Debug)]
pub struct Macro {
    pub keystrokes: Vec<Keystroke>,
}

impl ProgramState {
    pub open spec fn wf(&self) -> bool {
        &&& self.canvas.wf()
        &&& self.color_slots.wf()
        &&& self.marks.wf()
        &&& self.yanks.wf()
        &&& self.selections.wf()
        &&& self.macros.wf()
        &&& forall|c: char| #[trigger] self.yanks.view_map().contains_key(c) ==> self.yanks.view_map()[c].wf()
        &&& forall|c: char| #[trigger] self.selections.view_map().contains_key(c) ==> self.selections.view_map()[c].wf()
        &&& self.character_mirrors_x.wf()
        &&& self.character_mirrors_y.wf()
    }

    /// What a color-or-slot specification stands for.
    pub open spec fn spec_color_or_slot(&self, spec: ColorOrSlotSpecification) -> ColorOrSlot {
        match spec {
            ColorOrSlotSpecification::Active => self.color_or_slot_active,
            ColorOrSlotSpecification::Specific(c) => c,
        }
    }

    pub open spec fn spec_yank_slot(&self, spec: SlotSpecification) -> char {
        match spec {
            SlotSpecification::Active => self.yank_active,
            SlotSpecification::Specific(c) => c,
        }
    }

    pub open spec fn spec_selection_slot(&self, spec: SlotSpecification) -> char {
        match spec {
            SlotSpecification::Active => self.selection_active,
            SlotSpecification::Specific(c) => c,
        }
    }
}

impl ColorOrSlotSpecification {
    pub fn as_color_or_slot(&self, program_state: &ProgramState) -> (r: ColorOrSlot)
        ensures
            r == program_state.spec_color_or_slot(*self),
    {
        match self {
            ColorOrSlotSpecification::Active => program_state.color_or_slot_active,
            ColorOrSlotSpecification::Specific(c) => *c,
        }
    }
}

impl SlotSpecification {
    /// The yank slot this specification names.
    pub fn as_yank_slot(&self, program_state: &ProgramState) -> (r: char)
        ensures
            r == program_state.spec_yank_slot(*self),
    {
        match self {
            SlotSpecification::Active => program_state.yank_active,
            SlotSpecification::Specific(c) => *c,
        }
    }

    /// The selection slot this specification names.
    pub fn as_selection_slot(&self, program_state: &ProgramState) -> (r: char)
        ensures
            r == program_state.spec_selection_slot(*self),
    {
        match self {
            SlotSpecification::Active => program_state.selection_active,
            SlotSpecification::Specific(c) => *c,
        }
    }
}

} // verus!
