use upaint::actions::{
    cursor_down, cursor_left, cursor_right, cursor_up, BrushApply, ChangeFocus, ChangeFocusType, HighlightSelection,
    mouse_move_focus, MarkSet, ModeColorPicker, ModeInsert, MoveCursor, Pan, Paste, Pipette, PipetteTake, Quit, Redo, SetSelectionActive,
    Undo,
};
use upaint::color_target::ColorPickerTargetMotion;
use upaint::command_line::{complete_write, execute_command};
use upaint::history::VersionControlledCanvas;
use upaint::operators::{Colorize, Cut, MatchingCells, Replace, Stay, UpdateSelection, UpdateSelectionOperator, Yank};
use upaint::rect::CanvasRect;
use upaint::slots::SlotMap;
use upaint::state::{Brush, ColorOrSlot, ColorOrSlotSpecification, InputMode, ProgramState, SlotSpecification};
use upaint::style::{CellContentType, Color, Direction, Ground};
use upaint::transform::CharacterSwapMap;

fn state(ansi: &str) -> ProgramState {
    ProgramState {
        cursor_position: (0, 0),
        focus_position: (0, 0),
        canvas_visible: CanvasRect { row: 0, column: 0, rows: 10, columns: 10 },
        canvas: VersionControlledCanvas::from_ansi(ansi.to_string()).unwrap(),
        brush: Brush { character: None, fg: None, bg: None, modifiers: None },
        input_mode: InputMode::Normal,
        color_slots: SlotMap::new(),
        color_or_slot_active: ColorOrSlot::Slot('a'),
        marks: SlotMap::new(),
        yanks: SlotMap::new(),
        yank_active: 'a',
        selections: SlotMap::new(),
        selection_active: 'a',
        selection_highlight: None,
        character_mirrors_x: CharacterSwapMap(SlotMap::new()),
        character_mirrors_y: CharacterSwapMap(SlotMap::new()),
        command_line: String::new(),
        user_feedback: None,
        open_file: None,
        last_saved_revision: 0,
        exit: false,
        macro_recording: None,
        macros: SlotMap::new(),
        keystroke_sequence_incomplete: Vec::new(),
        find_char_last: None,
    }
}

#[test]
fn cursor_moves_and_view_follows() {
    let mut s = state("");
    cursor_right(&mut s, 12);
    assert_eq!(s.cursor_position, (0, 12));
    assert_eq!(s.canvas_visible.column, 3);
    assert_eq!(s.focus_position, (0, 3));
    cursor_left(&mut s, 2);
    assert_eq!(s.cursor_position, (0, 10));
    assert_eq!(s.canvas_visible.column, 3);
    cursor_up(&mut s, 1);
    assert_eq!(s.cursor_position, (-1, 10));
    assert_eq!(s.canvas_visible.row, -1);
    cursor_down(&mut s, 11);
    assert_eq!(s.cursor_position, (10, 10));
    assert_eq!(s.canvas_visible.row, 1);
}

#[test]
fn move_cursor_and_pan() {
    let mut s = state("");
    MoveCursor::down(3).execute(&mut s);
    assert_eq!(s.cursor_position, (3, 0));
    Pan::left(4).execute(&mut s);
    assert_eq!(s.focus_position, (0, -4));
    assert_eq!(s.cursor_position, (3, 0));
}

#[test]
fn change_focus_center_and_start() {
    let mut s = state("");
    s.cursor_position = (4, 6);
    ChangeFocus { type_horizontal: Some(ChangeFocusType::Center), type_vertical: Some(ChangeFocusType::Start(1)) }
        .execute(&mut s);
    assert_eq!(s.focus_position, (3, 6));
}

#[test]
fn modes() {
    let mut s = state("");
    ModeInsert::left().execute(&mut s);
    assert!(matches!(s.input_mode, InputMode::Insert(Direction::Left)));
    s.brush.fg = Some(Color::Blue);
    let (title, initial) = ModeColorPicker::fg().execute(&mut s);
    assert_eq!(title, "FG Color");
    assert_eq!(initial, Some(Color::Blue));
    assert!(matches!(s.input_mode, InputMode::ColorPicker(Ground::Foreground)));
}

#[test]
fn selection_flags() {
    let mut s = state("");
    SetSelectionActive { slot: 'b', highlight: false }.execute(&mut s);
    assert_eq!(s.selection_active, 'b');
    assert_eq!(s.selection_highlight, None);
    HighlightSelection { slot: 'c' }.execute(&mut s);
    assert_eq!(s.selection_highlight, Some('c'));
}

#[test]
fn marks_and_pipette() {
    let mut s = state("\u{1b}[38;5;7mx");
    MarkSet { slot: 'm' }.execute(&mut s);
    assert_eq!(s.marks.get('m'), Some(&(0, 0)));
    Pipette { ground: Ground::Foreground, slot: ColorOrSlotSpecification::Specific(ColorOrSlot::Slot('k')) }
        .execute(&mut s);
    assert_eq!(s.color_slots.get('k'), Some(&Color::Indexed(7)));
    PipetteTake::All.execute(&mut s);
    assert_eq!(s.brush.character, Some('x'));
    assert_eq!(s.brush.fg, Some(Color::Indexed(7)));
    assert_eq!(s.brush.bg, Some(Color::Reset));
}

#[test]
fn brush_paints_in_one_commit() {
    let mut s = state("ab");
    s.brush = Brush { character: Some('z'), fg: Some(Color::Red), bg: None, modifiers: None };
    s.cursor_position = (0, 1);
    BrushApply::All.execute(&mut s);
    assert_eq!(s.canvas.raw().character((0, 1)), 'z');
    assert_eq!(s.canvas.raw().fg((0, 1)), Color::Red);
    assert_eq!(s.canvas.get_current_revision(), 1);
    Undo {}.execute(&mut s);
    assert_eq!(s.canvas.raw().character((0, 1)), 'b');
    Redo {}.execute(&mut s);
    assert_eq!(s.canvas.raw().character((0, 1)), 'z');
}

#[test]
fn operators_on_cells() {
    let mut s = state("abc");
    let cells = vec![(0, 0), (0, 2)];
    Replace { ch: 'q' }.operate(&cells, &mut s);
    assert_eq!(s.canvas.raw().character((0, 0)), 'q');
    assert_eq!(s.canvas.raw().character((0, 1)), 'b');
    assert_eq!(s.canvas.raw().character((0, 2)), 'q');
    Colorize { ground: Ground::Background, color: ColorOrSlotSpecification::Specific(ColorOrSlot::Color(Color::Green)) }
        .operate(&cells, &mut s);
    assert_eq!(s.canvas.raw().bg((0, 2)), Color::Green);
    UpdateSelection { operator: UpdateSelectionOperator::Add, slot: SlotSpecification::Specific('s'), highlight: true }
        .operate(&cells, &mut s);
    assert_eq!(s.selection_highlight, Some('s'));
    assert_eq!(s.selections.get('s').unwrap().to_vec(), vec![(0, 0), (0, 2)]);
    UpdateSelection { operator: UpdateSelectionOperator::Subtract, slot: SlotSpecification::Specific('s'), highlight: false }
        .operate(&vec![(0, 0)], &mut s);
    assert_eq!(s.selections.get('s').unwrap().to_vec(), vec![(0, 2)]);
}

#[test]
fn colorize_with_empty_slot_does_nothing() {
    let mut s = state("abc");
    Colorize { ground: Ground::Foreground, color: ColorOrSlotSpecification::Specific(ColorOrSlot::Slot('x')) }
        .operate(&vec![(0, 0)], &mut s);
    assert_eq!(s.canvas.get_current_revision(), 0);
}

#[test]
fn yank_cut_and_paste() {
    let mut s = state("ab");
    let cells = vec![(0, 0), (0, 1)];
    Cut { content_type: CellContentType::all(), slot: SlotSpecification::Active }.operate(&cells, &mut s);
    assert_eq!(s.canvas.raw().character((0, 0)), ' ');
    assert!(s.yanks.get('a').is_some());
    s.cursor_position = (2, 3);
    Paste { slot: SlotSpecification::Active }.execute(&mut s);
    assert_eq!(s.canvas.raw().character((2, 3)), 'a');
    assert_eq!(s.canvas.raw().character((2, 4)), 'b');
    Yank { content_type: CellContentType::all(), slot: SlotSpecification::Specific('y') }.operate(&vec![(2, 4)], &mut s);
    assert_eq!(s.yanks.get('y').unwrap().cells.len(), 1);
}

#[test]
fn motions() {
    let mut s = state("aba");
    s.cursor_position = (0, 2);
    assert_eq!(Stay {}.cells(&s), vec![(0, 2)]);
    let m = MatchingCells { content_type: CellContentType { text: true, fg: false, bg: false, modifiers: false } };
    assert_eq!(m.cells(&s), vec![(0, 0), (0, 2)]);
}

#[test]
fn quit_needs_a_save() {
    let mut s = state("a");
    assert!(Quit {}.try_execute(&mut s).is_ok());
    assert!(s.exit);
    let mut s = state("a");
    s.canvas.create_commit(vec![upaint::operations::CanvasModification::SetCharacter((0, 0), 'b')]);
    assert!(Quit {}.try_execute(&mut s).is_err());
    assert!(!s.exit);
}

#[test]
fn commands() {
    let mut s = state("a");
    assert!(execute_command(&mut s, "  nope  ").is_none());
    assert_eq!(s.user_feedback.as_deref(), Some("Command not found: nope"));
    assert!(execute_command(&mut s, "w").is_none());
    assert_eq!(s.user_feedback.as_deref(), Some("No file open. Use \"save as\" instead (:w <filename>)"));
    let pending = execute_command(&mut s, "w art.ans").unwrap();
    assert_eq!(pending.file_name, "art.ans");
    assert!(!pending.quit);
    complete_write(&mut s, &pending, Ok(()));
    assert!(matches!(s.input_mode, InputMode::Normal));
    s.open_file = Some("x.ans".to_string());
    let pending = execute_command(&mut s, "wq").unwrap();
    assert!(pending.quit);
    complete_write(&mut s, &pending, Err("Could not save file: denied".to_string()));
    assert!(!s.exit);
    assert_eq!(s.user_feedback.as_deref(), Some("Could not save file: denied"));
    assert!(execute_command(&mut s, "q!").is_none());
    assert!(s.exit);
    let mut s = state("a");
    assert!(execute_command(&mut s, "").is_none());
    assert!(!s.exit);
    assert!(execute_command(&mut s, "q").is_none());
    assert!(s.exit);
}

use upaint::actions::{MacroExecute, MacroRecordingStartStop, MacroRecordingStartStopType};
use upaint::iter::{CanvasIterationJump, StopCondition, StopConditionContent};
use upaint::keystroke::{KeyCode, KeyModifiers, Keystroke};
use upaint::motions::{FindChar, FindCharRepeat, FixedNumberOfCells, GoToMark};
use upaint::style::DirectionFree;

fn typed(c: char) -> Keystroke {
    Keystroke { code: KeyCode::Char(c), modifiers: KeyModifiers::none() }
}

#[test]
fn macro_recording_drops_the_stopping_keystrokes() {
    let mut s = state("");
    MacroRecordingStartStop { start_or_stop: MacroRecordingStartStopType::Start('m') }.execute(&mut s);
    assert_eq!(s.macro_recording.as_ref().unwrap().slot, 'm');
    s.macro_recording.as_mut().unwrap().keystrokes.extend([typed('l'), typed('l'), typed('q')]);
    s.keystroke_sequence_incomplete = vec![typed('q')];
    MacroRecordingStartStop { start_or_stop: MacroRecordingStartStopType::Stop }.execute(&mut s);
    assert!(s.macro_recording.is_none());
    assert_eq!(s.macros.get('m').unwrap().keystrokes, vec![typed('l'), typed('l')]);
    // Stopping without a recording changes nothing.
    MacroRecordingStartStop { start_or_stop: MacroRecordingStartStopType::Stop }.execute(&mut s);
    assert_eq!(s.macros.get('m').unwrap().keystrokes.len(), 2);
}

#[test]
fn macro_execute_hands_back_the_keystrokes() {
    let mut s = state("");
    assert_eq!(MacroExecute { slot: 'm' }.execute(&mut s), None);
    s.macros.insert('m', upaint::state::Macro { keystrokes: vec![typed('x')] });
    s.keystroke_sequence_incomplete = vec![typed('@')];
    assert_eq!(MacroExecute { slot: 'm' }.execute(&mut s), Some(vec![typed('x')]));
    assert!(s.keystroke_sequence_incomplete.is_empty());
}

#[test]
fn motions_set_up_their_searches() {
    let mut s = state("");
    s.cursor_position = (2, 3);
    let right = DirectionFree { rows: 0, columns: 1 };
    let m = FixedNumberOfCells { direction: right, number_of_cells: 4, jump: CanvasIterationJump::DirectionAsStride }
        .search(&s);
    assert_eq!(m.start, (2, 3));
    assert_eq!(m.iterator.stop_count, 4);
    assert!(matches!(m.iterator.stop, StopCondition::Always));
    assert!(FindCharRepeat { direction_reversed: true }.search(&s).is_none());
    s.find_char_last = Some(FindChar { direction: right, ch: 'k' });
    let r = FindCharRepeat { direction_reversed: true }.search(&s).unwrap();
    assert_eq!(r.iterator.direction, DirectionFree { rows: 0, columns: -1 });
    assert!(matches!(r.iterator.stop, StopCondition::Content(StopConditionContent::CharacterMatch('k'))));
    assert!(GoToMark { jump: CanvasIterationJump::Diagonals, slot: 'a' }.search(&s).is_none());
    s.marks.insert('a', (5, 1));
    let g = GoToMark { jump: CanvasIterationJump::Diagonals, slot: 'a' }.search(&s).unwrap();
    assert_eq!(g.iterator.direction, DirectionFree { rows: 3, columns: -2 });
    assert!(matches!(g.iterator.stop, StopCondition::Index((5, 1))));
}

#[test]
fn color_picker_target_previews_on_the_staging_area() {
    let mut s = state("\u{1b}[31mab");
    let target = ColorPickerTargetMotion { ground: Ground::Foreground };
    assert_eq!(target.get_color(&vec![], &s), Color::Reset);
    assert_eq!(target.get_color(&vec![(0, 1), (0, 0)], &s), Color::Red);
    let cells = vec![(0, 0), (0, 3)];
    target.set_color(&cells, Color::Blue, &mut s);
    assert_eq!(s.canvas.raw().fg((0, 0)), Color::Blue);
    assert_eq!(s.canvas.raw().fg((0, 1)), Color::Red);
    assert_eq!(s.canvas.raw().fg((0, 3)), Color::Blue);
    assert_eq!(s.canvas.raw().area.columns, 4);
    assert_eq!(s.canvas.get_current_revision(), 0);
    // Picking again first sets back the earlier preview.
    target.set_color(&vec![(0, 1)], Color::Green, &mut s);
    assert_eq!(s.canvas.raw().fg((0, 0)), Color::Red);
    assert_eq!(s.canvas.raw().fg((0, 1)), Color::Green);
    assert_eq!(s.canvas.raw().fg((0, 3)), Color::Reset);
    s.canvas.clear_staged();
    assert_eq!(s.canvas.raw().fg((0, 1)), Color::Red);
}

#[test]
fn clearing_a_color_preview_restores_the_canvas() {
    let mut s = state("\u{1b}[42mab\ncd");
    let before: Vec<_> = [(0, 0), (0, 1), (1, 0), (1, 1)].iter().map(|&i| s.canvas.raw().get(i)).collect();
    let target = ColorPickerTargetMotion { ground: Ground::Background };
    target.set_color(&vec![(1, 1), (0, 0), (1, 1), (1, 0)], Color::Yellow, &mut s);
    assert_eq!(s.canvas.raw().bg((1, 1)), Color::Yellow);
    s.canvas.clear_staged();
    let after: Vec<_> = [(0, 0), (0, 1), (1, 0), (1, 1)].iter().map(|&i| s.canvas.raw().get(i)).collect();
    assert_eq!(before, after);
}

#[test]
fn mouse_drag_pans_the_view() {
    let mut s = state("");
    mouse_move_focus(&mut s, (5, 14), Some((3, 10)), 4, 12);
    assert_eq!(s.focus_position, (-1, -2));
    assert_eq!(s.cursor_position, (0, 0));
    mouse_move_focus(&mut s, (5, 14), None, 9, 9);
    assert_eq!(s.focus_position, (-1, -2));
}
