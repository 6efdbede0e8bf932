use upaint::canvas::Canvas;
use upaint::history::VersionControlledCanvas;
use upaint::operations::{CanvasDiff, CanvasDiffBuilder, CanvasDiffUnit, CanvasModification};
use upaint::style::{Color, Modifier};

fn history(ansi: &str) -> VersionControlledCanvas {
    VersionControlledCanvas::from_ansi(ansi.to_string()).unwrap()
}

#[test]
fn commit_then_undo_restores() {
    let mut v = history("ab");
    v.create_commit(vec![CanvasModification::SetCharacter((0, 0), 'x')]);
    assert_eq!(v.raw().character((0, 0)), 'x');
    assert_eq!(v.get_current_revision(), 1);
    v.undo();
    assert_eq!(v.raw().character((0, 0)), 'a');
    assert_eq!(v.raw().character((0, 1)), 'b');
    assert_eq!(v.get_current_revision(), 0);
}

#[test]
fn redo_after_undo_reapplies() {
    let mut v = history("ab");
    v.create_commit(vec![CanvasModification::SetFgColor((0, 1), Color::Indexed(3))]);
    v.undo();
    assert_eq!(v.raw().fg((0, 1)), Color::Reset);
    v.redo();
    assert_eq!(v.raw().fg((0, 1)), Color::Indexed(3));
    assert_eq!(v.get_current_revision(), 1);
}

#[test]
fn undo_without_commits_changes_nothing() {
    let mut v = history("ab");
    v.undo();
    assert_eq!(v.raw().character((0, 0)), 'a');
    assert_eq!(v.get_current_revision(), 0);
}

#[test]
fn new_commit_drops_undone_ones() {
    let mut v = history("a");
    v.create_commit(vec![CanvasModification::SetCharacter((0, 0), 'b')]);
    v.undo();
    v.create_commit(vec![CanvasModification::SetCharacter((0, 0), 'c')]);
    v.redo();
    assert_eq!(v.raw().character((0, 0)), 'c');
    assert_eq!(v.get_current_revision(), 2);
}

#[test]
fn later_modification_of_an_aspect_wins() {
    let mut v = history("a");
    v.create_commit(vec![
        CanvasModification::SetCharacter((0, 0), 'x'),
        CanvasModification::SetCharacter((0, 0), 'y'),
    ]);
    assert_eq!(v.raw().character((0, 0)), 'y');
    v.undo();
    assert_eq!(v.raw().character((0, 0)), 'a');
}

#[test]
fn staging_twice_then_clearing_restores() {
    let mut v = history("c");
    v.stage(CanvasModification::SetCharacter((0, 0), 'a'));
    v.stage(CanvasModification::SetCharacter((0, 0), 'b'));
    assert_eq!(v.raw().character((0, 0)), 'b');
    v.clear_staged();
    assert_eq!(v.raw().character((0, 0)), 'c');
    assert_eq!(v.get_current_revision(), 0);
}

#[test]
fn add_modifier_keeps_existing_ones() {
    let mut v = history("\u{1b}[1ma");
    v.create_commit(vec![CanvasModification::AddModifier((0, 0), Modifier::italic())]);
    assert_eq!(v.raw().modifiers((0, 0)), Modifier::bold().union(Modifier::italic()));
    v.create_commit(vec![CanvasModification::RemoveModifier((0, 0), Modifier::bold())]);
    assert_eq!(v.raw().modifiers((0, 0)), Modifier::italic());
}

#[test]
fn stage_then_clear_restores() {
    let mut v = history("ab");
    v.stage(CanvasModification::SetBgColor((0, 0), Color::Blue));
    assert_eq!(v.raw().bg((0, 0)), Color::Blue);
    v.clear_staged();
    assert_eq!(v.raw().bg((0, 0)), Color::Reset);
    assert_eq!(v.get_current_revision(), 0);
}

#[test]
fn staged_changes_are_committed_first() {
    let mut v = history("ab");
    v.stage(CanvasModification::SetCharacter((0, 0), 'x'));
    v.create_commit(vec![CanvasModification::SetCharacter((0, 1), 'y')]);
    assert_eq!(v.get_current_revision(), 2);
    v.undo();
    assert_eq!(v.raw().character((0, 1)), 'b');
    assert_eq!(v.raw().character((0, 0)), 'x');
    v.undo();
    assert_eq!(v.raw().character((0, 0)), 'a');
}

#[test]
fn delete_history_keeps_the_canvas() {
    let mut v = history("ab");
    v.create_commit(vec![CanvasModification::SetCharacter((0, 0), 'x')]);
    v.delete_history();
    assert_eq!(v.get_current_revision(), 0);
    v.undo();
    assert_eq!(v.raw().character((0, 0)), 'x');
}

#[test]
fn apply_diff_reverses_it() {
    let mut canvas = Canvas::from_ansi("ab".to_string()).unwrap();
    let mut builder = CanvasDiffBuilder::default();
    builder.add_diff_unit((0, 1), CanvasDiffUnit::ch('z'));
    let mut diff = builder.serialize();
    canvas.apply_diff(&mut diff);
    assert_eq!(canvas.character((0, 1)), 'z');
    assert_eq!(diff.0[0].1.ch, Some('b'));
    canvas.apply_diff(&mut diff);
    assert_eq!(canvas.character((0, 1)), 'b');
}

#[test]
fn paste_modification_shifts_the_yank() {
    let canvas = Canvas::from_ansi("ab\ncd".to_string()).unwrap();
    let yank = canvas.yank(&vec![(0, 0), (1, 1)], upaint::style::CellContentType::all(), (0, 0));
    let mut v = history("");
    v.create_commit(vec![CanvasModification::Paste((5, 5), yank)]);
    assert_eq!(v.raw().character((5, 5)), 'a');
    assert_eq!(v.raw().character((6, 6)), 'd');
    assert_eq!(v.raw().character((5, 6)), ' ');
}

#[test]
fn revisions_are_never_reused() {
    let mut v = history("a");
    v.create_commit(vec![CanvasModification::SetCharacter((0, 0), 'x')]);
    assert_eq!(v.get_current_revision(), 1);
    v.undo();
    assert_eq!(v.get_current_revision(), 0);
    v.create_commit(vec![CanvasModification::SetCharacter((0, 0), 'y')]);
    assert_eq!(v.get_current_revision(), 2);
    assert_eq!(v.raw().character((0, 0)), 'y');
    // Nothing is left to redo after a commit.
    v.redo();
    assert_eq!(v.get_current_revision(), 2);
    assert_eq!(v.raw().character((0, 0)), 'y');
}

#[test]
fn applying_a_diff_twice_restores_the_canvas() {

    let mut c = Canvas::from_ansi("ab".to_string()).unwrap();
    let mut d = CanvasDiff::from_diff_units(vec![
        ((0, 0), CanvasDiffUnit::ch('x')),
        ((0, 1), CanvasDiffUnit::fg(Color::Red)),
    ]);
    c.apply_diff(&mut d);
    assert_eq!(c.character((0, 0)), 'x');
    assert_eq!(c.fg((0, 1)), Color::Red);
    c.apply_diff(&mut d);
    assert_eq!(c.character((0, 0)), 'a');
    assert_eq!(c.fg((0, 1)), Color::Reset);
    assert_eq!(d.0.len(), 2);
    assert_eq!((d.0[0].0, d.0[0].1.ch, d.0[0].1.fg), ((0, 0), Some('x'), None));
    assert_eq!((d.0[1].0, d.0[1].1.ch, d.0[1].1.fg), ((0, 1), None, Some(Color::Red)));
}
