use upaint::ansi_import::{AnsiImportError, TxtImportError};
use upaint::history::VersionControlledCanvas;
use upaint::canvas::{Canvas, CanvasCell};
use upaint::style::{Color, Modifier};

fn cell(character: char, fg: Color, bg: Color, modifiers: Modifier) -> CanvasCell {
    CanvasCell { character, fg, bg, modifiers }
}

fn plain(character: char) -> CanvasCell {
    cell(character, Color::Reset, Color::Reset, Modifier::empty())
}

#[test]
fn import_basic() {
    let canvas = Canvas::from_ansi("ab\nc".to_string()).unwrap();
    assert_eq!(canvas.cells.len(), 3);
    assert_eq!(canvas.cells[0], ((0, 0), plain('a')));
    assert_eq!(canvas.cells[1], ((0, 1), plain('b')));
    assert_eq!(canvas.cells[2], ((1, 0), plain('c')));
}

#[test]
fn import_indents() {
    let canvas = Canvas::from_ansi("    a\n  b".to_string()).unwrap();
    assert_eq!(canvas.cells.len(), 2);
    assert_eq!(canvas.cells[0], ((0, 4), plain('a')));
    assert_eq!(canvas.cells[1], ((1, 2), plain('b')));
}

#[test]
fn import_fg() {
    let canvas = Canvas::from_ansi("\u{1b}[31ma".to_string()).unwrap();
    assert_eq!(canvas.cells.len(), 1);
    assert_eq!(canvas.cells[0], ((0, 0), cell('a', Color::Red, Color::Reset, Modifier::empty())));
}

#[test]
fn import_bg() {
    let canvas = Canvas::from_ansi("\u{1b}[41ma".to_string()).unwrap();
    assert_eq!(canvas.cells.len(), 1);
    assert_eq!(canvas.cells[0], ((0, 0), cell('a', Color::Reset, Color::Red, Modifier::empty())));
}

#[test]
fn import_modifiers() {
    let canvas = Canvas::from_ansi("\u{1b}[1m\u{1b}[3m\u{1b}[4ma".to_string()).unwrap();
    assert_eq!(canvas.cells.len(), 1);
    let m = Modifier::bold().union(Modifier::italic()).union(Modifier::underlined());
    assert_eq!(canvas.cells[0], ((0, 0), cell('a', Color::Reset, Color::Reset, m)));
}

#[test]
fn reset() {
    let ansi = "\u{1b}[31m\u{1b}[41m\u{1b}[1m\u{1b}[3m\u{1b}[4ma\u{1b}[0mb".to_string();
    let canvas = Canvas::from_ansi(ansi).unwrap();
    assert_eq!(canvas.cells.len(), 2);
    let m = Modifier::bold().union(Modifier::italic()).union(Modifier::underlined());
    assert_eq!(canvas.cells[0], ((0, 0), cell('a', Color::Red, Color::Red, m)));
    assert_eq!(canvas.cells[1], ((0, 1), plain('b')));
}

#[test]
fn reset_fg() {
    let ansi = "\u{1b}[31m\u{1b}[41m\u{1b}[1ma\u{1b}[39mb".to_string();
    let canvas = Canvas::from_ansi(ansi).unwrap();
    assert_eq!(canvas.cells.len(), 2);
    assert_eq!(canvas.cells[0], ((0, 0), cell('a', Color::Red, Color::Red, Modifier::bold())));
    assert_eq!(canvas.cells[1], ((0, 1), cell('b', Color::Reset, Color::Red, Modifier::bold())));
}

#[test]
fn reset_bg() {
    let ansi = "\u{1b}[31m\u{1b}[41m\u{1b}[1ma\u{1b}[49mb".to_string();
    let canvas = Canvas::from_ansi(ansi).unwrap();
    assert_eq!(canvas.cells.len(), 2);
    assert_eq!(canvas.cells[0], ((0, 0), cell('a', Color::Red, Color::Red, Modifier::bold())));
    assert_eq!(canvas.cells[1], ((0, 1), cell('b', Color::Red, Color::Reset, Modifier::bold())));
}

#[test]
fn no_underline_color() {
    let result = Canvas::from_ansi("\u{1b}[58;2;1ma".to_string());
    assert!(result.is_err());
}

#[test]
fn import_fg_indexed() {
    let canvas = Canvas::from_ansi("\u{1b}[38;5;123ma".to_string()).unwrap();
    assert_eq!(canvas.cells.len(), 1);
    assert_eq!(canvas.cells[0], ((0, 0), cell('a', Color::Indexed(123), Color::Reset, Modifier::empty())));
}

#[test]
fn import_fg_rgb() {
    let canvas = Canvas::from_ansi("\u{1b}[38;2;1;12;123ma".to_string()).unwrap();
    assert_eq!(canvas.cells.len(), 1);
    assert_eq!(canvas.cells[0], ((0, 0), cell('a', Color::Rgb(1, 12, 123), Color::Reset, Modifier::empty())));
}

#[test]
fn import_bg_indexed() {
    let canvas = Canvas::from_ansi("\u{1b}[48;5;123ma".to_string()).unwrap();
    assert_eq!(canvas.cells.len(), 1);
    assert_eq!(canvas.cells[0], ((0, 0), cell('a', Color::Reset, Color::Indexed(123), Modifier::empty())));
}

#[test]
fn import_bg_rgb() {
    let canvas = Canvas::from_ansi("\u{1b}[48;2;1;12;123ma".to_string()).unwrap();
    assert_eq!(canvas.cells.len(), 1);
    assert_eq!(canvas.cells[0], ((0, 0), cell('a', Color::Reset, Color::Rgb(1, 12, 123), Modifier::empty())));
}

#[test]
fn txt() {
    let canvas = Canvas::from_txt("a   b\n  c\n".to_string()).unwrap();
    assert_eq!(canvas.cells.len(), 3);
    assert_eq!(canvas.cells[0], ((0, 0), CanvasCell::from_char('a')));
    assert_eq!(canvas.cells[1], ((0, 4), CanvasCell::from_char('b')));
    assert_eq!(canvas.cells[2], ((1, 2), CanvasCell::from_char('c')));
}

#[test]
fn txt_with_sgr() {
    let result = Canvas::from_txt("a   \u{1b}[38;5;20mb\n  c\n".to_string());
    assert_eq!(result.unwrap_err(), TxtImportError::IllegalCharacter((0, 4)));
}

#[test]
fn empty_sgr_sequence() {
    let canvas = Canvas::from_ansi("\u{1b}[31ma\u{1b}[mb".to_string()).unwrap();
    assert_eq!(canvas.cells.len(), 2);
    assert_eq!(canvas.cells[0], ((0, 0), cell('a', Color::Red, Color::Reset, Modifier::empty())));
    assert_eq!(canvas.cells[1], ((0, 1), plain('b')));
}

#[test]
fn multiple_attributes() {
    let ansi = "\u{1b}[31;1;42ma\u{1b}[0;38;5;93mb\u{1b}[;42mc".to_string();
    let canvas = Canvas::from_ansi(ansi).unwrap();
    assert_eq!(canvas.cells.len(), 3);
    assert_eq!(canvas.cells[0], ((0, 0), cell('a', Color::Red, Color::Green, Modifier::bold())));
    assert_eq!(canvas.cells[1], ((0, 1), cell('b', Color::Indexed(93), Color::Reset, Modifier::empty())));
    assert_eq!(canvas.cells[2], ((0, 2), cell('c', Color::Reset, Color::Green, Modifier::empty())));
}

#[test]
fn try_import_tells_an_overflow_apart() {
    // An SGR number beyond a u64 is out of range.
    assert!(Canvas::try_from_ansi_or_txt("\u{1b}[99999999999999999999999ma".to_string(), true).is_none());
    // An attribute that is refused before the large number is read is an error.
    match Canvas::try_from_ansi_or_txt("\u{1b}[99;99999999999999999999999ma".to_string(), true) {
        Some(Err(AnsiImportError::BadSgrAttribute { attribute, .. })) => assert_eq!(attribute, 99),
        _ => panic!("expected a bad attribute"),
    }
    // A 256-color parameter with a large index overflows where it is read.
    assert!(Canvas::try_from_ansi_or_txt("\u{1b}[38;5;99999999999999999999999ma".to_string(), true).is_none());
    let v = VersionControlledCanvas::try_from_ansi("\u{1b}[31mab".to_string()).unwrap().unwrap();
    assert_eq!(v.raw().fg((0, 1)), Color::Red);
}
