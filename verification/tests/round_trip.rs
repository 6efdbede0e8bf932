use upaint::canvas::{Canvas, CanvasCell};
use upaint::style::{Color, Modifier};
use upaint::transform::mirror_index;

fn cell(character: char, fg: Color, bg: Color, modifiers: Modifier) -> CanvasCell {
    CanvasCell { character, fg, bg, modifiers }
}

#[test]
fn import_of_export_reads_back_moved_cells() {
    let mut canvas = Canvas::new();
    canvas.set_character((2, 5), 'a');
    canvas.set_fg((2, 5), Color::Red);
    canvas.set_bg((2, 5), Color::Rgb(1, 2, 3));
    canvas.set_modifiers((2, 5), Modifier::bold());
    canvas.set_character((3, 4), 'b');
    canvas.set_bg((3, 4), Color::Indexed(7));
    canvas.set_character((3, 6), ' ');
    let area = canvas.area();
    assert_eq!((area.row, area.column), (2, 4));
    let back = Canvas::from_ansi(canvas.to_ansi()).unwrap();
    assert_eq!(
        back.cell((0, 1)),
        cell('a', Color::Indexed(1), Color::Rgb(1, 2, 3), Modifier::bold())
    );
    assert_eq!(back.cell((1, 0)), cell('b', Color::Reset, Color::Indexed(7), Modifier::empty()));
    assert_eq!(back.cell((1, 2)), CanvasCell::default_cell());
    assert_eq!(back.cell((0, 0)), CanvasCell::default_cell());
    assert_eq!(back.cells.len(), 2);
}

#[test]
fn import_of_export_keeps_modifier_changes() {
    let mut canvas = Canvas::new();
    let italic_crossed = Modifier::italic().union(Modifier::crossed_out());
    canvas.set_character((0, 0), 'x');
    canvas.set_modifiers((0, 0), Modifier::bold());
    canvas.set_character((0, 1), 'y');
    canvas.set_modifiers((0, 1), italic_crossed);
    canvas.set_character((0, 2), 'z');
    canvas.set_fg((0, 2), Color::Green);
    let back = Canvas::from_ansi(canvas.to_ansi()).unwrap();
    assert_eq!(back.cell((0, 0)), cell('x', Color::Reset, Color::Reset, Modifier::bold()));
    assert_eq!(back.cell((0, 1)), cell('y', Color::Reset, Color::Reset, italic_crossed));
    assert_eq!(back.cell((0, 2)), cell('z', Color::Indexed(2), Color::Reset, Modifier::empty()));
}

#[test]
fn mirroring_twice_gives_the_index_back() {
    assert_eq!(mirror_index(7, 3), -1);
    assert_eq!(mirror_index(mirror_index(7, 3), 3), 7);
}

use upaint::style::CellContentType;

#[test]
fn paste_of_yank_in_place_changes_nothing() {
    let mut canvas = Canvas::from_ansi("ab\n\u{1b}[31mc\n".to_string()).unwrap();
    let before = canvas.cells.clone();
    let yank = canvas.yank(&vec![(0, 0), (1, 0), (1, 1)], CellContentType::all(), (0, 0));
    canvas.paste(&yank, (0, 0));
    for index in [(0, 0), (0, 1), (1, 0), (1, 1)] {
        let expected = before.iter().find(|(i, _)| *i == index).map(|(_, c)| *c);
        assert_eq!(canvas.cell(index), expected.unwrap_or(CanvasCell::default_cell()));
    }
}

#[test]
fn paste_places_yanked_aspects() {
    let mut canvas = Canvas::from_ansi("\u{1b}[32mxy\n".to_string()).unwrap();
    let yank = canvas.yank(&vec![(0, 0), (0, 1)], CellContentType::color(), (0, 0));
    canvas.paste(&yank, (2, 3));
    assert_eq!(canvas.cell((2, 3)), cell(' ', Color::Green, Color::Reset, Modifier::empty()));
    assert_eq!(canvas.cell((2, 4)), cell(' ', Color::Green, Color::Reset, Modifier::empty()));
    assert_eq!(canvas.cell((0, 0)), cell('x', Color::Green, Color::Reset, Modifier::empty()));
}
