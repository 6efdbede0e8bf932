use upaint::canvas::Canvas;
use upaint::style::{Color, Modifier};

const RESET_ALL: &str = "\u{1b}[0m";
const RESET_FG: &str = "\u{1b}[39m";
const BOLD: &str = "\u{1b}[1m";
const DIM: &str = "\u{1b}[2m";
const ITALIC: &str = "\u{1b}[3m";
const CROSSED_OUT: &str = "\u{1b}[9m";

fn fg_indexed(index: u8) -> String {
    format!("\u{1b}[38;5;{index}m")
}

fn bg_indexed(index: u8) -> String {
    format!("\u{1b}[48;5;{index}m")
}

fn fg_rgb(r: u8, g: u8, b: u8) -> String {
    format!("\u{1b}[38;2;{r};{g};{b}m")
}

fn bg_rgb(r: u8, g: u8, b: u8) -> String {
    format!("\u{1b}[48;2;{r};{g};{b}m")
}

fn empty() -> Canvas {
    Canvas::from_ansi("".to_string()).unwrap()
}

#[test]
fn export_basic() {
    let mut canvas = empty();
    canvas.set_character((0, 0), 'a');
    canvas.set_character((0, 1), 'b');
    assert_eq!(canvas.to_ansi(), format!("{RESET_ALL}ab\n"));
}

#[test]
fn rows() {
    let mut canvas = empty();
    canvas.set_character((0, 0), 'a');
    canvas.set_character((1, 0), 'b');
    assert_eq!(canvas.to_ansi(), format!("{RESET_ALL}a\nb\n"));
}

#[test]
fn export_spacing() {
    let mut canvas = empty();
    canvas.set_character((0, 0), 'a');
    canvas.set_character((0, 3), 'b');
    assert_eq!(canvas.to_ansi(), format!("{RESET_ALL}a  b\n"));
}

#[test]
fn export_indents() {
    let mut canvas = empty();
    canvas.set_character((0, 1), 'a');
    canvas.set_character((1, 2), 'b');
    assert_eq!(canvas.to_ansi(), format!("{RESET_ALL}a\n b\n"));
}

#[test]
fn negative_indices() {
    let mut canvas = empty();
    canvas.set_character((-1, 1), 'a');
    canvas.set_character((1, -2), 'b');
    assert_eq!(canvas.to_ansi(), format!("{RESET_ALL}   a\n\nb\n"));
}

#[test]
fn export_fg() {
    let mut canvas = empty();
    canvas.set_character((0, 0), 'a');
    canvas.set_fg((0, 0), Color::Red);
    assert_eq!(canvas.to_ansi(), format!("{RESET_ALL}{}a{RESET_ALL}\n", fg_indexed(1)));
}

#[test]
fn export_bg() {
    let mut canvas = empty();
    canvas.set_character((0, 0), 'a');
    canvas.set_bg((0, 0), Color::Red);
    assert_eq!(canvas.to_ansi(), format!("{RESET_ALL}{}a{RESET_ALL}\n", bg_indexed(1)));
}

#[test]
fn test_fg_indexed() {
    let mut canvas = empty();
    canvas.set_character((0, 0), 'a');
    canvas.set_fg((0, 0), Color::Indexed(65));
    assert_eq!(canvas.to_ansi(), format!("{RESET_ALL}{}a{RESET_ALL}\n", fg_indexed(65)));
}

#[test]
fn test_bg_indexed() {
    let mut canvas = empty();
    canvas.set_character((0, 0), 'a');
    canvas.set_bg((0, 0), Color::Indexed(65));
    assert_eq!(canvas.to_ansi(), format!("{RESET_ALL}{}a{RESET_ALL}\n", bg_indexed(65)));
}

#[test]
fn test_fg_rgb() {
    let mut canvas = empty();
    canvas.set_character((0, 0), 'a');
    canvas.set_fg((0, 0), Color::Rgb(65, 42, 0));
    assert_eq!(canvas.to_ansi(), format!("{RESET_ALL}{}a{RESET_ALL}\n", fg_rgb(65, 42, 0)));
}

#[test]
fn test_bg_rgb() {
    let mut canvas = empty();
    canvas.set_character((0, 0), 'a');
    canvas.set_bg((0, 0), Color::Rgb(65, 42, 0));
    assert_eq!(canvas.to_ansi(), format!("{RESET_ALL}{}a{RESET_ALL}\n", bg_rgb(65, 42, 0)));
}

#[test]
fn export_modifiers() {
    let mut canvas = empty();
    canvas.set_character((0, 0), 'a');
    canvas.set_modifiers((0, 0), Modifier::bold().union(Modifier::crossed_out()));
    assert_eq!(canvas.to_ansi(), format!("{RESET_ALL}{BOLD}{CROSSED_OUT}a{RESET_ALL}\n"));
}

#[test]
fn fg_changed() {
    let mut canvas = empty();
    canvas.set_character((0, 0), 'a');
    canvas.set_fg((0, 0), Color::Rgb(1, 2, 3));
    canvas.set_character((0, 1), 'b');
    canvas.set_fg((0, 1), Color::Rgb(3, 2, 1));
    assert_eq!(
        canvas.to_ansi(),
        format!("{RESET_ALL}{}a{}b{RESET_ALL}\n", fg_rgb(1, 2, 3), fg_rgb(3, 2, 1))
    );
}

#[test]
fn fg_reset() {
    let mut canvas = empty();
    canvas.set_character((0, 0), 'a');
    canvas.set_fg((0, 0), Color::Rgb(1, 2, 3));
    canvas.set_character((0, 1), 'b');
    assert_eq!(canvas.to_ansi(), format!("{RESET_ALL}{}a{RESET_FG}b\n", fg_rgb(1, 2, 3)));
}

#[test]
fn modifiers_changed() {
    let mut canvas = empty();
    canvas.set_character((0, 0), 'a');
    canvas.set_modifiers((0, 0), Modifier::bold());
    canvas.set_character((0, 1), 'b');
    canvas.set_modifiers((0, 1), Modifier::italic());
    assert_eq!(canvas.to_ansi(), format!("{RESET_ALL}{BOLD}a{RESET_ALL}{ITALIC}b{RESET_ALL}\n"));
}

#[test]
fn modifiers_reset() {
    let mut canvas = empty();
    canvas.set_character((0, 0), 'a');
    canvas.set_modifiers((0, 0), Modifier::dim());
    canvas.set_character((0, 1), 'b');
    assert_eq!(canvas.to_ansi(), format!("{RESET_ALL}{DIM}a{RESET_ALL}b\n"));
}

#[test]
fn empty_cell() {
    let mut canvas = empty();
    canvas.set_character((-1, -3), ' ');
    assert_eq!(canvas.to_ansi(), format!("{RESET_ALL} \n"));
}

#[test]
fn empty_and_filled_cells() {
    let mut canvas = empty();
    canvas.set_character((0, 3), ' ');
    canvas.set_character((2, 0), 'a');
    canvas.set_bg((2, 0), Color::Rgb(2, 2, 2));
    canvas.set_character((2, 8), ' ');
    assert_eq!(
        canvas.to_ansi(),
        format!("{RESET_ALL}    \n\n{}a{RESET_ALL}        \n", bg_rgb(2, 2, 2))
    );
}

const UNDERLINED: &str = "\u{1b}[4m";

#[test]
fn modifiers_and_colors_changed() {
    let mut canvas = empty();
    canvas.set_character((0, 0), 'a');
    canvas.set_fg((0, 0), Color::Rgb(2, 4, 8));
    canvas.set_modifiers((0, 0), Modifier::italic());
    canvas.set_character((0, 1), 'b');
    canvas.set_bg((0, 1), Color::Rgb(1, 1, 1));
    canvas.set_modifiers((0, 1), Modifier::underlined());
    assert_eq!(
        canvas.to_ansi(),
        format!(
            "{RESET_ALL}{}{ITALIC}a{RESET_ALL}{}{UNDERLINED}b{RESET_ALL}\n",
            fg_rgb(2, 4, 8),
            bg_rgb(1, 1, 1)
        )
    );
}

#[test]
fn fg_changed_with_spacing() {
    let mut canvas = empty();
    canvas.set_character((0, 0), 'a');
    canvas.set_fg((0, 0), Color::Rgb(2, 4, 8));
    canvas.set_character((0, 4), 'b');
    canvas.set_fg((0, 4), Color::Rgb(1, 1, 1));
    assert_eq!(
        canvas.to_ansi(),
        format!("{RESET_ALL}{}a{RESET_ALL}   {}b{RESET_ALL}\n", fg_rgb(2, 4, 8), fg_rgb(1, 1, 1))
    );
}

#[test]
fn fg_unchanged_with_spacing() {
    let mut canvas = empty();
    canvas.set_character((0, 0), 'a');
    canvas.set_fg((0, 0), Color::Rgb(2, 4, 8));
    canvas.set_character((0, 4), 'b');
    canvas.set_fg((0, 4), Color::Rgb(2, 4, 8));
    assert_eq!(
        canvas.to_ansi(),
        format!("{RESET_ALL}{}a{RESET_ALL}   {}b{RESET_ALL}\n", fg_rgb(2, 4, 8), fg_rgb(2, 4, 8))
    );
}

#[test]
fn try_export_gives_the_export() {
    let mut c = Canvas::new();
    c.set_character((0, 0), 'a');
    c.set_character((0, 1), 'b');
    assert_eq!(c.try_to_ansi(), Some("\u{1b}[0mab\n".to_string()));
    assert!(c.can_export());
}
