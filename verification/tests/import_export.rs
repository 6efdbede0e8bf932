use upaint::canvas::Canvas;

const RESET_ALL: &str = "\u{1b}[0m";
const RESET_FG: &str = "\u{1b}[39m";

fn fg_indexed(index: u8) -> String {
    format!("\u{1b}[38;5;{index}m")
}

fn bg_indexed(index: u8) -> String {
    format!("\u{1b}[48;5;{index}m")
}

fn fg_rgb(r: u8, g: u8, b: u8) -> String {
    format!("\u{1b}[38;2;{r};{g};{b}m")
}

fn bg_rgb(r: u8, g: u8, b: u8) -> String {
    format!("\u{1b}[48;2;{r};{g};{b}m")
}

const BOLD: &str = "\u{1b}[1m";
const ITALIC: &str = "\u{1b}[3m";
const UNDERLINED: &str = "\u{1b}[4m";
const REVERSED: &str = "\u{1b}[7m";
const CROSSED_OUT: &str = "\u{1b}[9m";

fn assert_preserved(input: &str) {
    let output = Canvas::from_ansi(input.to_string()).unwrap().to_ansi();
    assert_eq!(input, output);
}

#[test]
fn test_basic() {
    assert_preserved(format!("{RESET_ALL}abc\n").as_str());
}

#[test]
fn test_spacing() {
    assert_preserved(format!("{RESET_ALL}  a     bc\n").as_str());
}

#[test]
fn test_indents() {
    assert_preserved(format!("{RESET_ALL}  a\n     bc\n").as_str());
}

#[test]
fn test_fg() {
    assert_preserved(format!("{RESET_ALL}{}a{RESET_ALL}\n", fg_rgb(4, 7, 8)).as_str())
}

#[test]
fn test_bg() {
    assert_preserved(format!("{RESET_ALL}{}a{RESET_ALL}\n", bg_rgb(4, 7, 9)).as_str())
}

#[test]
fn test_modifiers() {
    assert_preserved(format!("{RESET_ALL}{BOLD}{UNDERLINED}a{RESET_ALL}\n").as_str())
}

#[test]
fn changed_colors() {
    assert_preserved(
        format!(
            "{RESET_ALL}{}a{}b{RESET_FG}{}c{RESET_ALL}\n",
            fg_indexed(1),
            fg_indexed(2),
            bg_indexed(3)
        )
        .as_str(),
    )
}

#[test]
fn changed_modifiers() {
    assert_preserved(
        format!(
            "{RESET_ALL}{BOLD}a{RESET_ALL}{ITALIC}b{RESET_ALL}{ITALIC}{CROSSED_OUT}c{RESET_ALL}\n",
        )
        .as_str(),
    )
}

#[test]
fn changed_colors_and_modifiers() {
    assert_preserved(
        format!(
            "{RESET_ALL}{}{BOLD}{REVERSED}a{RESET_ALL}{}b{}c{}d{RESET_ALL}\n",
            fg_rgb(3, 3, 3),
            fg_rgb(3, 3, 3),
            bg_rgb(5, 5, 5),
            fg_rgb(10, 10, 10),
        )
        .as_str(),
    )
}

#[test]
fn converts_basic_colors_to_indexed() {
    let input = format!("{RESET_ALL}\u{1b}[31ma{RESET_ALL}\n");
    let expected = format!("{RESET_ALL}{}a{RESET_ALL}\n", fg_indexed(1));
    let output = Canvas::from_ansi(input).unwrap().to_ansi();
    assert_eq!(output, expected);
}
