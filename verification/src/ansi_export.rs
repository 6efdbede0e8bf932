use vstd::prelude::*;

use crossterm::style::{
    Attribute as CAttribute, Color as CColor, ResetColor, SetAttribute, SetBackgroundColor,
    SetForegroundColor,
};
use crossterm::Command;
use ratatui::backend::IntoCrossterm;
use ratatui::style::Color as RColor;

use crate::ansi_import::esc;
use crate::ansi_import::{spec_import, ImportOutcome};
use crate::ansi_round_trip::{all_enabled, exportable_cells, law_import_of_export, read_moved};
use crate::canvas::{default_cell, read_cell, spec_has_sgr_effects, Canvas, CanvasCell};
use crate::rect::{fits_i16, CanvasIndex, CanvasRect};
use crate::style::{spec_modifier_empty, Color, Ground, Modifier};

verus! {

/// An SGR attribute that a modifier of a cell is written as.
#[derive(Debug, Clone, Copy, PartialEq, Eq, Structural)]
pub enum Attribute {
    Bold,
    Dim,
    Italic,
    Underlined,
    SlowBlink,
    RapidBlink,
    Reverse,
    Hidden,
    CrossedOut,
}

pub open spec fn attribute_code(a: Attribute) -> nat {
    match a {
        Attribute::Bold => 1,
        Attribute::Dim => 2,
        Attribute::Italic => 3,
        Attribute::Underlined => 4,
        Attribute::SlowBlink => 5,
        Attribute::RapidBlink => 6,
        Attribute::Reverse => 7,
        Attribute::Hidden => 8,
        Attribute::CrossedOut => 9,
    }
}

pub open spec fn digit_char(d: nat) -> char {
    if d == 0 {
        '0'
    } else if d == 1 {
        '1'
    } else if d == 2 {
        '2'
    } else if d == 3 {
        '3'
    } else if d == 4 {
        '4'
    } else if d == 5 {
        '5'
    } else if d == 6 {
        '6'
    } else if d == 7 {
        '7'
    } else if d == 8 {
        '8'
    } else {
        '9'
    }
}

/// The decimal digits of `n`, without leading zeros.
pub open spec fn dec(n: nat) -> Seq<char>
    decreases n,
{
    if n < 10 {
        seq![digit_char(n)]
    } else {
        dec(n / 10).push(digit_char(n % 10))
    }
}

/// The entry of the 256-color palette that a color other than `Rgb` and `Reset` is written as:
/// the sixteen named colors are its first sixteen entries.
pub open spec fn palette_index(c: Color) -> nat {
    match c {
        Color::Black => 0,
        Color::Red => 1,
        Color::Green => 2,
        Color::Yellow => 3,
        Color::Blue => 4,
        Color::Magenta => 5,
        Color::Cyan => 6,
        Color::Gray => 7,
        Color::DarkGray => 8,
        Color::LightRed => 9,
        Color::LightGreen => 10,
        Color::LightYellow => 11,
        Color::LightBlue => 12,
        Color::LightMagenta => 13,
        Color::LightCyan => 14,
        Color::White => 15,
        Color::Indexed(n) => n as nat,
        _ => 0,
    }
}

/// The SGR parameters after `38;` or `48;` that select color `c`.
pub open spec fn color_params(c: Color) -> Seq<char> {
    match c {
        Color::Rgb(r, g, b) => seq!['2', ';'] + dec(r as nat) + seq![';'] + dec(g as nat) + seq![
            ';',
        ] + dec(b as nat),
        _ => seq!['5', ';'] + dec(palette_index(c)),
    }
}

/// The escape sequence that sets the foreground or background color to `c`.
pub open spec fn sgr_color_text(ground: Ground, c: Color) -> Seq<char> {
    let params = match ground {
        Ground::Foreground => if c == Color::Reset {
            seq!['3', '9']
        } else {
            seq!['3', '8', ';'] + color_params(c)
        },
        Ground::Background => if c == Color::Reset {
            seq!['4', '9']
        } else {
            seq!['4', '8', ';'] + color_params(c)
        },
    };
    seq![esc(), '['] + params + seq!['m']
}

/// The escape sequence written for a color while colors are turned off (`NO_COLOR`).
pub open spec fn sgr_disabled_text() -> Seq<char> {
    seq![esc(), '[', 'm']
}

pub open spec fn reset_all_text() -> Seq<char> {
    seq![esc(), '[', '0', 'm']
}

/// One piece of exported ANSI art.
#[derive(Debug, Clone, Copy, PartialEq, Eq, Structural)]
pub enum AnsiToken {
    Char(char),
    ResetAll,
    SetColor(Ground, Color),
    SetAttribute(Attribute),
}

/// The text of a token; `enabled` says whether colors were turned on when it was written.
pub open spec fn token_text(t: AnsiToken, enabled: bool) -> Seq<char> {
    match t {
        AnsiToken::Char(c) => seq![c],
        AnsiToken::ResetAll => reset_all_text(),
        AnsiToken::SetColor(g, c) => if enabled {
            sgr_color_text(g, c)
        } else {
            sgr_disabled_text()
        },
        AnsiToken::SetAttribute(a) => seq![esc(), '['] + dec(attribute_code(a)) + seq!['m'],
    }
}

/// The text of a sequence of tokens, the `k`-th written with colors `enabled[k]`.
#[verifier::opaque]
pub open spec fn render(ts: Seq<AnsiToken>, enabled: Seq<bool>) -> Seq<char>
    decreases ts.len(),
{
    if ts.len() == 0 || enabled.len() != ts.len() {
        Seq::empty()
    } else {
        render(ts.drop_last(), enabled.drop_last()) + token_text(ts.last(), enabled.last())
    }
}

/// `ESC [ 0 m`, through crossterm's `ResetColor`.
#[verifier::external_body]
fn write_reset_all() -> (s: String)
    ensures
        s@ == reset_all_text(),
{
    let mut s = String::new();
    let _ = ResetColor.write_ansi(&mut s);
    s
}

/// crossterm's `SetForegroundColor` or `SetBackgroundColor` for a `Reset`, `Indexed` or `Rgb`
/// color. crossterm writes the color only where the environment does not turn colors off with
/// `NO_COLOR`; otherwise it writes the sequence without parameters.
#[verifier::external_body]
fn write_color(ground: Ground, color: Color) -> (s: String)
    requires
        color is Reset || color is Indexed || color is Rgb,
    ensures
        s@ == sgr_color_text(ground, written_color(color)) || s@ == sgr_disabled_text(),
{
    let c = match color {
        Color::Indexed(n) => CColor::AnsiValue(n),
        Color::Rgb(r, g, b) => CColor::Rgb { r, g, b },
        _ => CColor::Reset,
    };
    let mut s = String::new();
    let _ = match ground {
        Ground::Foreground => SetForegroundColor(c).write_ansi(&mut s),
        Ground::Background => SetBackgroundColor(c).write_ansi(&mut s),
    };
    s
}

/// crossterm's `SetForegroundColor` or `SetBackgroundColor` for a named color, turned into a
/// crossterm color by ratatui's `into_crossterm`: each named color becomes its entry of the
/// 16-color palette (`Red` entry 1, `LightRed` entry 9, and so on). As for `write_color`,
/// `NO_COLOR` in the environment leaves the sequence without parameters.
#[verifier::external_body]
fn write_named_color(ground: Ground, color: Color) -> (s: String)
    requires
        !(color is Reset || color is Indexed || color is Rgb),
    ensures
        s@ == sgr_color_text(ground, written_color(color)) || s@ == sgr_disabled_text(),
{
    let c = match color {
        Color::Black => RColor::Black, Color::Red => RColor::Red, Color::Green => RColor::Green,
        Color::Yellow => RColor::Yellow, Color::Blue => RColor::Blue, Color::Magenta => RColor::Magenta,
        Color::Cyan => RColor::Cyan, Color::Gray => RColor::Gray, Color::DarkGray => RColor::DarkGray,
        Color::LightRed => RColor::LightRed, Color::LightGreen => RColor::LightGreen,
        Color::LightYellow => RColor::LightYellow, Color::LightBlue => RColor::LightBlue,
        Color::LightMagenta => RColor::LightMagenta, Color::LightCyan => RColor::LightCyan,
        _ => RColor::White,
    }.into_crossterm();
    let mut s = String::new();
    let _ = match ground {
        Ground::Foreground => SetForegroundColor(c).write_ansi(&mut s),
        Ground::Background => SetBackgroundColor(c).write_ansi(&mut s),
    };
    s
}

/// crossterm's `SetAttribute`: `ESC [ n m` with the attribute's SGR code `n`.
#[verifier::external_body]
fn write_attribute(a: Attribute) -> (s: String)
    ensures
        s@ == seq![esc(), '['] + dec(attribute_code(a)) + seq!['m'],
{
    let attribute = match a {
        Attribute::Bold => CAttribute::Bold,
        Attribute::Dim => CAttribute::Dim,
        Attribute::Italic => CAttribute::Italic,
        Attribute::Underlined => CAttribute::Underlined,
        Attribute::SlowBlink => CAttribute::SlowBlink,
        Attribute::RapidBlink => CAttribute::RapidBlink,
        Attribute::Reverse => CAttribute::Reverse,
        Attribute::Hidden => CAttribute::Hidden,
        Attribute::CrossedOut => CAttribute::CrossedOut,
    };
    let mut s = String::new();
    let _ = SetAttribute(attribute).write_ansi(&mut s);
    s
}

/// The color that `c` is written as: named colors as their palette entries.
pub open spec fn written_color(c: Color) -> Color {
    match c {
        Color::Reset => Color::Reset,
        Color::Rgb(r, g, b) => Color::Rgb(r, g, b),
        _ => Color::Indexed(palette_index(c) as u8),
    }
}

/// The token as it is written: a color as `written_color` gives it.
pub open spec fn written_token(t: AnsiToken) -> AnsiToken {
    match t {
        AnsiToken::SetColor(g, c) => AnsiToken::SetColor(g, written_color(c)),
        _ => t,
    }
}

/// Writes one token to `out`; tells whether colors were turned on.
fn emit(out: &mut String, t: AnsiToken) -> (enabled: Ghost<bool>)
    ensures
        final(out)@ == old(out)@ + token_text(written_token(t), enabled@),
{
    match t {
        AnsiToken::Char(c) => {
            out.push(c);
            Ghost(true)
        },
        AnsiToken::ResetAll => {
            let s = write_reset_all();
            out.push_str(s.as_str());
            Ghost(true)
        },
        AnsiToken::SetColor(g, c) => {
            let s = match c {
                Color::Reset | Color::Indexed(_) | Color::Rgb(_, _, _) => write_color(g, c),
                _ => write_named_color(g, c),
            };
            let ghost en = s@ == sgr_color_text(g, written_color(c));
            out.push_str(s.as_str());
            Ghost(en)
        },
        AnsiToken::SetAttribute(a) => {
            let s = write_attribute(a);
            out.push_str(s.as_str());
            Ghost(true)
        },
    }
}

/// Accumulates exported text, and the tokens it was written from.
struct AnsiWriter {
    out: String,
    tokens: Ghost<Seq<AnsiToken>>,
    enabled: Ghost<Seq<bool>>,
}

impl AnsiWriter {
    spec fn wf(&self) -> bool {
        &&& self.enabled@.len() == self.tokens@.len()
        &&& self.out@ == render(self.tokens@, self.enabled@)
    }

    fn new() -> (w: AnsiWriter)
        ensures
            w.wf(),
            w.tokens@ == Seq::<AnsiToken>::empty(),
    {
        let w = AnsiWriter {
            out: String::new(),
            tokens: Ghost(Seq::empty()),
            enabled: Ghost(Seq::empty()),
        };
        reveal(render);
        w
    }

    fn write(&mut self, t: AnsiToken)
        requires
            old(self).wf(),
        ensures
            final(self).wf(),
            final(self).tokens@ == old(self).tokens@.push(written_token(t)),
    {
        let g = emit(&mut self.out, t);
        let ghost ts = self.tokens@;
        let ghost en = self.enabled@;
        self.tokens = Ghost(ts.push(written_token(t)));
        self.enabled = Ghost(en.push(g@));
        assert(self.tokens@.drop_last() =~= ts);
        assert(self.enabled@.drop_last() =~= en);
        reveal(render);
    }
}

/// `n` copies of `t` (none for `n <= 0`).
pub open spec fn repeat_token(t: AnsiToken, n: int) -> Seq<AnsiToken> {
    Seq::new(if n > 0 { n as nat } else { 0 }, |_i: int| t)
}

pub open spec fn attribute_if(on: bool, a: Attribute) -> Seq<AnsiToken> {
    if on {
        seq![AnsiToken::SetAttribute(a)]
    } else {
        Seq::empty()
    }
}

/// The attributes that set the modifiers of `m`, in SGR order.
#[verifier::opaque]
pub open spec fn modifier_tokens(m: Modifier) -> Seq<AnsiToken> {
    attribute_if(m.bold, Attribute::Bold) + attribute_if(m.dim, Attribute::Dim) + attribute_if(
        m.italic,
        Attribute::Italic,
    ) + attribute_if(m.underlined, Attribute::Underlined) + attribute_if(
        m.slow_blink,
        Attribute::SlowBlink,
    ) + attribute_if(m.rapid_blink, Attribute::RapidBlink) + attribute_if(
        m.reversed,
        Attribute::Reverse,
    ) + attribute_if(m.hidden, Attribute::Hidden) + attribute_if(
        m.crossed_out,
        Attribute::CrossedOut,
    )
}

/// Where the export stands after some cells: the cell written last, and its position.
pub struct ExportState {
    pub prev: CanvasCell,
    pub prev_row: i16,
    pub prev_col: i16,
    pub tokens: Seq<AnsiToken>,
}

/// The arithmetic of exporting the cell at `index` stays in `i16`.
pub open spec fn export_step_fits(st: ExportState, first_col: i16, index: CanvasIndex) -> bool {
    &&& fits_i16(index.0 - st.prev_row)
    &&& if index.0 == st.prev_row {
        fits_i16(st.prev_col + 1) && fits_i16(index.1 - (st.prev_col + 1))
    } else {
        fits_i16(index.1 - first_col)
    }
}

/// What the export writes before the cell at `index`.
pub struct CellPlan {
    pub linebreaks: int,
    pub spaces: int,
    pub reset1: bool,
    pub reset2: bool,
    pub after_resets: CanvasCell,
}

pub open spec fn cell_plan(st: ExportState, first_col: i16, index: CanvasIndex, cell: CanvasCell) -> CellPlan {
    let linebreaks = index.0 - st.prev_row;
    let spaces = if index.0 == st.prev_row {
        index.1 - (st.prev_col + 1)
    } else {
        index.1 - first_col
    };
    let skipped = linebreaks > 0 || spaces > 0;
    let reset1 = skipped && spec_has_sgr_effects(st.prev);
    let p1 = if reset1 {
        default_cell()
    } else {
        st.prev
    };
    let reset2 = p1.modifiers != spec_modifier_empty() && cell.modifiers != p1.modifiers;
    let p2 = if reset2 {
        default_cell()
    } else {
        p1
    };
    CellPlan { linebreaks, spaces, reset1, reset2, after_resets: p2 }
}

pub open spec fn reset_if(on: bool) -> Seq<AnsiToken> {
    if on {
        seq![AnsiToken::ResetAll]
    } else {
        Seq::empty()
    }
}

/// The color and modifier changes that turn the style of `p` into that of `cell`.
pub open spec fn style_tokens(p: CanvasCell, cell: CanvasCell) -> Seq<AnsiToken> {
    (if cell.fg != p.fg {
        seq![AnsiToken::SetColor(Ground::Foreground, written_color(cell.fg))]
    } else {
        Seq::empty()
    }) + (if cell.bg != p.bg {
        seq![AnsiToken::SetColor(Ground::Background, written_color(cell.bg))]
    } else {
        Seq::empty()
    }) + (if cell.modifiers != p.modifiers {
        modifier_tokens(cell.modifiers)
    } else {
        Seq::empty()
    })
}

/// The tokens written for the cell at `index`: a reset where cells are skipped after styled
/// text, line breaks and spaces up to the cell, a reset where modifiers change, color and
/// attribute changes, and its character.
pub open spec fn cell_tokens(
    st: ExportState,
    first_col: i16,
    index: CanvasIndex,
    cell: CanvasCell,
) -> Seq<AnsiToken> {
    let plan = cell_plan(st, first_col, index, cell);
    reset_if(plan.reset1) + repeat_token(AnsiToken::Char('\n'), plan.linebreaks) + repeat_token(
        AnsiToken::Char(' '),
        plan.spaces,
    ) + reset_if(plan.reset2) + style_tokens(plan.after_resets, cell) + seq![
        AnsiToken::Char(cell.character),
    ]
}

pub open spec fn export_cell(
    st: ExportState,
    first_col: i16,
    index: CanvasIndex,
    cell: CanvasCell,
) -> ExportState {
    ExportState {
        prev: cell,
        prev_row: index.0,
        prev_col: index.1,
        tokens: st.tokens + cell_tokens(st, first_col, index, cell),
    }
}

/// The export of the cells from the `k`-th on; `None` where its arithmetic overflows.
pub open spec fn export_from(
    cells: Seq<(CanvasIndex, CanvasCell)>,
    k: int,
    st: ExportState,
    first_col: i16,
) -> Option<ExportState>
    decreases cells.len() - k,
{
    if k < 0 || k >= cells.len() {
        Some(st)
    } else if !export_step_fits(st, first_col, cells[k].0) {
        None
    } else {
        export_from(cells, k + 1, export_cell(st, first_col, cells[k].0, cells[k].1), first_col)
    }
}

pub open spec fn initial_export_state(area: CanvasRect) -> ExportState {
    ExportState {
        prev: default_cell(),
        prev_row: area.row,
        prev_col: (area.column - 1) as i16,
        tokens: seq![AnsiToken::ResetAll],
    }
}

/// The tokens of the exported canvas; `None` where the export's arithmetic overflows.
pub open spec fn spec_export_tokens(area: CanvasRect, cells: Seq<(CanvasIndex, CanvasCell)>) -> Option<
    Seq<AnsiToken>,
> {
    if area.column == i16::MIN {
        None
    } else {
        match export_from(cells, 0, initial_export_state(area), area.column) {
            Some(st) => Some(
                st.tokens + (if spec_has_sgr_effects(st.prev) {
                    seq![AnsiToken::ResetAll]
                } else {
                    Seq::empty()
                }) + seq![AnsiToken::Char('\n')],
            ),
            None => None,
        }
    }
}

/// Writes `n` copies of the character `c`.
fn write_repeated(w: &mut AnsiWriter, c: char, n: i16)
    requires
        old(w).wf(),
    ensures
        final(w).wf(),
        final(w).tokens@ == old(w).tokens@ + repeat_token(AnsiToken::Char(c), n as int),
{
    let mut i: i16 = 0;
    while i < n
        invariant
            w.wf(),
            0 <= i,
            i <= (if n > 0 {
                n
            } else {
                0
            }),
            w.tokens@ == old(w).tokens@ + repeat_token(AnsiToken::Char(c), i as int),
        decreases n - i,
    {
        w.write(AnsiToken::Char(c));
        assert(repeat_token(AnsiToken::Char(c), i as int).push(AnsiToken::Char(c)) =~= repeat_token(
            AnsiToken::Char(c),
            i + 1,
        ));
        i += 1;
    }
    assert(repeat_token(AnsiToken::Char(c), i as int) =~= repeat_token(AnsiToken::Char(c), n as int));
}

fn write_attribute_if(w: &mut AnsiWriter, on: bool, a: Attribute)
    requires
        old(w).wf(),
    ensures
        final(w).wf(),
        final(w).tokens@ == old(w).tokens@ + attribute_if(on, a),
{
    if on {
        w.write(AnsiToken::SetAttribute(a));
    }
    assert(final(w).tokens@ =~= old(w).tokens@ + attribute_if(on, a));
}

fn write_modifiers(w: &mut AnsiWriter, m: Modifier)
    requires
        old(w).wf(),
    ensures
        final(w).wf(),
        final(w).tokens@ == old(w).tokens@ + modifier_tokens(m),
{
    let ghost t0 = w.tokens@;
    let ghost a1 = attribute_if(m.bold, Attribute::Bold);
    let ghost a2 = attribute_if(m.dim, Attribute::Dim);
    let ghost a3 = attribute_if(m.italic, Attribute::Italic);
    let ghost a4 = attribute_if(m.underlined, Attribute::Underlined);
    let ghost a5 = attribute_if(m.slow_blink, Attribute::SlowBlink);
    let ghost a6 = attribute_if(m.rapid_blink, Attribute::RapidBlink);
    let ghost a7 = attribute_if(m.reversed, Attribute::Reverse);
    let ghost a8 = attribute_if(m.hidden, Attribute::Hidden);
    let ghost a9 = attribute_if(m.crossed_out, Attribute::CrossedOut);
    write_attribute_if(w, m.bold, Attribute::Bold);
    assert(w.tokens@ == t0 + a1);
    write_attribute_if(w, m.dim, Attribute::Dim);
    proof {
        vstd::seq_lib::lemma_concat_associative(t0, a1, a2);
    }
    assert(w.tokens@ == t0 + (a1 + a2));
    write_attribute_if(w, m.italic, Attribute::Italic);
    proof {
        vstd::seq_lib::lemma_concat_associative(t0, a1 + a2, a3);
    }
    assert(w.tokens@ == t0 + (a1 + a2 + a3));
    write_attribute_if(w, m.underlined, Attribute::Underlined);
    proof {
        vstd::seq_lib::lemma_concat_associative(t0, a1 + a2 + a3, a4);
    }
    assert(w.tokens@ == t0 + (a1 + a2 + a3 + a4));
    write_attribute_if(w, m.slow_blink, Attribute::SlowBlink);
    proof {
        vstd::seq_lib::lemma_concat_associative(t0, a1 + a2 + a3 + a4, a5);
    }
    assert(w.tokens@ == t0 + (a1 + a2 + a3 + a4 + a5));
    write_attribute_if(w, m.rapid_blink, Attribute::RapidBlink);
    proof {
        vstd::seq_lib::lemma_concat_associative(t0, a1 + a2 + a3 + a4 + a5, a6);
    }
    assert(w.tokens@ == t0 + (a1 + a2 + a3 + a4 + a5 + a6));
    write_attribute_if(w, m.reversed, Attribute::Reverse);
    proof {
        vstd::seq_lib::lemma_concat_associative(t0, a1 + a2 + a3 + a4 + a5 + a6, a7);
    }
    assert(w.tokens@ == t0 + (a1 + a2 + a3 + a4 + a5 + a6 + a7));
    write_attribute_if(w, m.hidden, Attribute::Hidden);
    proof {
        vstd::seq_lib::lemma_concat_associative(t0, a1 + a2 + a3 + a4 + a5 + a6 + a7, a8);
    }
    assert(w.tokens@ == t0 + (a1 + a2 + a3 + a4 + a5 + a6 + a7 + a8));
    write_attribute_if(w, m.crossed_out, Attribute::CrossedOut);
    proof {
        vstd::seq_lib::lemma_concat_associative(t0, a1 + a2 + a3 + a4 + a5 + a6 + a7 + a8, a9);
    }
    assert(w.tokens@ == t0 + (a1 + a2 + a3 + a4 + a5 + a6 + a7 + a8 + a9));
    reveal(modifier_tokens);
}

fn write_style(w: &mut AnsiWriter, p: CanvasCell, cell: CanvasCell)
    requires
        old(w).wf(),
    ensures
        final(w).wf(),
        final(w).tokens@ == old(w).tokens@ + style_tokens(p, cell),
{
    let ghost t0 = w.tokens@;
    let ghost s1 = if cell.fg != p.fg {
        seq![AnsiToken::SetColor(Ground::Foreground, written_color(cell.fg))]
    } else {
        Seq::empty()
    };
    let ghost s2 = if cell.bg != p.bg {
        seq![AnsiToken::SetColor(Ground::Background, written_color(cell.bg))]
    } else {
        Seq::empty()
    };
    let ghost s3 = if cell.modifiers != p.modifiers {
        modifier_tokens(cell.modifiers)
    } else {
        Seq::empty()
    };
    if cell.fg != p.fg {
        w.write(AnsiToken::SetColor(Ground::Foreground, cell.fg));
    }
    assert(w.tokens@ =~= t0 + s1);
    let ghost t1 = w.tokens@;
    if cell.bg != p.bg {
        w.write(AnsiToken::SetColor(Ground::Background, cell.bg));
    }
    assert(w.tokens@ =~= t1 + s2);
    let ghost t2 = w.tokens@;
    if cell.modifiers != p.modifiers {
        write_modifiers(w, cell.modifiers);
    }
    assert(w.tokens@ =~= t2 + s3);
    assert(w.tokens@ =~= t0 + style_tokens(p, cell));
}

/// Writes the tokens of one cell; gives back the cell as the new previous cell.
fn write_cell(
    w: &mut AnsiWriter,
    prev: CanvasCell,
    prev_row: i16,
    prev_col: i16,
    first_col: i16,
    index: CanvasIndex,
    cell: CanvasCell,
)
    requires
        old(w).wf(),
        export_step_fits(
            ExportState { prev, prev_row, prev_col, tokens: old(w).tokens@ },
            first_col,
            index,
        ),
    ensures
        final(w).wf(),
        final(w).tokens@ == export_cell(
            ExportState { prev, prev_row, prev_col, tokens: old(w).tokens@ },
            first_col,
            index,
            cell,
        ).tokens,
{
    let ghost st = ExportState { prev, prev_row, prev_col, tokens: w.tokens@ };
    let ghost plan = cell_plan(st, first_col, index, cell);
    let ghost t0 = w.tokens@;
    let (row, column) = index;
    let linebreaks = row - prev_row;
    let spaces = if row == prev_row {
        column - (prev_col + 1)
    } else {
        column - first_col
    };
    let skipped = linebreaks > 0 || spaces > 0;
    let mut previous = prev;
    let reset1 = skipped && previous.has_sgr_effects();
    if reset1 {
        w.write(AnsiToken::ResetAll);
        previous = CanvasCell::default_cell();
    }
    assert(w.tokens@ =~= t0 + reset_if(plan.reset1));
    write_repeated(w, '\n', linebreaks);
    write_repeated(w, ' ', spaces);
    let ghost t2 = w.tokens@;
    let reset2 = !previous.modifiers.is_empty() && cell.modifiers != previous.modifiers;
    if reset2 {
        w.write(AnsiToken::ResetAll);
        previous = CanvasCell::default_cell();
    }
    assert(w.tokens@ =~= t2 + reset_if(plan.reset2));
    assert(previous == plan.after_resets);
    let ghost t3 = w.tokens@;
    write_style(w, previous, cell);
    w.write(AnsiToken::Char(cell.character));
    assert(w.tokens@ =~= t0 + cell_tokens(st, first_col, index, cell));
}

impl Canvas {
    /// Exports the canvas as ANSI art: the rows of its area from the first one on, each from the
    /// area's first column, with SGR sequences for colors and modifiers. The text starts with a
    /// reset and ends with a line feed.
    pub fn to_ansi(&self) -> (s: String)
        requires
            self.wf(),
            spec_export_tokens(self.area, self.cells@) is Some,
        ensures
            exists|enabled: Seq<bool>|
                enabled.len() == spec_export_tokens(self.area, self.cells@)->0.len() && s@ == render(
                    spec_export_tokens(self.area, self.cells@)->0,
                    enabled,
                ),
            ({
                let ts = spec_export_tokens(self.area, self.cells@)->0;
                (s@ == render(ts, all_enabled(ts.len())) && exportable_cells(self.cells@, self.area))
                    ==> (spec_import(s@, true) matches ImportOutcome::Done(st) && forall|j: CanvasIndex|
                    #[trigger] read_cell(st.cells, j) == read_moved(*self, j))
            }),
    {
        let mut w = AnsiWriter::new();
        w.write(AnsiToken::ResetAll);
        assert(w.tokens@ =~= seq![AnsiToken::ResetAll]);
        let first_col = self.area.column;
        let mut prev = CanvasCell::default_cell();
        let mut prev_row = self.area.row;
        let mut prev_col = self.area.column - 1;
        let ghost goal = export_from(self.cells@, 0, initial_export_state(self.area), first_col);
        let mut k: usize = 0;
        while k < self.cells.len()
            invariant
                w.wf(),
                0 <= k <= self.cells@.len(),
                first_col == self.area.column,
                goal == export_from(self.cells@, 0, initial_export_state(self.area), first_col),
                goal is Some,
                export_from(
                    self.cells@,
                    k as int,
                    ExportState { prev, prev_row, prev_col, tokens: w.tokens@ },
                    first_col,
                ) == goal,
            decreases self.cells@.len() - k,
        {
            let (index, cell) = self.cells[k];
            write_cell(&mut w, prev, prev_row, prev_col, first_col, index, cell);
            prev = cell;
            prev_row = index.0;
            prev_col = index.1;
            k += 1;
        }
        if prev.has_sgr_effects() {
            w.write(AnsiToken::ResetAll);
        }
        w.write(AnsiToken::Char('\n'));
        assert(w.tokens@ =~= spec_export_tokens(self.area, self.cells@)->0);
        proof {
            if exportable_cells(self.cells@, self.area) {
                law_import_of_export(*self);
            }
        }
        w.out
    }
}

/// Whether `x` is in the range of `i16`.
fn in_i16_range(x: i32) -> (b: bool)
    ensures
        b == fits_i16(x as int),
{
    -32768 <= x && x <= 32767
}

impl Canvas {
    /// Whether the export of the canvas stays in range, as `to_ansi` needs.
    pub fn can_export(&self) -> (b: bool)
        requires
            self.wf(),
        ensures
            b == spec_export_tokens(self.area, self.cells@) is Some,
    {
        if self.area.column == i16::MIN {
            return false;
        }
        let first_col = self.area.column;
        let ghost goal = export_from(self.cells@, 0, initial_export_state(self.area), first_col);
        let ghost mut st = initial_export_state(self.area);
        let mut prev_row: i16 = self.area.row;
        let mut prev_col: i16 = self.area.column - 1;
        let mut k: usize = 0;
        while k < self.cells.len()
            invariant
                0 <= k <= self.cells@.len(),
                first_col == self.area.column,
                st.prev_row == prev_row,
                st.prev_col == prev_col,
                goal == export_from(self.cells@, 0, initial_export_state(self.area), first_col),
                export_from(self.cells@, k as int, st, first_col) == goal,
            decreases self.cells@.len() - k,
        {
            let (index, cell) = self.cells[k];
            let same_row = index.0 == prev_row;
            let fits = in_i16_range(index.0 as i32 - prev_row as i32) && if same_row {
                in_i16_range(prev_col as i32 + 1) && in_i16_range(index.1 as i32 - (prev_col as i32 + 1))
            } else {
                in_i16_range(index.1 as i32 - first_col as i32)
            };
            assert(fits == export_step_fits(st, first_col, index));
            if !fits {
                return false;
            }
            proof {
                st = export_cell(st, first_col, index, cell);
            }
            prev_row = index.0;
            prev_col = index.1;
            k += 1;
        }
        true
    }

    /// `to_ansi`, where the export stays in range; `None` elsewhere.
    pub fn try_to_ansi(&self) -> (r: Option<String>)
        requires
            self.wf(),
        ensures
            r is Some <==> spec_export_tokens(self.area, self.cells@) is Some,
            r matches Some(s) ==> exists|enabled: Seq<bool>|
                enabled.len() == spec_export_tokens(self.area, self.cells@)->0.len() && s@ == render(
                    spec_export_tokens(self.area, self.cells@)->0,
                    enabled,
                ),
            r matches Some(s) ==> ({
                let ts = spec_export_tokens(self.area, self.cells@)->0;
                (s@ == render(ts, all_enabled(ts.len())) && exportable_cells(self.cells@, self.area))
                    ==> (spec_import(s@, true) matches ImportOutcome::Done(st) && forall|j: CanvasIndex|
                    #[trigger] read_cell(st.cells, j) == read_moved(*self, j))
            }),
    {
        if self.can_export() {
            Some(self.to_ansi())
        } else {
            None
        }
    }
}

} // verus!
