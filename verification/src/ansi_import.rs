use vstd::prelude::*;

use crate::canvas::{default_cell, read_cell, CanvasCell, Canvas};
use crate::rect::{CanvasIndex, CanvasRect};
use crate::style::{spec_modifier_empty, Color, Modifier};
use crate::text::{chars_of, digit_value, is_control, is_digit, spec_is_control, spec_is_digit};

verus! {

/// Why the parameters of an SGR `38` or `48` attribute could not give a color.
#[derive(Debug, Clone, Copy, PartialEq, Eq, Structural)]
pub enum SgrSetColorError {
    MissingParameterSecondValue,
    MissingParameterIndex,
    MissingParametersRGB,
    InvalidParameterNotU8(u64),
    InvalidParameterSecondValue(u64),
}

/// Why a text could not be imported as ANSI art. Indices are the canvas position the import had
/// reached; sequences are the offending escape sequence as written in the text.
#[derive(Debug)]
pub enum AnsiImportError {
    IllegalCharacter(CanvasIndex),
    BadEscapeSequence { index: CanvasIndex, sequence: String },
    UnfinishedEscapeSequence(CanvasIndex),
    BadSgrSetColorParameters { index: CanvasIndex, sequence: String, source: SgrSetColorError },
    BadSgrAttribute { index: CanvasIndex, attribute: u64, sequence: String },
}

/// `AnsiImportError` with its sequences as character sequences.
pub enum ImportErrorSpec {
    IllegalCharacter(CanvasIndex),
    BadEscapeSequence { index: CanvasIndex, sequence: Seq<char> },
    UnfinishedEscapeSequence(CanvasIndex),
    BadSgrSetColorParameters { index: CanvasIndex, sequence: Seq<char>, source: SgrSetColorError },
    BadSgrAttribute { index: CanvasIndex, attribute: u64, sequence: Seq<char> },
}

impl View for AnsiImportError {
    type V = ImportErrorSpec;

    open spec fn view(&self) -> ImportErrorSpec {
        match self {
            AnsiImportError::IllegalCharacter(i) => ImportErrorSpec::IllegalCharacter(*i),
            AnsiImportError::BadEscapeSequence { index, sequence } => {
                ImportErrorSpec::BadEscapeSequence { index: *index, sequence: sequence@ }
            },
            AnsiImportError::UnfinishedEscapeSequence(i) => {
                ImportErrorSpec::UnfinishedEscapeSequence(*i)
            },
            AnsiImportError::BadSgrSetColorParameters { index, sequence, source } => {
                ImportErrorSpec::BadSgrSetColorParameters {
                    index: *index,
                    sequence: sequence@,
                    source: *source,
                }
            },
            AnsiImportError::BadSgrAttribute { index, attribute, sequence } => {
                ImportErrorSpec::BadSgrAttribute {
                    index: *index,
                    attribute: *attribute,
                    sequence: sequence@,
                }
            },
        }
    }
}

/// Why a text could not be imported as plain text.
#[derive(Debug, Clone, Copy, PartialEq, Eq)]
pub enum TxtImportError {
    IllegalCharacter(CanvasIndex),
}

pub open spec fn esc() -> char {
    '\u{1b}'
}

// ---------------------------------------------------------------------------------------------
// The import, stated as a machine that reads the text one character at a time.
// ---------------------------------------------------------------------------------------------

/// The state of the import between two characters.
pub struct ImportState {
    pub row: i16,
    pub col: i16,
    pub fg: Color,
    pub bg: Color,
    pub modifiers: Modifier,
    pub cells: Map<CanvasIndex, CanvasCell>,
    pub area: CanvasRect,
}

/// How an import ends: with a canvas, with an error, or where the import overflows an `i16`
/// index or a `u64` parameter and panics.
pub enum ImportOutcome {
    Done(ImportState),
    Failed(ImportErrorSpec),
    Overflow,
}

pub open spec fn initial_import_state() -> ImportState {
    ImportState {
        row: 0,
        col: 0,
        fg: Color::Reset,
        bg: Color::Reset,
        modifiers: spec_modifier_empty(),
        cells: Map::empty(),
        area: CanvasRect { row: 0, column: 0, rows: 0, columns: 0 },
    }
}

/// The parameters of an SGR sequence, split at `;`.
pub open spec fn sgr_pieces(s: Seq<char>) -> Seq<Seq<char>>
    decreases s.len(),
{
    if s.len() == 0 {
        seq![Seq::<char>::empty()]
    } else {
        let p = sgr_pieces(s.drop_last());
        if s.last() == ';' {
            p.push(Seq::<char>::empty())
        } else {
            p.update(p.len() - 1, p.last().push(s.last()))
        }
    }
}

/// The value of a string of decimal digits; the empty string counts as 0.
pub open spec fn decimal_value(s: Seq<char>) -> int
    decreases s.len(),
{
    if s.len() == 0 {
        0
    } else {
        decimal_value(s.drop_last()) * 10 + digit_value(s.last())
    }
}

pub open spec fn all_digits(s: Seq<char>) -> bool {
    forall|i: int| 0 <= i < s.len() ==> spec_is_digit(#[trigger] s[i])
}

pub open spec fn piece_value(pieces: Seq<Seq<char>>, k: int) -> int {
    decimal_value(pieces[k])
}

/// A color from an SGR `38`/`48` sequence and the number of parameters it took after the `38`
/// or `48`.
pub enum ColorOutcome {
    Parsed(Color),
    Failed(SgrSetColorError),
    Overflow,
}

/// The color given by the parameters from `k` on, as `sgr_set_color` reads them.
pub open spec fn spec_sgr_set_color(pieces: Seq<Seq<char>>, k: int) -> ColorOutcome {
    if k >= pieces.len() {
        ColorOutcome::Failed(SgrSetColorError::MissingParameterSecondValue)
    } else if piece_value(pieces, k) > u64::MAX {
        ColorOutcome::Overflow
    } else if piece_value(pieces, k) == 5 {
        if k + 1 >= pieces.len() {
            ColorOutcome::Failed(SgrSetColorError::MissingParameterIndex)
        } else if piece_value(pieces, k + 1) > u64::MAX {
            ColorOutcome::Overflow
        } else if piece_value(pieces, k + 1) > 255 {
            ColorOutcome::Failed(
                SgrSetColorError::InvalidParameterNotU8(piece_value(pieces, k + 1) as u64),
            )
        } else {
            ColorOutcome::Parsed(Color::Indexed(piece_value(pieces, k + 1) as u8))
        }
    } else if piece_value(pieces, k) == 2 {
        // All three of r, g and b are read before any of them is checked.
        if (k + 1 < pieces.len() && piece_value(pieces, k + 1) > u64::MAX) || (k + 2
            < pieces.len() && piece_value(pieces, k + 2) > u64::MAX) || (k + 3 < pieces.len()
            && piece_value(pieces, k + 3) > u64::MAX) {
            ColorOutcome::Overflow
        } else if k + 3 >= pieces.len() {
            ColorOutcome::Failed(SgrSetColorError::MissingParametersRGB)
        } else if piece_value(pieces, k + 1) > 255 {
            ColorOutcome::Failed(
                SgrSetColorError::InvalidParameterNotU8(piece_value(pieces, k + 1) as u64),
            )
        } else if piece_value(pieces, k + 2) > 255 {
            ColorOutcome::Failed(
                SgrSetColorError::InvalidParameterNotU8(piece_value(pieces, k + 2) as u64),
            )
        } else if piece_value(pieces, k + 3) > 255 {
            ColorOutcome::Failed(
                SgrSetColorError::InvalidParameterNotU8(piece_value(pieces, k + 3) as u64),
            )
        } else {
            ColorOutcome::Parsed(
                Color::Rgb(
                    piece_value(pieces, k + 1) as u8,
                    piece_value(pieces, k + 2) as u8,
                    piece_value(pieces, k + 3) as u8,
                ),
            )
        }
    } else {
        ColorOutcome::Failed(
            SgrSetColorError::InvalidParameterSecondValue(piece_value(pieces, k) as u64),
        )
    }
}

/// The named color of SGR attribute `30 + n` (`40 + n` for backgrounds).
pub open spec fn spec_named_color(n: int) -> Color {
    if n == 0 {
        Color::Black
    } else if n == 1 {
        Color::Red
    } else if n == 2 {
        Color::Green
    } else if n == 3 {
        Color::Yellow
    } else if n == 4 {
        Color::Blue
    } else if n == 5 {
        Color::Magenta
    } else if n == 6 {
        Color::Cyan
    } else {
        Color::Gray
    }
}

/// The bright color of SGR attribute `90 + n` (`100 + n` for backgrounds).
pub open spec fn spec_bright_color(n: int) -> Color {
    if n == 0 {
        Color::DarkGray
    } else if n == 1 {
        Color::LightRed
    } else if n == 2 {
        Color::LightGreen
    } else if n == 3 {
        Color::LightYellow
    } else if n == 4 {
        Color::LightBlue
    } else if n == 5 {
        Color::LightMagenta
    } else if n == 6 {
        Color::LightCyan
    } else {
        Color::White
    }
}

/// The modifier that SGR attribute `n` (1 to 9) turns on.
pub open spec fn spec_sgr_modifier(n: int) -> Modifier {
    let e = spec_modifier_empty();
    if n == 1 {
        Modifier { bold: true, ..e }
    } else if n == 2 {
        Modifier { dim: true, ..e }
    } else if n == 3 {
        Modifier { italic: true, ..e }
    } else if n == 4 {
        Modifier { underlined: true, ..e }
    } else if n == 5 {
        Modifier { slow_blink: true, ..e }
    } else if n == 6 {
        Modifier { rapid_blink: true, ..e }
    } else if n == 7 {
        Modifier { reversed: true, ..e }
    } else if n == 8 {
        Modifier { hidden: true, ..e }
    } else {
        Modifier { crossed_out: true, ..e }
    }
}

pub enum SgrOutcome {
    Applied(Color, Color, Modifier),
    Failed(ImportErrorSpec),
    Overflow,
}

/// The effect of the SGR attributes from parameter `k` on.
pub open spec fn spec_apply_sgr(
    pieces: Seq<Seq<char>>,
    k: int,
    fg: Color,
    bg: Color,
    m: Modifier,
    index: CanvasIndex,
    sequence: Seq<char>,
) -> SgrOutcome
    decreases pieces.len() - k,
{
    if k < 0 || k >= pieces.len() {
        SgrOutcome::Applied(fg, bg, m)
    } else {
        let v = piece_value(pieces, k);
        if v > u64::MAX {
            SgrOutcome::Overflow
        } else if v == 0 {
            spec_apply_sgr(
                pieces,
                k + 1,
                Color::Reset,
                Color::Reset,
                spec_modifier_empty(),
                index,
                sequence,
            )
        } else if 1 <= v <= 9 {
            spec_apply_sgr(pieces, k + 1, fg, bg, m.spec_union(spec_sgr_modifier(v)), index, sequence)
        } else if 30 <= v <= 37 {
            spec_apply_sgr(pieces, k + 1, spec_named_color(v - 30), bg, m, index, sequence)
        } else if 40 <= v <= 47 {
            spec_apply_sgr(pieces, k + 1, fg, spec_named_color(v - 40), m, index, sequence)
        } else if 90 <= v <= 97 {
            spec_apply_sgr(pieces, k + 1, spec_bright_color(v - 90), bg, m, index, sequence)
        } else if 100 <= v <= 107 {
            spec_apply_sgr(pieces, k + 1, fg, spec_bright_color(v - 100), m, index, sequence)
        } else if v == 38 || v == 48 {
            let used = if k + 1 < pieces.len() && piece_value(pieces, k + 1) == 5 {
                2int
            } else {
                4int
            };
            match spec_sgr_set_color(pieces, k + 1) {
                ColorOutcome::Parsed(c) => {
                    if v == 38 {
                        spec_apply_sgr(pieces, k + 1 + used, c, bg, m, index, sequence)
                    } else {
                        spec_apply_sgr(pieces, k + 1 + used, fg, c, m, index, sequence)
                    }
                },
                ColorOutcome::Failed(e) => SgrOutcome::Failed(
                    ImportErrorSpec::BadSgrSetColorParameters { index, sequence, source: e },
                ),
                ColorOutcome::Overflow => SgrOutcome::Overflow,
            }
        } else if v == 39 {
            spec_apply_sgr(pieces, k + 1, Color::Reset, bg, m, index, sequence)
        } else if v == 49 {
            spec_apply_sgr(pieces, k + 1, fg, Color::Reset, m, index, sequence)
        } else {
            SgrOutcome::Failed(
                ImportErrorSpec::BadSgrAttribute { index, attribute: v as u64, sequence },
            )
        }
    }
}

pub enum ScanOutcome {
    Terminated(int),
    Bad(int),
    Unfinished,
}

/// Reads the parameters of a CSI sequence from position `j` on up to its terminating `m`.
pub open spec fn spec_scan_sgr(cs: Seq<char>, j: int) -> ScanOutcome
    decreases cs.len() - j,
{
    if j < 0 || j >= cs.len() {
        ScanOutcome::Unfinished
    } else if cs[j] == 'm' {
        ScanOutcome::Terminated(j)
    } else if spec_is_digit(cs[j]) || cs[j] == ';' {
        spec_scan_sgr(cs, j + 1)
    } else {
        ScanOutcome::Bad(j)
    }
}

pub proof fn lemma_scan_sgr(cs: Seq<char>, j: int)
    requires
        0 <= j,
    ensures
        match spec_scan_sgr(cs, j) {
            ScanOutcome::Terminated(e) => j <= e < cs.len() && cs[e] == 'm' && forall|t: int|
                j <= t < e ==> (spec_is_digit(#[trigger] cs[t]) || cs[t] == ';'),
            ScanOutcome::Bad(e) => j <= e < cs.len() && !(cs[e] == 'm') && !spec_is_digit(cs[e])
                && cs[e] != ';' && forall|t: int|
                j <= t < e ==> (spec_is_digit(#[trigger] cs[t]) || cs[t] == ';'),
            ScanOutcome::Unfinished => forall|t: int|
                j <= t < cs.len() ==> (spec_is_digit(#[trigger] cs[t]) || cs[t] == ';'),
        },
    decreases cs.len() - j,
{
    if j < cs.len() && cs[j] != 'm' && (spec_is_digit(cs[j]) || cs[j] == ';') {
        lemma_scan_sgr(cs, j + 1);
    }
}

pub enum EscapeOutcome {
    Applied(int, Color, Color, Modifier),
    Failed(ImportErrorSpec),
    Overflow,
}

/// The escape sequence whose `ESC` stands just before position `i`.
pub open spec fn spec_escape(
    cs: Seq<char>,
    i: int,
    index: CanvasIndex,
    fg: Color,
    bg: Color,
    m: Modifier,
) -> EscapeOutcome {
    if i < 0 || i >= cs.len() {
        EscapeOutcome::Failed(ImportErrorSpec::UnfinishedEscapeSequence(index))
    } else if cs[i] != '[' {
        EscapeOutcome::Failed(
            ImportErrorSpec::BadEscapeSequence {
                index,
                sequence: seq![esc(), cs[i], '.', '.', '.'],
            },
        )
    } else {
        match spec_scan_sgr(cs, i + 1) {
            ScanOutcome::Unfinished => EscapeOutcome::Failed(
                ImportErrorSpec::UnfinishedEscapeSequence(index),
            ),
            ScanOutcome::Bad(j) => EscapeOutcome::Failed(
                ImportErrorSpec::BadEscapeSequence {
                    index,
                    sequence: seq![esc(), '['] + cs.subrange(i + 1, j) + seq![
                        cs[j],
                        '.',
                        '.',
                        '.',
                    ],
                },
            ),
            ScanOutcome::Terminated(e) => {
                let body = cs.subrange(i + 1, e);
                match spec_apply_sgr(
                    sgr_pieces(body),
                    0,
                    fg,
                    bg,
                    m,
                    index,
                    seq![esc(), '['] + body + seq!['m'],
                ) {
                    SgrOutcome::Applied(f, b, mm) => EscapeOutcome::Applied(e + 1, f, b, mm),
                    SgrOutcome::Failed(err) => EscapeOutcome::Failed(err),
                    SgrOutcome::Overflow => EscapeOutcome::Overflow,
                }
            },
        }
    }
}

pub proof fn lemma_escape_advances(
    cs: Seq<char>,
    i: int,
    index: CanvasIndex,
    fg: Color,
    bg: Color,
    m: Modifier,
)
    requires
        0 <= i,
    ensures
        match spec_escape(cs, i, index, fg, bg, m) {
            EscapeOutcome::Applied(n, _, _, _) => i < n <= cs.len(),
            _ => true,
        },
{
    if 0 <= i < cs.len() && cs[i] == '[' {
        lemma_scan_sgr(cs, i + 1);
    }
}

pub open spec fn include_checked(a: Option<CanvasRect>, index: CanvasIndex) -> Option<
    CanvasRect,
> {
    match a {
        Some(r) => if r.include_fits(index) {
            Some(r.spec_include(index))
        } else {
            None
        },
        None => None,
    }
}

pub open spec fn blank_style(fg: Color, bg: Color, m: Modifier) -> bool {
    fg == Color::Reset && bg == Color::Reset && m == spec_modifier_empty()
}

/// The state after printing character `c` at the current position, before the column moves on;
/// `None` where the area overflows. A space in the default style is not stored, but its position
/// joins the area.
pub open spec fn spec_print(st: ImportState, c: char) -> Option<ImportState> {
    let index = (st.row, st.col);
    if !(c == ' ' && blank_style(st.fg, st.bg, st.modifiers)) {
        let a = include_checked(
            include_checked(
                include_checked(include_checked(Some(st.area), index), index),
                index,
            ),
            index,
        );
        match a {
            Some(area) => Some(
                ImportState {
                    cells: st.cells.insert(
                        index,
                        CanvasCell {
                            character: c,
                            fg: st.fg,
                            bg: st.bg,
                            modifiers: st.modifiers,
                        },
                    ),
                    area,
                    ..st
                },
            ),
            None => None,
        }
    } else {
        match include_checked(Some(st.area), index) {
            Some(area) => Some(ImportState { area, ..st }),
            None => None,
        }
    }
}

/// The import of `cs` from position `i` on, starting in state `st`.
pub open spec fn spec_import_from(
    cs: Seq<char>,
    i: int,
    st: ImportState,
    allow_sgr: bool,
) -> ImportOutcome
    decreases cs.len() - i,
{
    if i < 0 || i >= cs.len() {
        ImportOutcome::Done(st)
    } else {
        let c = cs[i];
        if spec_is_control(c) {
            if c == '\r' {
                spec_import_from(cs, i + 1, ImportState { col: 0, ..st }, allow_sgr)
            } else if c == '\n' {
                if st.row == i16::MAX {
                    ImportOutcome::Overflow
                } else {
                    spec_import_from(
                        cs,
                        i + 1,
                        ImportState { col: 0, row: (st.row + 1) as i16, ..st },
                        allow_sgr,
                    )
                }
            } else if c == esc() && allow_sgr {
                proof {
                    lemma_escape_advances(cs, i + 1, (st.row, st.col), st.fg, st.bg, st.modifiers);
                }
                match spec_escape(cs, i + 1, (st.row, st.col), st.fg, st.bg, st.modifiers) {
                    EscapeOutcome::Applied(n, f, b, mm) => spec_import_from(
                        cs,
                        n,
                        ImportState { fg: f, bg: b, modifiers: mm, ..st },
                        allow_sgr,
                    ),
                    EscapeOutcome::Failed(e) => ImportOutcome::Failed(e),
                    EscapeOutcome::Overflow => ImportOutcome::Overflow,
                }
            } else {
                ImportOutcome::Failed(ImportErrorSpec::IllegalCharacter((st.row, st.col)))
            }
        } else {
            match spec_print(st, c) {
                Some(st2) => if st.col == i16::MAX {
                    ImportOutcome::Overflow
                } else {
                    spec_import_from(
                        cs,
                        i + 1,
                        ImportState { col: (st.col + 1) as i16, ..st2 },
                        allow_sgr,
                    )
                },
                None => ImportOutcome::Overflow,
            }
        }
    }
}

/// How importing `cs` ends.
pub open spec fn spec_import(cs: Seq<char>, allow_sgr: bool) -> ImportOutcome {
    spec_import_from(cs, 0, initial_import_state(), allow_sgr)
}

// ---------------------------------------------------------------------------------------------
// Lemmas
// ---------------------------------------------------------------------------------------------

pub proof fn lemma_decimal_prefix(s: Seq<char>, k: int)
    requires
        all_digits(s),
        0 <= k <= s.len(),
    ensures
        0 <= decimal_value(s.take(k)) <= decimal_value(s),
    decreases s.len(),
{
    if k == s.len() {
        assert(s.take(k) =~= s);
        if s.len() > 0 {
            lemma_decimal_prefix(s.drop_last(), s.len() - 1);
            assert(s.drop_last().take(s.len() - 1) =~= s.drop_last());
        }
    } else {
        lemma_decimal_prefix(s.drop_last(), k);
        assert(s.drop_last().take(k) =~= s.take(k));
        lemma_decimal_prefix(s.drop_last(), s.len() - 1);
        assert(s.drop_last().take(s.len() - 1) =~= s.drop_last());
    }
}

pub open spec fn digits_or_semicolons(s: Seq<char>) -> bool {
    forall|i: int| 0 <= i < s.len() ==> (spec_is_digit(#[trigger] s[i]) || s[i] == ';')
}

pub proof fn lemma_sgr_pieces_digits(s: Seq<char>)
    requires
        digits_or_semicolons(s),
    ensures
        sgr_pieces(s).len() >= 1,
        forall|q: int| 0 <= q < sgr_pieces(s).len() ==> all_digits(#[trigger] sgr_pieces(s)[q]),
    decreases s.len(),
{
    if s.len() > 0 {
        lemma_sgr_pieces_digits(s.drop_last());
        let p = sgr_pieces(s.drop_last());
        if s.last() != ';' {
            assert(spec_is_digit(s[s.len() - 1]));
            let q = p.last().push(s.last());
            assert(all_digits(q)) by {
                assert forall|i: int| 0 <= i < q.len() implies spec_is_digit(#[trigger] q[i]) by {
                    if i < q.len() - 1 {
                        assert(q[i] == p.last()[i]);
                    }
                }
            }
        }
    }
}

pub open spec fn pieces_view(v: Seq<Vec<char>>) -> Seq<Seq<char>> {
    v.map_values(|p: Vec<char>| p@)
}

// ---------------------------------------------------------------------------------------------
// The import itself
// ---------------------------------------------------------------------------------------------

/// Appends `cs[from..to]` to `out`.
fn push_chars(out: &mut String, cs: &Vec<char>, from: usize, to: usize)
    requires
        from <= to <= cs@.len(),
    ensures
        final(out)@ == old(out)@ + cs@.subrange(from as int, to as int),
{
    let mut i = from;
    while i < to
        invariant
            from <= i <= to <= cs@.len(),
            out@ == old(out)@ + cs@.subrange(from as int, i as int),
        decreases to - i,
    {
        out.push(cs[i]);
        assert(cs@.subrange(from as int, i + 1) =~= cs@.subrange(from as int, i as int).push(
            cs@[i as int],
        ));
        i += 1;
    }
}

/// The decimal value of the digits `p`, where it fits in a `u64`; `None` elsewhere.
fn parse_decimal(p: &Vec<char>) -> (r: Option<u64>)
    requires
        all_digits(p@),
    ensures
        r is Some <==> decimal_value(p@) <= u64::MAX,
        r matches Some(v) ==> v == decimal_value(p@),
{
    let mut acc: u64 = 0;
    let mut j: usize = 0;
    assert(p@.take(0) =~= Seq::<char>::empty());
    while j < p.len()
        invariant
            all_digits(p@),
            0 <= j <= p@.len(),
            acc == decimal_value(p@.take(j as int)),
        decreases p@.len() - j,
    {
        let c = p[j];
        assert(spec_is_digit(p@[j as int]));
        let d = (c as u32 - '0' as u32) as u64;
        proof {
            assert(p@.take(j + 1).drop_last() =~= p@.take(j as int));
            assert(p@.take(j + 1).last() == c);
        }
        if acc > (u64::MAX - d) / 10 {
            proof {
                assert(acc * 10 + d > u64::MAX) by (nonlinear_arith)
                    requires
                        acc > (u64::MAX - d) / 10,
                        d <= 9,
                ;
                lemma_decimal_prefix(p@, j + 1);
            }
            return None;
        }
        proof {
            assert(acc * 10 + d <= u64::MAX) by (nonlinear_arith)
                requires
                    acc <= (u64::MAX - d) / 10,
                    d <= 9,
            ;
        }
        acc = acc * 10 + d;
        j += 1;
    }
    assert(p@.take(j as int) =~= p@);
    Some(acc)
}

/// Reads the parameters of an SGR `38`/`48` attribute from piece `k` on; `None` where a
/// parameter it reads overflows a `u64`.
fn sgr_set_color(pieces: &Vec<Vec<char>>, k: usize) -> (r: Option<Result<Color, SgrSetColorError>>)
    requires
        forall|q: int|
            0 <= q < pieces@.len() ==> all_digits(#[trigger] pieces_view(pieces@)[q]),
    ensures
        match spec_sgr_set_color(pieces_view(pieces@), k as int) {
            ColorOutcome::Parsed(c) => r == Some(Ok::<Color, SgrSetColorError>(c)),
            ColorOutcome::Failed(e) => r == Some(Err::<Color, SgrSetColorError>(e)),
            ColorOutcome::Overflow => r is None,
        },
{
    let ghost pv = pieces_view(pieces@);
    if k >= pieces.len() {
        return Some(Err(SgrSetColorError::MissingParameterSecondValue));
    }
    assert(pv[k as int] == pieces@[k as int]@);
    let second = match parse_decimal(&pieces[k]) {
        Some(v) => v,
        None => {
            return None;
        },
    };
    if second == 5 {
        if k + 1 >= pieces.len() {
            return Some(Err(SgrSetColorError::MissingParameterIndex));
        }
        assert(pv[k + 1] == pieces@[k + 1]@);
        let index = match parse_decimal(&pieces[k + 1]) {
            Some(v) => v,
            None => {
                return None;
            },
        };
        if index > 255 {
            return Some(Err(SgrSetColorError::InvalidParameterNotU8(index)));
        }
        Some(Ok(Color::Indexed(index as u8)))
    } else if second == 2 {
        // All three of r, g and b are read before any of them is checked.
        let r = if pieces.len() - k > 1 {
            assert(pv[k + 1] == pieces@[k + 1]@);
            match parse_decimal(&pieces[k + 1]) {
                Some(v) => v,
                None => {
                    return None;
                },
            }
        } else {
            0
        };
        let g = if pieces.len() - k > 2 {
            assert(pv[k + 2] == pieces@[k + 2]@);
            match parse_decimal(&pieces[k + 2]) {
                Some(v) => v,
                None => {
                    return None;
                },
            }
        } else {
            0
        };
        let b = if pieces.len() - k > 3 {
            assert(pv[k + 3] == pieces@[k + 3]@);
            match parse_decimal(&pieces[k + 3]) {
                Some(v) => v,
                None => {
                    return None;
                },
            }
        } else {
            0
        };
        if pieces.len() - k <= 3 {
            return Some(Err(SgrSetColorError::MissingParametersRGB));
        }

        if r > 255 {
            return Some(Err(SgrSetColorError::InvalidParameterNotU8(r)));
        }
        if g > 255 {
            return Some(Err(SgrSetColorError::InvalidParameterNotU8(g)));
        }
        if b > 255 {
            return Some(Err(SgrSetColorError::InvalidParameterNotU8(b)));
        }
        Some(Ok(Color::Rgb(r as u8, g as u8, b as u8)))
    } else {
        Some(Err(SgrSetColorError::InvalidParameterSecondValue(second)))
    }
}

/// Splits SGR parameters at `;`.
fn split_pieces(body: &Vec<char>) -> (r: Vec<Vec<char>>)
    ensures
        pieces_view(r@) == sgr_pieces(body@),
{
    let mut pieces: Vec<Vec<char>> = Vec::new();
    pieces.push(Vec::new());
    let mut j: usize = 0;
    assert(body@.take(0) =~= Seq::<char>::empty());
    assert(pieces_view(pieces@) =~= sgr_pieces(body@.take(0)));
    while j < body.len()
        invariant
            0 <= j <= body@.len(),
            pieces@.len() >= 1,
            pieces_view(pieces@) == sgr_pieces(body@.take(j as int)),
        decreases body@.len() - j,
    {
        let c = body[j];
        let ghost before = pieces_view(pieces@);
        assert(body@.take(j + 1).drop_last() =~= body@.take(j as int));
        if c == ';' {
            pieces.push(Vec::new());
            assert(pieces_view(pieces@) =~= before.push(Seq::<char>::empty()));
        } else {
            let mut last = pieces.pop().unwrap();
            last.push(c);
            pieces.push(last);
            assert(pieces_view(pieces@) =~= before.update(
                before.len() - 1,
                before.last().push(c),
            ));
        }
        j += 1;
    }
    assert(body@.take(j as int) =~= body@);
    pieces
}

fn named_color(n: u64) -> (c: Color)
    requires
        n <= 7,
    ensures
        c == spec_named_color(n as int),
{
    if n == 0 {
        Color::Black
    } else if n == 1 {
        Color::Red
    } else if n == 2 {
        Color::Green
    } else if n == 3 {
        Color::Yellow
    } else if n == 4 {
        Color::Blue
    } else if n == 5 {
        Color::Magenta
    } else if n == 6 {
        Color::Cyan
    } else {
        Color::Gray
    }
}

fn bright_color(n: u64) -> (c: Color)
    requires
        n <= 7,
    ensures
        c == spec_bright_color(n as int),
{
    if n == 0 {
        Color::DarkGray
    } else if n == 1 {
        Color::LightRed
    } else if n == 2 {
        Color::LightGreen
    } else if n == 3 {
        Color::LightYellow
    } else if n == 4 {
        Color::LightBlue
    } else if n == 5 {
        Color::LightMagenta
    } else if n == 6 {
        Color::LightCyan
    } else {
        Color::White
    }
}

fn sgr_modifier(n: u64) -> (m: Modifier)
    requires
        1 <= n <= 9,
    ensures
        m == spec_sgr_modifier(n as int),
{
    if n == 1 {
        Modifier::bold()
    } else if n == 2 {
        Modifier::dim()
    } else if n == 3 {
        Modifier::italic()
    } else if n == 4 {
        Modifier::underlined()
    } else if n == 5 {
        Modifier::slow_blink()
    } else if n == 6 {
        Modifier::rapid_blink()
    } else if n == 7 {
        Modifier::reversed()
    } else if n == 8 {
        Modifier::hidden()
    } else {
        Modifier::crossed_out()
    }
}

/// The string `ESC [ body m`.
fn full_sequence(body: &Vec<char>) -> (s: String)
    ensures
        s@ == seq![esc(), '['] + body@ + seq!['m'],
{
    let mut s = String::new();
    s.push('\u{1b}');
    s.push('[');
    push_chars(&mut s, body, 0, body.len());
    s.push('m');
    assert(body@.subrange(0, body@.len() as int) =~= body@);
    assert(s@ =~= seq![esc(), '['] + body@ + seq!['m']);
    s
}

/// Applies the attributes of an SGR sequence to the current colors and modifiers.
fn apply_sgr(
    pieces: &Vec<Vec<char>>,
    body: &Vec<char>,
    index: CanvasIndex,
    fg: Color,
    bg: Color,
    m: Modifier,
) -> (r: Option<Result<(Color, Color, Modifier), AnsiImportError>>)
    requires
        forall|q: int|
            0 <= q < pieces@.len() ==> all_digits(#[trigger] pieces_view(pieces@)[q]),
    ensures
        match spec_apply_sgr(
            pieces_view(pieces@),
            0,
            fg,
            bg,
            m,
            index,
            seq![esc(), '['] + body@ + seq!['m'],
        ) {
            SgrOutcome::Applied(f, b, mm) => r matches Some(Ok(t)) && t == (f, b, mm),
            SgrOutcome::Failed(e) => r matches Some(Err(x)) && x@ == e,
            SgrOutcome::Overflow => r is None,
        },
{
    let ghost pv = pieces_view(pieces@);
    let ghost sq = seq![esc(), '['] + body@ + seq!['m'];
    let ghost goal = spec_apply_sgr(pv, 0, fg, bg, m, index, sq);
    let mut cur_fg = fg;
    let mut cur_bg = bg;
    let mut cur_m = m;
    let mut k: usize = 0;
    while k < pieces.len()
        invariant
            pv == pieces_view(pieces@),
            sq == seq![esc(), '['] + body@ + seq!['m'],
            forall|q: int| 0 <= q < pieces@.len() ==> all_digits(#[trigger] pv[q]),
            0 <= k <= pieces@.len(),
            spec_apply_sgr(pv, k as int, cur_fg, cur_bg, cur_m, index, sq) == goal,
            goal == spec_apply_sgr(pv, 0, fg, bg, m, index, sq),
        decreases pieces@.len() - k,
    {
        assert(pv[k as int] == pieces@[k as int]@);
        let v = match parse_decimal(&pieces[k]) {
            Some(v) => v,
            None => {
                return None;
            },
        };
        if v == 0 {
            cur_fg = Color::Reset;
            cur_bg = Color::Reset;
            cur_m = Modifier::empty();
            k += 1;
        } else if 1 <= v && v <= 9 {
            cur_m = cur_m.union(sgr_modifier(v));
            k += 1;
        } else if 30 <= v && v <= 37 {
            cur_fg = named_color(v - 30);
            k += 1;
        } else if 40 <= v && v <= 47 {
            cur_bg = named_color(v - 40);
            k += 1;
        } else if 90 <= v && v <= 97 {
            cur_fg = bright_color(v - 90);
            k += 1;
        } else if 100 <= v && v <= 107 {
            cur_bg = bright_color(v - 100);
            k += 1;
        } else if v == 38 || v == 48 {
            let used: usize = if k + 1 < pieces.len() && {
                assert(pv[k + 1] == pieces@[k + 1]@);
                parse_decimal(&pieces[k + 1]) == Some(5u64)
            } {
                2
            } else {
                4
            };
            match sgr_set_color(pieces, k + 1) {
                None => {
                    return None;
                },
                Some(Ok(c)) => {
                    if v == 38 {
                        cur_fg = c;
                    } else {
                        cur_bg = c;
                    }
                    if k + 1 + used >= pieces.len() {
                        k = pieces.len();
                    } else {
                        k = k + 1 + used;
                    }
                },
                Some(Err(source)) => {
                    let sequence = full_sequence(body);
                    return Some(Err(AnsiImportError::BadSgrSetColorParameters { index, sequence, source }));
                },
            }
        } else if v == 39 {
            cur_fg = Color::Reset;
            k += 1;
        } else if v == 49 {
            cur_bg = Color::Reset;
            k += 1;
        } else {
            let sequence = full_sequence(body);
            return Some(Err(AnsiImportError::BadSgrAttribute { index, attribute: v, sequence }));
        }
    }
    Some(Ok((cur_fg, cur_bg, cur_m)))
}

/// Handles the escape sequence whose `ESC` stands just before position `i`; on success gives the
/// position after the sequence and the new colors and modifiers.
fn escape_sequence(
    cs: &Vec<char>,
    i: usize,
    index: CanvasIndex,
    fg: Color,
    bg: Color,
    m: Modifier,
) -> (r: Option<Result<(usize, Color, Color, Modifier), AnsiImportError>>)
    requires
        i <= cs@.len(),
    ensures
        match spec_escape(cs@, i as int, index, fg, bg, m) {
            EscapeOutcome::Applied(n, f, b, mm) => r matches Some(Ok(t)) && t.0 == n && t.1 == f
                && t.2 == b && t.3 == mm,
            EscapeOutcome::Failed(e) => r matches Some(Err(x)) && x@ == e,
            EscapeOutcome::Overflow => r is None,
        },
{
    if i >= cs.len() {
        return Some(Err(AnsiImportError::UnfinishedEscapeSequence(index)));
    }
    let c = cs[i];
    if c != '[' {
        let mut sequence = String::new();
        sequence.push('\u{1b}');
        sequence.push(c);
        sequence.push('.');
        sequence.push('.');
        sequence.push('.');
        assert(sequence@ =~= seq![esc(), c, '.', '.', '.']);
        return Some(Err(AnsiImportError::BadEscapeSequence { index, sequence }));
    }
    let mut j = i + 1;
    let mut body: Vec<char> = Vec::new();
    proof {
        lemma_scan_sgr(cs@, i + 1);
    }
    while j < cs.len() && cs[j] != 'm'
        invariant
            i + 1 <= j <= cs@.len(),
            i < cs@.len(),
            cs@[i as int] == '[',
            body@ == cs@.subrange(i + 1, j as int),
            spec_scan_sgr(cs@, j as int) == spec_scan_sgr(cs@, i + 1),
            digits_or_semicolons(body@),
        decreases cs@.len() - j,
    {
        let ch = cs[j];
        if is_digit(ch) || ch == ';' {
            body.push(ch);
            j += 1;
            assert(body@ =~= cs@.subrange(i + 1, j as int));
        } else {
            let mut sequence = String::new();
            sequence.push('\u{1b}');
            sequence.push('[');
            push_chars(&mut sequence, cs, i + 1, j);
            sequence.push(ch);
            sequence.push('.');
            sequence.push('.');
            sequence.push('.');
            assert(sequence@ =~= seq![esc(), '['] + cs@.subrange(i + 1, j as int) + seq![
                ch,
                '.',
                '.',
                '.',
            ]);
            return Some(Err(AnsiImportError::BadEscapeSequence { index, sequence }));
        }
    }
    if j >= cs.len() {
        return Some(Err(AnsiImportError::UnfinishedEscapeSequence(index)));
    }
    let pieces = split_pieces(&body);
    proof {
        lemma_sgr_pieces_digits(body@);
    }
    match apply_sgr(&pieces, &body, index, fg, bg, m) {
        Some(Ok((f, b, mm))) => Some(Ok((j + 1, f, b, mm))),
        Some(Err(e)) => Some(Err(e)),
        None => None,
    }
}

pub open spec fn import_state(
    row: i16,
    col: i16,
    fg: Color,
    bg: Color,
    m: Modifier,
    canvas: Canvas,
) -> ImportState {
    ImportState { row, col, fg, bg, modifiers: m, cells: canvas.cell_map(), area: canvas.area }
}

/// Prints character `c` at `index` in the given style (see `spec_print`).
fn print_char(canvas: &mut Canvas, index: CanvasIndex, c: char, fg: Color, bg: Color, m: Modifier)
    requires
        old(canvas).wf(),
        spec_print(import_state(index.0, index.1, fg, bg, m, *old(canvas)), c) is Some,
    ensures
        final(canvas).wf(),
        spec_print(import_state(index.0, index.1, fg, bg, m, *old(canvas)), c) == Some(
            import_state(index.0, index.1, fg, bg, m, *final(canvas)),
        ),
{
    let ghost c0 = canvas.spec_cell(index);
    let ghost m0 = canvas.cell_map();
    let blank = c == ' ' && fg == Color::Reset && bg == Color::Reset && m.is_empty();
    if !blank {
        canvas.set_character(index, c);
        assert(canvas.spec_cell(index) == CanvasCell { character: c, ..c0 });
        canvas.set_fg(index, fg);
        assert(canvas.spec_cell(index) == CanvasCell { character: c, fg: fg, ..c0 });
        canvas.set_bg(index, bg);
        assert(canvas.spec_cell(index) == CanvasCell { character: c, fg: fg, bg: bg, ..c0 });
        canvas.set_modifiers(index, m);
        assert(canvas.cell_map() =~= m0.insert(
            index,
            CanvasCell { character: c, fg: fg, bg: bg, modifiers: m },
        ));
    } else {
        canvas.area.include_index(index);
    }
}

/// Whether printing `c` at `index` keeps the area in range (see `spec_print`).
fn print_fits(canvas: &Canvas, index: CanvasIndex, c: char, fg: Color, bg: Color, m: Modifier) -> (b: bool)
    ensures
        b == spec_print(import_state(index.0, index.1, fg, bg, m, *canvas), c) is Some,
{
    let blank = c == ' ' && fg == Color::Reset && bg == Color::Reset && m.is_empty();
    let mut a = canvas.area;
    let times: usize = if blank {
        1
    } else {
        4
    };
    let ghost start = Some(canvas.area);
    let ghost mut res = start;
    assert(blank == (c == ' ' && blank_style(fg, bg, m)));
    let mut t: usize = 0;
    while t < times
        invariant
            0 <= t <= times,
            res == Some(a),
            times == (if blank { 1usize } else { 4usize }),
            blank == (c == ' ' && blank_style(fg, bg, m)),
            start == Some(canvas.area),
            include_n(start, index, t as nat) == res,
        decreases times - t,
    {
        if !a.can_include_index(index) {
            proof {
                lemma_include_n_none(start, index, t as nat, times as nat);
                reveal_with_fuel(include_n, 5);
            }
            return false;
        }
        a.include_index(index);
        proof {
            res = Some(a);
        }
        t += 1;
    }
    proof {
        reveal_with_fuel(include_n, 5);
    }
    true
}

/// `include_checked` applied `n` times.
pub open spec fn include_n(a: Option<CanvasRect>, index: CanvasIndex, n: nat) -> Option<CanvasRect>
    decreases n,
{
    if n == 0 {
        a
    } else {
        include_checked(include_n(a, index, (n - 1) as nat), index)
    }
}

proof fn lemma_include_n_none(a: Option<CanvasRect>, index: CanvasIndex, t: nat, n: nat)
    requires
        t < n,
        include_checked(include_n(a, index, t), index) is None,
    ensures
        include_n(a, index, n) is None,
    decreases n - t,
{
    if t + 1 < n {
        lemma_include_n_none(a, index, t + 1, n);
    }
}

impl Canvas {
    /// Imports ANSI art (`allow_sgr_sequences`) or plain text: each line of the text becomes a
    /// row of the canvas, from row 0 and column 0 on. Spaces in the default style are not
    /// stored; carriage returns go back to the start of the line; SGR escape sequences set the
    /// colors and modifiers of the characters that follow.
    pub fn from_ansi_or_txt(ansi: String, allow_sgr_sequences: bool) -> (r: Result<
        Canvas,
        AnsiImportError,
    >)
        requires
            !(spec_import(ansi@, allow_sgr_sequences) is Overflow),
        ensures
            match spec_import(ansi@, allow_sgr_sequences) {
                ImportOutcome::Done(st) => r matches Ok(c) && c.wf() && c.cell_map() == st.cells
                    && c.area == st.area,
                ImportOutcome::Failed(e) => r matches Err(x) && x@ == e,
                ImportOutcome::Overflow => false,
            },
    {
        match Self::try_from_ansi_or_txt(ansi, allow_sgr_sequences) {
            Some(r) => r,
            None => Err(AnsiImportError::UnfinishedEscapeSequence((0, 0))),
        }
    }

    /// `from_ansi_or_txt`, where the import stays in range; `None` where an index or an SGR
    /// number of the text leaves its range.
    pub fn try_from_ansi_or_txt(ansi: String, allow_sgr_sequences: bool) -> (r: Option<
        Result<Canvas, AnsiImportError>,
    >)
        ensures
            match spec_import(ansi@, allow_sgr_sequences) {
                ImportOutcome::Done(st) => r matches Some(Ok(c)) && c.wf() && c.cell_map()
                    == st.cells && c.area == st.area,
                ImportOutcome::Failed(e) => r matches Some(Err(x)) && x@ == e,
                ImportOutcome::Overflow => r is None,
            },
    {
        let cs = chars_of(ansi.as_str());
        let ghost goal = spec_import(cs@, allow_sgr_sequences);
        let mut canvas = Canvas::new();
        let mut fg = Color::Reset;
        let mut bg = Color::Reset;
        let mut m = Modifier::empty();
        let mut row: i16 = 0;
        let mut col: i16 = 0;
        let mut i: usize = 0;
        assert(import_state(row, col, fg, bg, m, canvas) == initial_import_state());
        while i < cs.len()
            invariant
                canvas.wf(),
                cs@ == ansi@,
                0 <= i <= cs@.len(),
                goal == spec_import(cs@, allow_sgr_sequences),
                spec_import_from(
                    cs@,
                    i as int,
                    import_state(row, col, fg, bg, m, canvas),
                    allow_sgr_sequences,
                ) == goal,
            decreases cs@.len() - i,
        {
            let c = cs[i];
            let ghost st = import_state(row, col, fg, bg, m, canvas);
            if is_control(c) {
                if c == '\r' {
                    col = 0;
                    i += 1;
                } else if c == '\n' {
                    if row == i16::MAX {
                        return None;
                    }
                    col = 0;
                    row += 1;
                    i += 1;
                } else if c == '\u{1b}' && allow_sgr_sequences {
                    proof {
                        lemma_escape_advances(cs@, i + 1, (row, col), fg, bg, m);
                    }
                    match escape_sequence(&cs, i + 1, (row, col), fg, bg, m) {
                        Some(Ok((n, f, b, mm))) => {
                            fg = f;
                            bg = b;
                            m = mm;
                            i = n;
                        },
                        Some(Err(e)) => {
                            return Some(Err(e));
                        },
                        None => {
                            return None;
                        },
                    }
                } else {
                    return Some(Err(AnsiImportError::IllegalCharacter((row, col))));
                }
            } else {
                if !print_fits(&canvas, (row, col), c, fg, bg, m) {
                    return None;
                }
                print_char(&mut canvas, (row, col), c, fg, bg, m);
                if col == i16::MAX {
                    return None;
                }
                col += 1;
                i += 1;
            }
        }
        Some(Ok(canvas))
    }

    /// Imports ANSI art: `from_ansi_or_txt` with SGR sequences allowed.
    pub fn from_ansi(ansi: String) -> (r: Result<Canvas, AnsiImportError>)
        requires
            !(spec_import(ansi@, true) is Overflow),
        ensures
            match spec_import(ansi@, true) {
                ImportOutcome::Done(st) => r matches Ok(c) && c.wf() && c.cell_map() == st.cells
                    && c.area == st.area,
                ImportOutcome::Failed(e) => r matches Err(x) && x@ == e,
                ImportOutcome::Overflow => false,
            },
    {
        Canvas::from_ansi_or_txt(ansi, true)
    }
}

/// Without SGR sequences the only error an import can end in is an illegal character.
pub proof fn lemma_txt_import_errors(cs: Seq<char>, i: int, st: ImportState)
    ensures
        match spec_import_from(cs, i, st, false) {
            ImportOutcome::Failed(e) => e is IllegalCharacter,
            _ => true,
        },
    decreases cs.len() - i,
{
    if 0 <= i < cs.len() {
        let c = cs[i];
        if spec_is_control(c) {
            if c == '\r' {
                lemma_txt_import_errors(cs, i + 1, ImportState { col: 0, ..st });
            } else if c == '\n' && st.row != i16::MAX {
                lemma_txt_import_errors(
                    cs,
                    i + 1,
                    ImportState { col: 0, row: (st.row + 1) as i16, ..st },
                );
            }
        } else {
            match spec_print(st, c) {
                Some(st2) => if st.col != i16::MAX {
                    lemma_txt_import_errors(
                        cs,
                        i + 1,
                        ImportState { col: (st.col + 1) as i16, ..st2 },
                    );
                },
                None => {},
            }
        }
    }
}

impl Canvas {
    /// Imports plain text: `from_ansi_or_txt` with SGR sequences refused.
    pub fn from_txt(txt: String) -> (r: Result<Canvas, TxtImportError>)
        requires
            !(spec_import(txt@, false) is Overflow),
        ensures
            match spec_import(txt@, false) {
                ImportOutcome::Done(st) => r matches Ok(c) && c.wf() && c.cell_map() == st.cells
                    && c.area == st.area,
                ImportOutcome::Failed(e) => match e {
                    ImportErrorSpec::IllegalCharacter(index) => r matches Err(x) && x
                        == TxtImportError::IllegalCharacter(index),
                    _ => false,
                },
                ImportOutcome::Overflow => false,
            },
    {
        proof {
            lemma_txt_import_errors(txt@, 0, initial_import_state());
        }
        match Canvas::from_ansi_or_txt(txt, false) {
            Ok(imported) => Ok(imported),
            Err(AnsiImportError::IllegalCharacter(index)) => Err(
                TxtImportError::IllegalCharacter(index),
            ),
            Err(_) => {
                // Impossible without SGR sequences (`lemma_txt_import_errors`).
                assert(false);
                Err(TxtImportError::IllegalCharacter((0, 0)))
            },
        }
    }
}

} // verus!
