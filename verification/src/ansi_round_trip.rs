use vstd::prelude::*;

use crate::ansi_export::{
    attribute_code, attribute_if, cell_plan, cell_tokens, color_params, dec, digit_char,
    export_cell, export_from, initial_export_state, modifier_tokens, palette_index, render,
    repeat_token, reset_if, spec_export_tokens, style_tokens, token_text, written_color,
    AnsiToken, Attribute, ExportState,
};
use crate::ansi_import::{
    piece_value, spec_bright_color, spec_named_color, blank_style, decimal_value, digits_or_semicolons, esc, include_checked, initial_import_state,
    sgr_pieces, spec_apply_sgr, spec_escape, spec_import, spec_import_from, spec_print,
    spec_scan_sgr, spec_sgr_modifier, spec_sgr_set_color, ColorOutcome, EscapeOutcome,
    ImportOutcome, ImportState, ScanOutcome, SgrOutcome,
};
use crate::canvas::{default_cell, read_cell, spec_has_sgr_effects, Canvas, CanvasCell};
use crate::index_map::{entries_map, idx_lt, sorted_keys};
use crate::rect::{fits_i16, wrap_i16, CanvasIndex, CanvasRect};
use crate::style::{spec_modifier_empty, Color, Ground, Modifier};
use crate::text::{digit_value, spec_is_control, spec_is_digit};

verus! {

// ---------------------------------------------------------------------------------------------
// Decimal numbers as they are written and read back.
// ---------------------------------------------------------------------------------------------

proof fn lemma_digit_char(d: nat)
    requires
        d < 10,
    ensures
        spec_is_digit(digit_char(d)),
        digit_value(digit_char(d)) == d,
{
}

/// The digits of `n` are digits, and read back as `n`.
proof fn lemma_dec(n: nat)
    ensures
        dec(n).len() > 0,
        forall|i: int| 0 <= i < dec(n).len() ==> spec_is_digit(#[trigger] dec(n)[i]),
        decimal_value(dec(n)) == n,
    decreases n,
{
    lemma_digit_char(n % 10);
    if n >= 10 {
        lemma_dec(n / 10);
        let s = dec(n);
        assert(s.drop_last() =~= dec(n / 10));
        assert(s.last() == digit_char(n % 10));
        assert(decimal_value(s) == decimal_value(dec(n / 10)) * 10 + digit_value(digit_char(n % 10)));
        assert((n / 10) * 10 + n % 10 == n) by (nonlinear_arith);
    } else {
        let s = dec(n);
        assert(s.drop_last() =~= Seq::<char>::empty());
        assert(decimal_value(s) == decimal_value(s.drop_last()) * 10 + digit_value(s.last()));
    }
}

pub open spec fn no_semicolon(s: Seq<char>) -> bool {
    forall|i: int| 0 <= i < s.len() ==> #[trigger] s[i] != ';'
}

proof fn lemma_pieces_nonempty(s: Seq<char>)
    ensures
        sgr_pieces(s).len() > 0,
    decreases s.len(),
{
    if s.len() > 0 {
        lemma_pieces_nonempty(s.drop_last());
    }
}

/// Characters other than `;` extend the last parameter.
proof fn lemma_pieces_extend(pre: Seq<char>, s: Seq<char>)
    requires
        no_semicolon(s),
    ensures
        sgr_pieces(pre + s) == sgr_pieces(pre).update(
            sgr_pieces(pre).len() - 1,
            sgr_pieces(pre).last() + s,
        ),
    decreases s.len(),
{
    lemma_pieces_nonempty(pre);
    let p = sgr_pieces(pre);
    if s.len() == 0 {
        assert(pre + s =~= pre);
        assert(p.last() + s =~= p.last());
        assert(p.update(p.len() - 1, p.last()) =~= p);
    } else {
        let s0 = s.drop_last();
        assert((pre + s).drop_last() =~= pre + s0);
        assert((pre + s).last() == s.last());
        lemma_pieces_extend(pre, s0);
        assert(p.last() + s0 + seq![s.last()] =~= p.last() + s);
        assert((p.last() + s0).push(s.last()) =~= p.last() + s);
        assert(sgr_pieces(pre + s) =~= p.update(p.len() - 1, p.last() + s));
    }
}

/// A `;` starts a new, empty parameter.
proof fn lemma_pieces_semicolon(pre: Seq<char>)
    ensures
        sgr_pieces(pre + seq![';']) == sgr_pieces(pre).push(Seq::<char>::empty()),
{
    let s = pre + seq![';'];
    assert(s.drop_last() =~= pre);
}

/// The parameters of `pre ; s`, where `s` holds no `;`.
proof fn lemma_pieces_next(pre: Seq<char>, s: Seq<char>)
    requires
        no_semicolon(s),
    ensures
        sgr_pieces(pre + seq![';'] + s) == sgr_pieces(pre).push(s),
{
    lemma_pieces_semicolon(pre);
    lemma_pieces_extend(pre + seq![';'], s);
    assert(Seq::<char>::empty() + s =~= s);
}

/// The parameters of a text without `;`.
proof fn lemma_pieces_single(s: Seq<char>)
    requires
        no_semicolon(s),
    ensures
        sgr_pieces(s) == seq![s],
{
    lemma_pieces_extend(Seq::<char>::empty(), s);
    assert(Seq::<char>::empty() + s =~= s);
    assert(Seq::<char>::empty() + s =~= s);
}

proof fn lemma_dec_no_semicolon(n: nat)
    ensures
        no_semicolon(dec(n)),
{
    lemma_dec(n);
    assert forall|i: int| 0 <= i < dec(n).len() implies #[trigger] dec(n)[i] != ';' by {
        assert(spec_is_digit(dec(n)[i]));
    }
}

// ---------------------------------------------------------------------------------------------
// Reading an SGR sequence back.
// ---------------------------------------------------------------------------------------------

/// A scan from `j` stops at the first `m`, where only digits and `;` come before it.
proof fn lemma_scan_to(cs: Seq<char>, j: int, e: int)
    requires
        0 <= j <= e < cs.len(),
        cs[e] == 'm',
        forall|t: int| j <= t < e ==> (spec_is_digit(#[trigger] cs[t]) || cs[t] == ';'),
    ensures
        spec_scan_sgr(cs, j) == ScanOutcome::Terminated(e),
    decreases e - j,
{
    if j < e {
        assert(spec_is_digit(cs[j]) || cs[j] == ';');
        assert(cs[j] != 'm');
        lemma_scan_to(cs, j + 1, e);
    }
}


/// The parameters of the SGR sequence that a token other than a character is written as.
pub open spec fn sgr_body(t: AnsiToken) -> Seq<char> {
    match t {
        AnsiToken::Char(_) => Seq::empty(),
        AnsiToken::ResetAll => seq!['0'],
        AnsiToken::SetAttribute(a) => dec(attribute_code(a)),
        AnsiToken::SetColor(g, c) => match g {
            Ground::Foreground => if c == Color::Reset {
                seq!['3', '9']
            } else {
                seq!['3', '8', ';'] + color_params(c)
            },
            Ground::Background => if c == Color::Reset {
                seq!['4', '9']
            } else {
                seq!['4', '8', ';'] + color_params(c)
            },
        },
    }
}

/// A color that the export writes: the terminal's default, a palette entry or a 24-bit color.
pub open spec fn is_written_color(c: Color) -> bool {
    c is Reset || c is Indexed || c is Rgb
}

/// The colors and modifiers after reading the SGR sequence of `t` in a state with `fg`, `bg`
/// and `m`.
pub open spec fn sgr_effect(fg: Color, bg: Color, m: Modifier, t: AnsiToken) -> (
    Color,
    Color,
    Modifier,
) {
    match t {
        AnsiToken::Char(_) => (fg, bg, m),
        AnsiToken::ResetAll => (Color::Reset, Color::Reset, spec_modifier_empty()),
        AnsiToken::SetAttribute(a) => (fg, bg, m.spec_union(spec_sgr_modifier(attribute_code(a) as int))),
        AnsiToken::SetColor(g, c) => match g {
            Ground::Foreground => (c, bg, m),
            Ground::Background => (fg, c, m),
        },
    }
}

proof fn lemma_token_text_sgr(t: AnsiToken)
    requires
        !(t is Char),
    ensures
        token_text(t, true) == seq![esc(), '['] + sgr_body(t) + seq!['m'],
{
    match t {
        AnsiToken::ResetAll => {
            assert(token_text(t, true) =~= seq![esc(), '['] + sgr_body(t) + seq!['m']);
        },
        AnsiToken::SetColor(g, c) => {
            assert(token_text(t, true) =~= seq![esc(), '['] + sgr_body(t) + seq!['m']);
        },
        _ => {},
    }
}

proof fn lemma_value1(a: char)
    ensures
        decimal_value(seq![a]) == digit_value(a),
{
    let s = seq![a];
    assert(s.drop_last() =~= Seq::<char>::empty());
    assert(decimal_value(Seq::<char>::empty()) == 0);
    assert(s.last() == a);
    assert(decimal_value(s) == decimal_value(s.drop_last()) * 10 + digit_value(s.last()));
}

proof fn lemma_value2(a: char, b: char)
    ensures
        decimal_value(seq![a, b]) == digit_value(a) * 10 + digit_value(b),
{
    assert(seq![a, b].drop_last() =~= seq![a]);
    lemma_value1(a);
}

/// The SGR parameters of a color written after `38;` or `48;` read back as that color.
proof fn lemma_color_pieces(head: Seq<char>, c: Color)
    requires
        c is Indexed || c is Rgb,
        head.len() == 2,
        head[0] != ';' && head[1] != ';',
    ensures
        ({
            let pieces = sgr_pieces(head + seq![';'] + color_params(c));
            &&& c is Indexed ==> pieces == seq![head, seq!['5'], dec(palette_index(c))]
            &&& c matches Color::Rgb(r, g, b) ==> pieces == seq![
                head,
                seq!['2'],
                dec(r as nat),
                dec(g as nat),
                dec(b as nat),
            ]
        }),
{
    assert(no_semicolon(head));
    lemma_pieces_single(head);
    lemma_pieces_single(seq!['5']);
    lemma_pieces_single(seq!['2']);
    match c {
        Color::Rgb(r, g, b) => {
            lemma_dec_no_semicolon(r as nat);
            lemma_dec_no_semicolon(g as nat);
            lemma_dec_no_semicolon(b as nat);
            let p1 = head + seq![';'] + seq!['2'];
            lemma_pieces_next(head, seq!['2']);
            let p2 = p1 + seq![';'] + dec(r as nat);
            lemma_pieces_next(p1, dec(r as nat));
            let p3 = p2 + seq![';'] + dec(g as nat);
            lemma_pieces_next(p2, dec(g as nat));
            let p4 = p3 + seq![';'] + dec(b as nat);
            lemma_pieces_next(p3, dec(b as nat));
            assert(head + seq![';'] + color_params(c) =~= p4);
            assert(sgr_pieces(p4) =~= seq![head, seq!['2'], dec(r as nat), dec(g as nat), dec(b as nat)]);
        },
        _ => {
            let n = palette_index(c);
            lemma_dec_no_semicolon(n);
            let p1 = head + seq![';'] + seq!['5'];
            lemma_pieces_next(head, seq!['5']);
            let p2 = p1 + seq![';'] + dec(n);
            lemma_pieces_next(p1, dec(n));
            assert(head + seq![';'] + color_params(c) =~= p2);
            assert(sgr_pieces(p2) =~= seq![head, seq!['5'], dec(n)]);
        },
    }
}


/// Reading the SGR parameters of a token has the token's effect.
pub open spec fn applies(t: AnsiToken, fg: Color, bg: Color, m: Modifier, index: CanvasIndex, sequence: Seq<char>) -> bool {
    let (f, b, mm) = sgr_effect(fg, bg, m, t);
    spec_apply_sgr(sgr_pieces(sgr_body(t)), 0, fg, bg, m, index, sequence) == SgrOutcome::Applied(f, b, mm)
}

proof fn lemma_apply_reset(fg: Color, bg: Color, m: Modifier, index: CanvasIndex, sequence: Seq<char>)
    ensures
        applies(AnsiToken::ResetAll, fg, bg, m, index, sequence),
{
    let body = sgr_body(AnsiToken::ResetAll);
    assert(body =~= seq!['0']);
    assert(no_semicolon(body));
    lemma_pieces_single(body);
    lemma_value1('0');
    let pieces = sgr_pieces(body);
    assert(pieces.len() == 1);
    assert(pieces[0] == seq!['0']);
    assert(decimal_value(pieces[0]) == 0);
    let e = spec_modifier_empty();
    assert(spec_apply_sgr(pieces, 1, Color::Reset, Color::Reset, e, index, sequence)
        == SgrOutcome::Applied(Color::Reset, Color::Reset, e));
    assert(spec_apply_sgr(pieces, 0, fg, bg, m, index, sequence) == spec_apply_sgr(
        pieces,
        1,
        Color::Reset,
        Color::Reset,
        e,
        index,
        sequence,
    ));
}

proof fn lemma_apply_attribute(a: Attribute, fg: Color, bg: Color, m: Modifier, index: CanvasIndex, sequence: Seq<char>)
    ensures
        applies(AnsiToken::SetAttribute(a), fg, bg, m, index, sequence),
{
    let body = sgr_body(AnsiToken::SetAttribute(a));
    let code = attribute_code(a);
    lemma_dec(code);
    lemma_dec_no_semicolon(code);
    lemma_pieces_single(body);
    let pieces = sgr_pieces(body);
    assert(pieces[0] == dec(code));
    let m2 = m.spec_union(spec_sgr_modifier(code as int));
    assert(spec_apply_sgr(pieces, 1, fg, bg, m2, index, sequence) == SgrOutcome::Applied(fg, bg, m2));
}

proof fn lemma_apply_color_reset(g: Ground, fg: Color, bg: Color, m: Modifier, index: CanvasIndex, sequence: Seq<char>)
    ensures
        applies(AnsiToken::SetColor(g, Color::Reset), fg, bg, m, index, sequence),
{
    let t = AnsiToken::SetColor(g, Color::Reset);
    let body = sgr_body(t);
    let (f, b, mm) = sgr_effect(fg, bg, m, t);
    assert(no_semicolon(body));
    lemma_pieces_single(body);
    let pieces = sgr_pieces(body);
    lemma_value2(body[0], body[1]);
    assert(seq![body[0], body[1]] =~= body);
    assert(pieces[0] == body);
    match g {
        Ground::Foreground => assert(decimal_value(pieces[0]) == 39),
        Ground::Background => assert(decimal_value(pieces[0]) == 49),
    }
    assert(spec_apply_sgr(pieces, 1, f, b, mm, index, sequence) == SgrOutcome::Applied(f, b, mm));
}

proof fn lemma_apply_color_indexed(g: Ground, x: u8, fg: Color, bg: Color, m: Modifier, index: CanvasIndex, sequence: Seq<char>)
    ensures
        applies(AnsiToken::SetColor(g, Color::Indexed(x)), fg, bg, m, index, sequence),
{
    let c = Color::Indexed(x);
    let t = AnsiToken::SetColor(g, c);
    let body = sgr_body(t);
    let head = match g {
        Ground::Foreground => seq!['3', '8'],
        Ground::Background => seq!['4', '8'],
    };
    let (f, b, mm) = sgr_effect(fg, bg, m, t);
    assert(body =~= head + seq![';'] + color_params(c));
    lemma_color_pieces(head, c);
    let pieces = sgr_pieces(body);
    lemma_value2(head[0], head[1]);
    assert(seq![head[0], head[1]] =~= head);
    lemma_value1('5');
    let n = palette_index(c);
    lemma_dec(n);
    assert(pieces[0] == head);
    assert(pieces[1] == seq!['5']);
    assert(pieces[2] == dec(n));
    assert(decimal_value(pieces[1]) == 5);
    assert(decimal_value(pieces[2]) == x);
    assert(spec_sgr_set_color(pieces, 1) == ColorOutcome::Parsed(c));
    match g {
        Ground::Foreground => assert(decimal_value(pieces[0]) == 38),
        Ground::Background => assert(decimal_value(pieces[0]) == 48),
    }
    assert(spec_apply_sgr(pieces, 3, f, b, mm, index, sequence) == SgrOutcome::Applied(f, b, mm));
    assert(spec_apply_sgr(pieces, 0, fg, bg, m, index, sequence) == spec_apply_sgr(pieces, 3, f, b, mm, index, sequence));
}

proof fn lemma_apply_color_rgb(g: Ground, r: u8, gg: u8, bb: u8, fg: Color, bg: Color, m: Modifier, index: CanvasIndex, sequence: Seq<char>)
    ensures
        applies(AnsiToken::SetColor(g, Color::Rgb(r, gg, bb)), fg, bg, m, index, sequence),
{
    let c = Color::Rgb(r, gg, bb);
    let t = AnsiToken::SetColor(g, c);
    let body = sgr_body(t);
    let head = match g {
        Ground::Foreground => seq!['3', '8'],
        Ground::Background => seq!['4', '8'],
    };
    let (f, b, mm) = sgr_effect(fg, bg, m, t);
    assert(body =~= head + seq![';'] + color_params(c));
    lemma_color_pieces(head, c);
    let pieces = sgr_pieces(body);
    lemma_value2(head[0], head[1]);
    assert(seq![head[0], head[1]] =~= head);
    lemma_value1('2');
    lemma_dec(r as nat);
    lemma_dec(gg as nat);
    lemma_dec(bb as nat);
    assert(pieces[0] == head);
    assert(pieces[1] == seq!['2']);
    assert(decimal_value(pieces[1]) == 2);
    assert(decimal_value(pieces[2]) == r);
    assert(decimal_value(pieces[3]) == gg);
    assert(decimal_value(pieces[4]) == bb);
    assert(spec_sgr_set_color(pieces, 1) == ColorOutcome::Parsed(c));
    match g {
        Ground::Foreground => assert(decimal_value(pieces[0]) == 38),
        Ground::Background => assert(decimal_value(pieces[0]) == 48),
    }
    assert(spec_apply_sgr(pieces, 5, f, b, mm, index, sequence) == SgrOutcome::Applied(f, b, mm));
    assert(spec_apply_sgr(pieces, 0, fg, bg, m, index, sequence) == spec_apply_sgr(pieces, 5, f, b, mm, index, sequence));
}

proof fn lemma_apply_token(t: AnsiToken, fg: Color, bg: Color, m: Modifier, index: CanvasIndex, sequence: Seq<char>)
    requires
        !(t is Char),
        t matches AnsiToken::SetColor(_, c) ==> is_written_color(c),
    ensures
        applies(t, fg, bg, m, index, sequence),
{
    match t {
        AnsiToken::ResetAll => lemma_apply_reset(fg, bg, m, index, sequence),
        AnsiToken::SetAttribute(a) => lemma_apply_attribute(a, fg, bg, m, index, sequence),
        AnsiToken::SetColor(g, c) => match c {
            Color::Reset => lemma_apply_color_reset(g, fg, bg, m, index, sequence),
            Color::Indexed(x) => lemma_apply_color_indexed(g, x, fg, bg, m, index, sequence),
            Color::Rgb(r, gg, bb) => lemma_apply_color_rgb(g, r, gg, bb, fg, bg, m, index, sequence),
            _ => {},
        },
        AnsiToken::Char(_) => {},
    }
}


proof fn lemma_dec_digits(n: nat)
    ensures
        digits_or_semicolons(dec(n)),
{
    lemma_dec(n);
}

proof fn lemma_concat_digits(a: Seq<char>, b: Seq<char>)
    requires
        digits_or_semicolons(a),
        digits_or_semicolons(b),
    ensures
        digits_or_semicolons(a + b),
{
    assert forall|j: int| 0 <= j < (a + b).len() implies (spec_is_digit(#[trigger] (a + b)[j])
        || (a + b)[j] == ';') by {
        if j < a.len() {
            assert((a + b)[j] == a[j]);
        } else {
            assert((a + b)[j] == b[j - a.len()]);
        }
    }
}

proof fn lemma_body_digits(t: AnsiToken)
    requires
        !(t is Char),
    ensures
        digits_or_semicolons(sgr_body(t)),
{
    match t {
        AnsiToken::SetAttribute(a) => lemma_dec_digits(attribute_code(a)),
        AnsiToken::SetColor(g, c) => {
            let head = match g {
                Ground::Foreground => seq!['3', '8', ';'],
                Ground::Background => seq!['4', '8', ';'],
            };
            assert(digits_or_semicolons(head));
            if c != Color::Reset {
                match c {
                    Color::Rgb(r, gg, bb) => {
                        lemma_dec_digits(r as nat);
                        lemma_dec_digits(gg as nat);
                        lemma_dec_digits(bb as nat);
                        let sc = seq![';'];
                        assert(digits_or_semicolons(sc));
                        assert(digits_or_semicolons(seq!['2', ';']));
                        lemma_concat_digits(seq!['2', ';'], dec(r as nat));
                        lemma_concat_digits(seq!['2', ';'] + dec(r as nat), sc);
                        lemma_concat_digits(seq!['2', ';'] + dec(r as nat) + sc, dec(gg as nat));
                        lemma_concat_digits(seq!['2', ';'] + dec(r as nat) + sc + dec(gg as nat), sc);
                        lemma_concat_digits(
                            seq!['2', ';'] + dec(r as nat) + sc + dec(gg as nat) + sc,
                            dec(bb as nat),
                        );
                    },
                    _ => {
                        lemma_dec_digits(palette_index(c));
                        assert(digits_or_semicolons(seq!['5', ';']));
                        lemma_concat_digits(seq!['5', ';'], dec(palette_index(c)));
                    },
                }
                lemma_concat_digits(head, color_params(c));
            }
        },
        _ => {},
    }
}

/// What reading one token does to the import, where it reads without error; `None` where the
/// token is a control character other than a line feed, or the position would overflow.
pub open spec fn tok_step(st: ImportState, t: AnsiToken) -> Option<ImportState> {
    match t {
        AnsiToken::Char(c) => if c == '\n' {
            if st.row == i16::MAX {
                None
            } else {
                Some(ImportState { col: 0, row: (st.row + 1) as i16, ..st })
            }
        } else if spec_is_control(c) {
            None
        } else {
            match spec_print(st, c) {
                Some(st2) => if st.col == i16::MAX {
                    None
                } else {
                    Some(ImportState { col: (st.col + 1) as i16, ..st2 })
                },
                None => None,
            }
        },
        AnsiToken::SetColor(_, c) => if is_written_color(c) {
            let (f, b, mm) = sgr_effect(st.fg, st.bg, st.modifiers, t);
            Some(ImportState { fg: f, bg: b, modifiers: mm, ..st })
        } else {
            None
        },
        _ => {
            let (f, b, mm) = sgr_effect(st.fg, st.bg, st.modifiers, t);
            Some(ImportState { fg: f, bg: b, modifiers: mm, ..st })
        },
    }
}

/// Reading the text of one token from position `i` has the effect of `tok_step`.
proof fn lemma_token_step(cs: Seq<char>, i: int, st: ImportState, t: AnsiToken)
    requires
        0 <= i,
        i + token_text(t, true).len() <= cs.len(),
        cs.subrange(i, i + token_text(t, true).len()) == token_text(t, true),
        tok_step(st, t) is Some,
    ensures
        spec_import_from(cs, i, st, true) == spec_import_from(
            cs,
            i + token_text(t, true).len(),
            tok_step(st, t)->0,
            true,
        ),
{
    let text = token_text(t, true);
    assert(cs[i] == text[0]);
    match t {
        AnsiToken::Char(c) => {},
        _ => {
            lemma_token_text_sgr(t);
            let body = sgr_body(t);
            let e = i + 2 + body.len();
            assert(text.len() == body.len() + 3);
            assert(cs[i] == esc());
            assert(cs[i + 1] == text[1]);
            assert(text[1] == '[');
            assert(cs[e] == text[e - i]);
            assert(text[e - i] == 'm');
            lemma_body_digits(t);
            assert forall|j: int| i + 2 <= j < e implies (spec_is_digit(#[trigger] cs[j]) || cs[j]
                == ';') by {
                assert(cs[j] == text[j - i]);
                assert(text[j - i] == body[j - i - 2]);
            }
            lemma_scan_to(cs, i + 2, e);
            assert forall|j: int| 0 <= j < body.len() implies #[trigger] cs.subrange(i + 2, e)[j]
                == body[j] by {
                assert(cs.subrange(i + 2, e)[j] == cs[i + 2 + j]);
                assert(cs[i + 2 + j] == text[j + 2]);
            }
            assert(cs.subrange(i + 2, e) =~= body);
            let sequence = seq![esc(), '['] + body + seq!['m'];
            lemma_apply_token(t, st.fg, st.bg, st.modifiers, (st.row, st.col), sequence);
            let (f, b, mm) = sgr_effect(st.fg, st.bg, st.modifiers, t);
            assert(spec_escape(cs, i + 1, (st.row, st.col), st.fg, st.bg, st.modifiers)
                == EscapeOutcome::Applied(e + 1, f, b, mm));
        },
    }
}


/// Reading the texts of the tokens `ts` one after the other; `None` where one of them does not
/// read as `tok_step` says.
pub open spec fn tok_steps(st: ImportState, ts: Seq<AnsiToken>) -> Option<ImportState>
    decreases ts.len(),
{
    if ts.len() == 0 {
        Some(st)
    } else {
        match tok_steps(st, ts.drop_last()) {
            Some(s1) => tok_step(s1, ts.last()),
            None => None,
        }
    }
}

proof fn lemma_tok_steps_concat(st: ImportState, a: Seq<AnsiToken>, b: Seq<AnsiToken>)
    ensures
        tok_steps(st, a + b) == (match tok_steps(st, a) {
            Some(s) => tok_steps(s, b),
            None => None,
        }),
    decreases b.len(),
{
    if b.len() == 0 {
        assert(a + b =~= a);
        match tok_steps(st, a) {
            Some(s) => {},
            None => {},
        }
    } else {
        assert((a + b).drop_last() =~= a + b.drop_last());
        assert((a + b).last() == b.last());
        lemma_tok_steps_concat(st, a, b.drop_last());
    }
}

proof fn lemma_tok_steps_one(st: ImportState, t: AnsiToken)
    ensures
        tok_steps(st, seq![t]) == tok_step(st, t),
{
    assert(seq![t].drop_last() =~= Seq::<AnsiToken>::empty());
    assert(tok_steps(st, Seq::<AnsiToken>::empty()) == Some(st));
    assert(seq![t].last() == t);
}

/// Colors turned on for each of `n` tokens.
pub open spec fn all_enabled(n: nat) -> Seq<bool> {
    Seq::new(n, |_i: int| true)
}

proof fn lemma_render_concat(a: Seq<AnsiToken>, b: Seq<AnsiToken>)
    ensures
        render(a + b, all_enabled((a + b).len())) == render(a, all_enabled(a.len())) + render(
            b,
            all_enabled(b.len()),
        ),
    decreases b.len(),
{
    reveal(render);
    if b.len() == 0 {
        assert(a + b =~= a);
        assert(render(b, all_enabled(0)) == Seq::<char>::empty());
        assert(render(a, all_enabled(a.len())) + Seq::<char>::empty() =~= render(a, all_enabled(a.len())));
    } else {
        let ab = a + b;
        assert(ab.drop_last() =~= a + b.drop_last());
        assert(all_enabled(ab.len()).drop_last() =~= all_enabled((a + b.drop_last()).len()));
        assert(all_enabled(b.len()).drop_last() =~= all_enabled(b.drop_last().len()));
        lemma_render_concat(a, b.drop_last());
        assert(render(ab, all_enabled(ab.len())) == render(ab.drop_last(), all_enabled(ab.len()).drop_last())
            + token_text(ab.last(), true));
        assert(render(b, all_enabled(b.len())) == render(b.drop_last(), all_enabled(b.len()).drop_last())
            + token_text(b.last(), true));
        assert(render(a, all_enabled(a.len())) + render(b.drop_last(), all_enabled(b.drop_last().len()))
            + token_text(b.last(), true) =~= render(a, all_enabled(a.len())) + (render(
            b.drop_last(),
            all_enabled(b.drop_last().len()),
        ) + token_text(b.last(), true)));
    }
}

proof fn lemma_render_last(ts: Seq<AnsiToken>)
    requires
        ts.len() > 0,
    ensures
        render(ts, all_enabled(ts.len())) == render(
            ts.drop_last(),
            all_enabled(ts.drop_last().len()),
        ) + token_text(ts.last(), true),
{
    reveal(render);
    let en = all_enabled(ts.len());
    assert(en.drop_last() =~= all_enabled(ts.drop_last().len()));
    assert(en.last() == true);
}

proof fn lemma_subrange_split(cs: Seq<char>, i: int, a: Seq<char>, b: Seq<char>)
    requires
        0 <= i,
        i + a.len() + b.len() <= cs.len(),
        cs.subrange(i, i + a.len() + b.len()) == a + b,
    ensures
        cs.subrange(i, i + a.len()) == a,
        cs.subrange(i + a.len(), i + a.len() + b.len()) == b,
{
    assert forall|j: int| 0 <= j < a.len() implies #[trigger] cs.subrange(i, i + a.len())[j]
        == a[j] by {
        assert(cs.subrange(i, i + a.len() + b.len())[j] == (a + b)[j]);
    }
    assert forall|j: int| 0 <= j < b.len() implies #[trigger] cs.subrange(
        i + a.len(),
        i + a.len() + b.len(),
    )[j] == b[j] by {
        assert(cs.subrange(i, i + a.len() + b.len())[a.len() + j] == (a + b)[a.len() + j]);
        assert((a + b)[a.len() + j] == b[j]);
        assert(cs.subrange(i, i + a.len() + b.len())[a.len() + j] == cs[i + a.len() + j]);
        assert(cs.subrange(i + a.len(), i + a.len() + b.len())[j] == cs[i + a.len() + j]);
    }
    assert(cs.subrange(i, i + a.len()) =~= a);
    assert(cs.subrange(i + a.len(), i + a.len() + b.len()) =~= b);
}

/// Reading the text of the tokens `ts`, written with colors on, from position `i`.
proof fn lemma_tokens_step(cs: Seq<char>, i: int, st: ImportState, ts: Seq<AnsiToken>)
    requires
        0 <= i,
        i + render(ts, all_enabled(ts.len())).len() <= cs.len(),
        cs.subrange(i, i + render(ts, all_enabled(ts.len())).len()) == render(
            ts,
            all_enabled(ts.len()),
        ),
        tok_steps(st, ts) is Some,
    ensures
        spec_import_from(cs, i, st, true) == spec_import_from(
            cs,
            i + render(ts, all_enabled(ts.len())).len(),
            tok_steps(st, ts)->0,
            true,
        ),
    decreases ts.len(),
{
    if ts.len() == 0 {
        reveal(render);
        assert(render(ts, all_enabled(0)).len() == 0);
    } else {
        let a = ts.drop_last();
        let t = ts.last();
        lemma_render_last(ts);
        let ra = render(a, all_enabled(a.len()));
        let rt = token_text(t, true);
        lemma_subrange_split(cs, i, ra, rt);
        lemma_tokens_step(cs, i, st, a);
        let s1 = tok_steps(st, a)->0;
        lemma_token_step(cs, i + ra.len(), s1, t);
    }
}


// ---------------------------------------------------------------------------------------------
// What reading characters does to the import.
// ---------------------------------------------------------------------------------------------

/// The area of the import is the bounding box of what it printed, from column 0 on: nothing yet
/// where it is empty; otherwise its last row is the current row or above it, and where it is the
/// current row, it reaches up to the current column.
pub open spec fn area_inv(a: CanvasRect, row: i16, col: i16) -> bool {
    if a.rows == 0 || a.columns == 0 {
        col == 0
    } else {
        &&& a.column == 0
        &&& 0 <= a.row
        &&& a.row + a.rows - 1 <= row
        &&& a.row + a.rows - 1 < row ==> col == 0
        &&& a.row + a.rows - 1 == row ==> col <= a.columns
        &&& a.columns <= i16::MAX
    }
}

/// A position of the import short of the end of the `i16` range.
pub open spec fn index_ok(i: CanvasIndex) -> bool {
    0 <= i.0 < i16::MAX && 0 <= i.1 < i16::MAX
}

proof fn lemma_include_step(a: CanvasRect, row: i16, col: i16)
    requires
        area_inv(a, row, col),
        index_ok((row, col)),
    ensures
        a.include_fits((row, col)),
        area_inv(a.spec_include((row, col)), row, (col + 1) as i16),
        include_checked(Some(a), (row, col)) == Some(a.spec_include((row, col))),
        include_checked(
            include_checked(include_checked(include_checked(Some(a), (row, col)), (row, col)), (row, col)),
            (row, col),
        ) == Some(a.spec_include((row, col))),
{
    let i = (row, col);
    let b = a.spec_include(i);
    if a.rows == 0 || a.columns == 0 {
        assert(b == CanvasRect { row, column: col, rows: 1, columns: 1 });
        assert(wrap_i16(1) == 1);
    } else {
        assert(wrap_i16(a.rows) == a.rows);
        assert(wrap_i16(a.columns) == a.columns);
        let last = a.row + a.rows - 1;
        if last < row {
            assert(col == 0);
            assert(!a.spec_includes(i));
            assert(a.spec_away(i) == (row - last, 0int));
            assert(b.rows == a.rows + row - last);
            assert(b.columns == a.columns);
        } else if col < a.columns {
            assert(a.spec_includes(i));
            assert(b == a);
        } else {
            assert(col == a.columns);
            assert(!a.spec_includes(i));
            assert(a.spec_away(i) == (0int, 1int));
            assert(b.rows == a.rows);
            assert(b.columns == a.columns + 1);
        }
        assert(wrap_i16(b.rows) == b.rows);
        assert(wrap_i16(b.columns) == b.columns);
    }
    assert(b.rows > 0 && b.columns > 0);
    assert(b.spec_includes(i));
    crate::rect::law_include_included_is_identity(b, i);
}

/// The cell that printing `c` stores at the current position.
pub open spec fn printed_cell(st: ImportState, c: char) -> CanvasCell {
    CanvasCell { character: c, fg: st.fg, bg: st.bg, modifiers: st.modifiers }
}

/// Printing a character stores it, unless it is a space in the default style, and moves on.
proof fn lemma_print(st: ImportState, c: char)
    requires
        area_inv(st.area, st.row, st.col),
        index_ok((st.row, st.col)),
        !spec_is_control(c),
        c != '\n',
    ensures
        tok_step(st, AnsiToken::Char(c)) matches Some(s2) && s2.row == st.row && s2.col == st.col
            + 1 && s2.fg == st.fg && s2.bg == st.bg && s2.modifiers == st.modifiers && area_inv(
            s2.area,
            s2.row,
            s2.col,
        ) && s2.cells == (if c == ' ' && blank_style(st.fg, st.bg, st.modifiers) {
            st.cells
        } else {
            st.cells.insert((st.row, st.col), printed_cell(st, c))
        }),
{
    lemma_include_step(st.area, st.row, st.col);
}

/// `n` line feeds move `n` rows down, to the start of the row.
proof fn lemma_newlines(st: ImportState, n: int)
    requires
        0 <= n,
        st.row + n <= i16::MAX,
    ensures
        tok_steps(st, repeat_token(AnsiToken::Char('\n'), n)) == Some(
            ImportState { row: (st.row + n) as i16, col: if n > 0 { 0 } else { st.col }, ..st },
        ),
    decreases n,
{
    let ts = repeat_token(AnsiToken::Char('\n'), n);
    if n == 0 {
        assert(ts =~= Seq::<AnsiToken>::empty());
        assert(ImportState { row: (st.row + n) as i16, col: st.col, ..st } == st);
    } else {
        assert(ts.drop_last() =~= repeat_token(AnsiToken::Char('\n'), n - 1));
        assert(ts.last() == AnsiToken::Char('\n'));
        lemma_newlines(st, n - 1);
    }
}

/// `n` spaces in the default style move `n` columns right and store nothing.
proof fn lemma_spaces(st: ImportState, n: int)
    requires
        0 <= n,
        area_inv(st.area, st.row, st.col),
        0 <= st.row < i16::MAX,
        0 <= st.col,
        st.col + n <= i16::MAX,
        blank_style(st.fg, st.bg, st.modifiers),
    ensures
        tok_steps(st, repeat_token(AnsiToken::Char(' '), n)) matches Some(s) && s.row == st.row
            && s.col == st.col + n && s.fg == st.fg && s.bg == st.bg && s.modifiers
            == st.modifiers && s.cells == st.cells && area_inv(s.area, s.row, s.col),
    decreases n,
{
    let ts = repeat_token(AnsiToken::Char(' '), n);
    if n == 0 {
        assert(ts =~= Seq::<AnsiToken>::empty());
    } else {
        assert(ts.drop_last() =~= repeat_token(AnsiToken::Char(' '), n - 1));
        assert(ts.last() == AnsiToken::Char(' '));
        lemma_spaces(st, n - 1);
        let s1 = tok_steps(st, ts.drop_last())->0;
        lemma_print(s1, ' ');
    }
}


// ---------------------------------------------------------------------------------------------
// What reading the style of a cell does to the import.
// ---------------------------------------------------------------------------------------------

pub open spec fn with_style(st: ImportState, fg: Color, bg: Color, m: Modifier) -> ImportState {
    ImportState { fg, bg, modifiers: m, ..st }
}

proof fn lemma_attribute_if(st: ImportState, on: bool, a: Attribute)
    ensures
        tok_steps(st, attribute_if(on, a)) == Some(
            with_style(
                st,
                st.fg,
                st.bg,
                if on {
                    st.modifiers.spec_union(spec_sgr_modifier(attribute_code(a) as int))
                } else {
                    st.modifiers
                },
            ),
        ),
{
    if on {
        lemma_tok_steps_one(st, AnsiToken::SetAttribute(a));
    } else {
        assert(attribute_if(on, a) =~= Seq::<AnsiToken>::empty());
        assert(with_style(st, st.fg, st.bg, st.modifiers) == st);
    }
}

proof fn lemma_then_attribute(st: ImportState, x: Seq<AnsiToken>, s1: ImportState, on: bool, a: Attribute)
    requires
        tok_steps(st, x) == Some(s1),
    ensures
        tok_steps(st, x + attribute_if(on, a)) == Some(
            with_style(
                s1,
                s1.fg,
                s1.bg,
                if on {
                    s1.modifiers.spec_union(spec_sgr_modifier(attribute_code(a) as int))
                } else {
                    s1.modifiers
                },
            ),
        ),
{
    lemma_tok_steps_concat(st, x, attribute_if(on, a));
    lemma_attribute_if(s1, on, a);
}

/// From no modifiers, the attributes of `m` turn on exactly the modifiers of `m`.
proof fn lemma_modifier_tokens(st: ImportState, m: Modifier)
    requires
        st.modifiers == spec_modifier_empty(),
    ensures
        tok_steps(st, modifier_tokens(m)) == Some(with_style(st, st.fg, st.bg, m)),
{
    reveal(modifier_tokens);
    let e = Seq::<AnsiToken>::empty();
    assert(tok_steps(st, e) == Some(st));
    let x1 = e + attribute_if(m.bold, Attribute::Bold);
    lemma_then_attribute(st, e, st, m.bold, Attribute::Bold);
    let s1 = tok_steps(st, x1)->0;
    let x2 = x1 + attribute_if(m.dim, Attribute::Dim);
    lemma_then_attribute(st, x1, s1, m.dim, Attribute::Dim);
    let s2 = tok_steps(st, x2)->0;
    let x3 = x2 + attribute_if(m.italic, Attribute::Italic);
    lemma_then_attribute(st, x2, s2, m.italic, Attribute::Italic);
    let s3 = tok_steps(st, x3)->0;
    let x4 = x3 + attribute_if(m.underlined, Attribute::Underlined);
    lemma_then_attribute(st, x3, s3, m.underlined, Attribute::Underlined);
    let s4 = tok_steps(st, x4)->0;
    let x5 = x4 + attribute_if(m.slow_blink, Attribute::SlowBlink);
    lemma_then_attribute(st, x4, s4, m.slow_blink, Attribute::SlowBlink);
    let s5 = tok_steps(st, x5)->0;
    let x6 = x5 + attribute_if(m.rapid_blink, Attribute::RapidBlink);
    lemma_then_attribute(st, x5, s5, m.rapid_blink, Attribute::RapidBlink);
    let s6 = tok_steps(st, x6)->0;
    let x7 = x6 + attribute_if(m.reversed, Attribute::Reverse);
    lemma_then_attribute(st, x6, s6, m.reversed, Attribute::Reverse);
    let s7 = tok_steps(st, x7)->0;
    let x8 = x7 + attribute_if(m.hidden, Attribute::Hidden);
    lemma_then_attribute(st, x7, s7, m.hidden, Attribute::Hidden);
    let s8 = tok_steps(st, x8)->0;
    let x9 = x8 + attribute_if(m.crossed_out, Attribute::CrossedOut);
    lemma_then_attribute(st, x8, s8, m.crossed_out, Attribute::CrossedOut);
    assert(x1 =~= attribute_if(m.bold, Attribute::Bold));
    assert(x9 =~= modifier_tokens(m));
    assert(tok_steps(st, x9)->0.modifiers == m);
}


proof fn lemma_written_color_is_written(c: Color)
    ensures
        is_written_color(written_color(c)),
        written_color(written_color(c)) == written_color(c),
        (written_color(c) == Color::Reset) == (c == Color::Reset),
{
}

proof fn lemma_reset_if(st: ImportState, on: bool)
    ensures
        tok_steps(st, reset_if(on)) == Some(
            if on {
                with_style(st, Color::Reset, Color::Reset, spec_modifier_empty())
            } else {
                st
            },
        ),
{
    if on {
        lemma_tok_steps_one(st, AnsiToken::ResetAll);
    } else {
        assert(reset_if(on) =~= Seq::<AnsiToken>::empty());
    }
}

/// Reading the style changes from `p` to `cell` gives the written style of `cell`.
proof fn lemma_style(st: ImportState, p: CanvasCell, cell: CanvasCell)
    requires
        st.fg == written_color(p.fg),
        st.bg == written_color(p.bg),
        st.modifiers == p.modifiers,
        cell.modifiers != p.modifiers ==> p.modifiers == spec_modifier_empty(),
    ensures
        tok_steps(st, style_tokens(p, cell)) == Some(
            with_style(st, written_color(cell.fg), written_color(cell.bg), cell.modifiers),
        ),
{
    lemma_written_color_is_written(cell.fg);
    lemma_written_color_is_written(cell.bg);
    let f = if cell.fg != p.fg {
        seq![AnsiToken::SetColor(Ground::Foreground, written_color(cell.fg))]
    } else {
        Seq::empty()
    };
    let b = if cell.bg != p.bg {
        seq![AnsiToken::SetColor(Ground::Background, written_color(cell.bg))]
    } else {
        Seq::empty()
    };
    let m = if cell.modifiers != p.modifiers {
        modifier_tokens(cell.modifiers)
    } else {
        Seq::empty()
    };
    assert(style_tokens(p, cell) == f + b + m);
    let s1 = with_style(st, written_color(cell.fg), st.bg, st.modifiers);
    if cell.fg != p.fg {
        lemma_tok_steps_one(st, AnsiToken::SetColor(Ground::Foreground, written_color(cell.fg)));
    } else {
        assert(s1 == st);
    }
    assert(tok_steps(st, f) == Some(s1));
    let s2 = with_style(s1, s1.fg, written_color(cell.bg), s1.modifiers);
    if cell.bg != p.bg {
        lemma_tok_steps_one(s1, AnsiToken::SetColor(Ground::Background, written_color(cell.bg)));
    } else {
        assert(s2 == s1);
    }
    assert(tok_steps(s1, b) == Some(s2));
    lemma_tok_steps_concat(st, f, b);
    let s3 = with_style(s2, s2.fg, s2.bg, cell.modifiers);
    if cell.modifiers != p.modifiers {
        lemma_modifier_tokens(s2, cell.modifiers);
    } else {
        assert(s3 == s2);
    }
    assert(tok_steps(s2, m) == Some(s3));
    lemma_tok_steps_concat(st, f + b, m);
}


// ---------------------------------------------------------------------------------------------
// The import of an exported canvas, cell by cell.
// ---------------------------------------------------------------------------------------------

/// A cell as it reads back from exported text: its colors as they are written.
pub open spec fn written_cell(c: CanvasCell) -> CanvasCell {
    CanvasCell { fg: written_color(c.fg), bg: written_color(c.bg), ..c }
}

/// The cells that an export from `area` can write so that they read back: in the order of the
/// canvas, from the area's first row and column on, short of the end of the `i16` range from
/// there, and with characters that are not control characters.
pub open spec fn exportable_cells(cells: Seq<(CanvasIndex, CanvasCell)>, area: CanvasRect) -> bool {
    &&& sorted_keys(cells)
    &&& forall|k: int|
        0 <= k < cells.len() ==> {
            let idx = #[trigger] cells[k].0;
            &&& area.row <= idx.0
            &&& idx.0 - area.row < i16::MAX
            &&& area.column <= idx.1
            &&& idx.1 - area.column < i16::MAX
            &&& !spec_is_control(cells[k].1.character)
        }
}

/// What the import of the first `k` exported cells reads at `j`: the cell at `j` moved by the
/// area's first row and column, with its colors as written.
pub open spec fn expected_read(
    cells: Seq<(CanvasIndex, CanvasCell)>,
    k: int,
    area: CanvasRect,
    j: CanvasIndex,
) -> CanvasCell {
    if fits_i16(j.0 + area.row) && fits_i16(j.1 + area.column) {
        written_cell(
            read_cell(
                entries_map(cells.take(k)),
                ((j.0 + area.row) as i16, (j.1 + area.column) as i16),
            ),
        )
    } else {
        default_cell()
    }
}

/// The import state `ist` after the tokens of the first `k` cells corresponds to the export
/// state `est` after them.
#[verifier::opaque]
pub open spec fn corresponds(
    est: ExportState,
    ist: ImportState,
    cells: Seq<(CanvasIndex, CanvasCell)>,
    k: int,
    area: CanvasRect,
) -> bool {
    &&& ist.row == est.prev_row - area.row
    &&& ist.col == est.prev_col + 1 - area.column
    &&& ist.fg == written_color(est.prev.fg)
    &&& ist.bg == written_color(est.prev.bg)
    &&& ist.modifiers == est.prev.modifiers
    &&& area_inv(ist.area, ist.row, ist.col)
    &&& forall|j: CanvasIndex| #[trigger] read_cell(ist.cells, j) == expected_read(cells, k, area, j)
    &&& if k == 0 {
        est.prev_row == area.row && est.prev_col == area.column - 1
    } else {
        est.prev_row == cells[k - 1].0.0 && est.prev_col == cells[k - 1].0.1
    }
}

proof fn lemma_area_inv_down(a: CanvasRect, r: i16, c: i16, r2: i16)
    requires
        area_inv(a, r, c),
        r < r2,
    ensures
        area_inv(a, r2, 0),
{
}

/// The tokens before the character of a cell: resets, line feeds and spaces up to the cell's
/// position, and its style.
proof fn lemma_cell_lead(
    cells: Seq<(CanvasIndex, CanvasCell)>,
    k: int,
    area: CanvasRect,
    est: ExportState,
    ist: ImportState,
) -> (s5: ImportState)
    requires
        exportable_cells(cells, area),
        0 <= k < cells.len(),
        corresponds(est, ist, cells, k, area),
        area.column != i16::MIN,
    ensures
        ({
            let (idx, cell) = cells[k];
            let ct = cell_tokens(est, area.column, idx, cell);
            &&& tok_steps(ist, ct.drop_last()) == Some(s5)
            &&& ct.last() == AnsiToken::Char(cell.character)
            &&& s5.row == idx.0 - area.row
            &&& s5.col == idx.1 - area.column
            &&& s5.fg == written_color(cell.fg)
            &&& s5.bg == written_color(cell.bg)
            &&& s5.modifiers == cell.modifiers
            &&& s5.cells == ist.cells
            &&& area_inv(s5.area, s5.row, s5.col)
        }),
{
    reveal(corresponds);
    let (idx, cell) = cells[k];
    let fc = area.column;
    let plan = cell_plan(est, fc, idx, cell);
    assert(area.row <= idx.0 && idx.0 - area.row < i16::MAX);
    assert(area.column <= idx.1 && idx.1 - area.column < i16::MAX);
    if k > 0 {
        assert(idx_lt(cells[k - 1].0, cells[k].0));
    }
    assert(idx.0 >= est.prev_row);
    assert(idx.0 == est.prev_row ==> idx.1 > est.prev_col);
    assert(est.prev_col >= area.column - 1);
    assert(plan.linebreaks >= 0);
    assert(plan.spaces >= 0);
    let r1 = reset_if(plan.reset1);
    let nl = repeat_token(AnsiToken::Char('\n'), plan.linebreaks);
    let sp = repeat_token(AnsiToken::Char(' '), plan.spaces);
    let r2 = reset_if(plan.reset2);
    let p1 = if plan.reset1 { default_cell() } else { est.prev };
    let st = style_tokens(plan.after_resets, cell);
    let ct = cell_tokens(est, fc, idx, cell);
    assert(ct == r1 + nl + sp + r2 + st + seq![AnsiToken::Char(cell.character)]);
    assert(ct.drop_last() =~= r1 + nl + sp + r2 + st);
    // resets
    lemma_reset_if(ist, plan.reset1);
    let s1 = tok_steps(ist, r1)->0;
    assert(s1.fg == written_color(p1.fg) && s1.bg == written_color(p1.bg) && s1.modifiers == p1.modifiers);
    // line feeds
    lemma_newlines(s1, plan.linebreaks);
    lemma_tok_steps_concat(ist, r1, nl);
    let s2 = tok_steps(s1, nl)->0;
    if plan.linebreaks > 0 {
        lemma_area_inv_down(s1.area, s1.row, s1.col, s2.row);
    }
    assert(s2.col == if plan.linebreaks > 0 { 0 } else { ist.col });
    // spaces
    let s3 = if plan.spaces > 0 {
        assert(blank_style(s2.fg, s2.bg, s2.modifiers));
        lemma_spaces(s2, plan.spaces);
        tok_steps(s2, sp)->0
    } else {
        assert(sp =~= Seq::<AnsiToken>::empty());
        s2
    };
    assert(tok_steps(s2, sp) == Some(s3));
    lemma_tok_steps_concat(ist, r1 + nl, sp);
    assert(s3.col == idx.1 - area.column);
    assert(s3.row == idx.0 - area.row);
    // modifier reset
    lemma_reset_if(s3, plan.reset2);
    lemma_tok_steps_concat(ist, r1 + nl + sp, r2);
    let s4 = tok_steps(s3, r2)->0;
    // style
    lemma_style(s4, plan.after_resets, cell);
    lemma_tok_steps_concat(ist, r1 + nl + sp + r2, st);
    let s5 = tok_steps(s4, st)->0;
    s5
}


/// The tokens of one cell take the import to the state that corresponds to the export after it.
proof fn lemma_cell_step(
    cells: Seq<(CanvasIndex, CanvasCell)>,
    k: int,
    area: CanvasRect,
    est: ExportState,
    ist: ImportState,
) -> (ist2: ImportState)
    requires
        exportable_cells(cells, area),
        0 <= k < cells.len(),
        corresponds(est, ist, cells, k, area),
        area.column != i16::MIN,
    ensures
        tok_steps(ist, cell_tokens(est, area.column, cells[k].0, cells[k].1)) == Some(ist2),
        corresponds(export_cell(est, area.column, cells[k].0, cells[k].1), ist2, cells, k + 1, area),
{
    reveal(corresponds);
    let (idx, cell) = cells[k];
    let ct = cell_tokens(est, area.column, idx, cell);
    let s5 = lemma_cell_lead(cells, k, area, est, ist);
    let ch = cell.character;
    assert(!spec_is_control(ch));
    lemma_print(s5, ch);
    lemma_tok_steps_one(s5, AnsiToken::Char(ch));
    assert(ct.drop_last() + seq![ct.last()] =~= ct);
    lemma_tok_steps_concat(ist, ct.drop_last(), seq![ct.last()]);
    let s6 = tok_step(s5, AnsiToken::Char(ch))->0;
    let est2 = export_cell(est, area.column, idx, cell);
    let p = (s5.row, s5.col);
    assert((p.0 + area.row) as i16 == idx.0 && (p.1 + area.column) as i16 == idx.1);
    // the map of the first k + 1 cells
    let pre = cells.take(k);
    assert(sorted_keys(pre));
    assert forall|j: int| 0 <= j < k implies idx_lt(#[trigger] pre[j].0, idx) by {
        assert(pre[j] == cells[j]);
    }
    crate::index_map::lemma_entries_map_insert(pre, k, idx, cell);
    assert(pre.insert(k, (idx, cell)) =~= cells.take(k + 1));
    assert(!entries_map(pre).contains_key(idx)) by {
        assert forall|j: int| 0 <= j < pre.len() implies pre[j].0 != idx by {
            assert(idx_lt(pre[j].0, idx));
        }
        crate::index_map::lemma_entries_map_absent(pre, idx);
    }
    assert forall|j: CanvasIndex| #[trigger] read_cell(s6.cells, j) == expected_read(
        cells,
        k + 1,
        area,
        j,
    ) by {
        assert(read_cell(ist.cells, j) == expected_read(cells, k, area, j));
        if j == p {
            assert(expected_read(cells, k, area, j) == written_cell(default_cell()));
            assert(expected_read(cells, k + 1, area, j) == written_cell(cell));
        } else {
            assert(expected_read(cells, k + 1, area, j) == expected_read(cells, k, area, j));
        }
    }
    s6
}


/// The tokens that the export writes for the cells from the `k`-th on take the import to the
/// state that corresponds to the export after all cells.
proof fn lemma_export_loop(
    cells: Seq<(CanvasIndex, CanvasCell)>,
    k: int,
    area: CanvasRect,
    est: ExportState,
    ist: ImportState,
) -> (ist_f: ImportState)
    requires
        exportable_cells(cells, area),
        0 <= k <= cells.len(),
        corresponds(est, ist, cells, k, area),
        area.column != i16::MIN,
        export_from(cells, k, est, area.column) is Some,
    ensures
        ({
            let fin = export_from(cells, k, est, area.column)->0;
            &&& est.tokens.len() <= fin.tokens.len()
            &&& fin.tokens.subrange(0, est.tokens.len() as int) == est.tokens
            &&& tok_steps(ist, fin.tokens.subrange(est.tokens.len() as int, fin.tokens.len() as int))
                == Some(ist_f)
            &&& corresponds(fin, ist_f, cells, cells.len() as int, area)
        }),
    decreases cells.len() - k,
{
    let fin = export_from(cells, k, est, area.column)->0;
    if k >= cells.len() {
        assert(fin == est);
        assert(fin.tokens.subrange(0, est.tokens.len() as int) =~= est.tokens);
        assert(fin.tokens.subrange(est.tokens.len() as int, fin.tokens.len() as int)
            =~= Seq::<AnsiToken>::empty());
        assert(k == cells.len());
        ist
    } else {
        let (idx, cell) = cells[k];
        let est2 = export_cell(est, area.column, idx, cell);
        let ct = cell_tokens(est, area.column, idx, cell);
        let ist2 = lemma_cell_step(cells, k, area, est, ist);
        assert(export_from(cells, k, est, area.column) == export_from(cells, k + 1, est2, area.column));
        let ist_f = lemma_export_loop(cells, k + 1, area, est2, ist2);
        assert(est2.tokens == est.tokens + ct);
        let n0 = est.tokens.len() as int;
        let n1 = est2.tokens.len() as int;
        let rest = fin.tokens.subrange(n1, fin.tokens.len() as int);
        assert(fin.tokens.subrange(0, n0) =~= est.tokens) by {
            assert(fin.tokens.subrange(0, n0) =~= fin.tokens.subrange(0, n1).subrange(0, n0));
            assert(est2.tokens.subrange(0, n0) =~= est.tokens);
        }
        assert(fin.tokens.subrange(n0, fin.tokens.len() as int) =~= ct + rest) by {
            assert forall|j: int| 0 <= j < ct.len() implies #[trigger] fin.tokens.subrange(
                n0,
                fin.tokens.len() as int,
            )[j] == ct[j] by {
                assert(fin.tokens.subrange(0, n1)[n0 + j] == est2.tokens[n0 + j]);
            }
        }
        lemma_tok_steps_concat(ist, ct, rest);
        ist_f
    }
}

/// What reading an exported canvas back gives at `j`: the cell of the canvas at `j` moved by
/// the area's first row and column, with its colors as they are written; the default cell
/// where that position lies outside the range of indices.
pub open spec fn read_moved(canvas: Canvas, j: CanvasIndex) -> CanvasCell {
    if fits_i16(j.0 + canvas.area.row) && fits_i16(j.1 + canvas.area.column) {
        written_cell(
            canvas.spec_cell(((j.0 + canvas.area.row) as i16, (j.1 + canvas.area.column) as i16)),
        )
    } else {
        default_cell()
    }
}

/// Importing what the export writes, with colors on, reads back every cell of the canvas: the
/// cell at `j` of the import is the cell of the canvas at `j` moved by the area's first row and
/// column, its named colors written as their palette entries. This holds of a canvas whose
/// cells lie in its area from the first row and column on, short of the end of the index range
/// from there, and hold no control characters, and whose export stays in range.
#[verifier::spinoff_prover]
#[verifier::rlimit(50)]
pub proof fn law_import_of_export(canvas: Canvas)
    requires
        canvas.wf(),
        exportable_cells(canvas.cells@, canvas.area),
        spec_export_tokens(canvas.area, canvas.cells@) is Some,
    ensures
        ({
            let ts = spec_export_tokens(canvas.area, canvas.cells@)->0;
            let text = render(ts, all_enabled(ts.len()));
            spec_import(text, true) matches ImportOutcome::Done(st) && forall|j: CanvasIndex|
                #[trigger] read_cell(st.cells, j) == read_moved(canvas, j)
        }),
{
    reveal(corresponds);
    let cells = canvas.cells@;
    let area = canvas.area;
    let n = cells.len() as int;
    let est0 = initial_export_state(area);
    let ist_init = initial_import_state();
    lemma_tok_steps_one(ist_init, AnsiToken::ResetAll);
    let ist0 = tok_steps(ist_init, seq![AnsiToken::ResetAll])->0;
    assert(ist0 == ist_init);
    assert forall|j: CanvasIndex| #[trigger] read_cell(ist0.cells, j) == expected_read(cells, 0, area, j) by {
        assert(entries_map(cells.take(0)) =~= Map::<CanvasIndex, CanvasCell>::empty());
    }
    assert(corresponds(est0, ist0, cells, 0, area));
    let fin = export_from(cells, 0, est0, area.column)->0;
    let ist_f = lemma_export_loop(cells, 0, area, est0, ist0);
    let rest = fin.tokens.subrange(1, fin.tokens.len() as int);
    assert(fin.tokens =~= seq![AnsiToken::ResetAll] + rest);
    lemma_tok_steps_concat(ist_init, seq![AnsiToken::ResetAll], rest);
    // the tail: a reset after styled text, and a line feed
    let tail_reset = if spec_has_sgr_effects(fin.prev) {
        seq![AnsiToken::ResetAll]
    } else {
        Seq::<AnsiToken>::empty()
    };
    let ts = fin.tokens + tail_reset + seq![AnsiToken::Char('\n')];
    assert(ts == spec_export_tokens(area, cells)->0);
    lemma_reset_if(ist_f, spec_has_sgr_effects(fin.prev));
    assert(reset_if(spec_has_sgr_effects(fin.prev)) == tail_reset);
    lemma_tok_steps_concat(ist_init, fin.tokens, tail_reset);
    let ist_r = tok_steps(ist_f, tail_reset)->0;
    if n > 0 {
        assert(exportable_cells(cells, area));
        assert(cells[n - 1].0.0 - area.row < i16::MAX);
    }
    assert(ist_r.row < i16::MAX);
    lemma_tok_steps_one(ist_r, AnsiToken::Char('\n'));
    lemma_tok_steps_concat(ist_init, fin.tokens + tail_reset, seq![AnsiToken::Char('\n')]);
    let ist_end = tok_step(ist_r, AnsiToken::Char('\n'))->0;
    assert(tok_steps(ist_init, ts) == Some(ist_end));
    let text = render(ts, all_enabled(ts.len()));
    assert(text.subrange(0, text.len() as int) =~= text);
    lemma_tokens_step(text, 0, ist_init, ts);
    assert(spec_import(text, true) == ImportOutcome::Done(ist_end));
    assert(cells.take(n) =~= cells);
    assert forall|j: CanvasIndex| #[trigger] read_cell(ist_end.cells, j) == read_moved(canvas, j) by {
        assert(read_cell(ist_f.cells, j) == expected_read(cells, n, area, j));
    }
}

/// A color that has a name, rather than a palette index or red, green and blue values.
pub open spec fn is_named_color(c: Color) -> bool {
    !(c is Reset || c is Indexed || c is Rgb)
}

/// The SGR color attributes are the standard palette: `30 + n` and `40 + n` set the foreground
/// and the background to the named color that the export writes as palette entry `n`, and
/// `90 + n` and `100 + n` to the one it writes as entry `8 + n`; the reading goes on with the
/// next parameter.
pub proof fn law_sgr_colors_are_the_palette(
    pieces: Seq<Seq<char>>,
    k: int,
    fg: Color,
    bg: Color,
    m: Modifier,
    index: CanvasIndex,
    sequence: Seq<char>,
    n: int,
)
    requires
        0 <= k < pieces.len(),
        0 <= n < 8,
    ensures
        piece_value(pieces, k) == 30 + n ==> exists|c: Color|
            is_named_color(c) && written_color(c) == Color::Indexed(n as u8) && #[trigger] spec_apply_sgr(
                pieces,
                k + 1,
                c,
                bg,
                m,
                index,
                sequence,
            ) == spec_apply_sgr(pieces, k, fg, bg, m, index, sequence),
        piece_value(pieces, k) == 40 + n ==> exists|c: Color|
            is_named_color(c) && written_color(c) == Color::Indexed(n as u8) && #[trigger] spec_apply_sgr(
                pieces,
                k + 1,
                fg,
                c,
                m,
                index,
                sequence,
            ) == spec_apply_sgr(pieces, k, fg, bg, m, index, sequence),
        piece_value(pieces, k) == 90 + n ==> exists|c: Color|
            is_named_color(c) && written_color(c) == Color::Indexed((8 + n) as u8)
                && #[trigger] spec_apply_sgr(pieces, k + 1, c, bg, m, index, sequence) == spec_apply_sgr(
                pieces,
                k,
                fg,
                bg,
                m,
                index,
                sequence,
            ),
        piece_value(pieces, k) == 100 + n ==> exists|c: Color|
            is_named_color(c) && written_color(c) == Color::Indexed((8 + n) as u8)
                && #[trigger] spec_apply_sgr(pieces, k + 1, fg, c, m, index, sequence) == spec_apply_sgr(
                pieces,
                k,
                fg,
                bg,
                m,
                index,
                sequence,
            ),
{
    let v = piece_value(pieces, k);
    if v == 30 + n {
        let c = spec_named_color(n);
        assert(is_named_color(c) && written_color(c) == Color::Indexed(n as u8));
        assert(spec_apply_sgr(pieces, k + 1, c, bg, m, index, sequence) == spec_apply_sgr(pieces, k, fg, bg, m, index, sequence));
    }
    if v == 40 + n {
        let c = spec_named_color(n);
        assert(is_named_color(c) && written_color(c) == Color::Indexed(n as u8));
        assert(spec_apply_sgr(pieces, k + 1, fg, c, m, index, sequence) == spec_apply_sgr(pieces, k, fg, bg, m, index, sequence));
    }
    if v == 90 + n {
        let c = spec_bright_color(n);
        assert(is_named_color(c) && written_color(c) == Color::Indexed((8 + n) as u8));
        assert(spec_apply_sgr(pieces, k + 1, c, bg, m, index, sequence) == spec_apply_sgr(pieces, k, fg, bg, m, index, sequence));
    }
    if v == 100 + n {
        let c = spec_bright_color(n);
        assert(is_named_color(c) && written_color(c) == Color::Indexed((8 + n) as u8));
        assert(spec_apply_sgr(pieces, k + 1, fg, c, m, index, sequence) == spec_apply_sgr(pieces, k, fg, bg, m, index, sequence));
    }
}

} // verus!
