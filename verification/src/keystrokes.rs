use vstd::prelude::*;

use crate::ansi_import::{all_digits, decimal_value};
use crate::iter::CanvasIterationJump;
use crate::keystroke::{KeyCode, Keystroke};
use crate::text::is_digit;

verus! {

/// Why a value could not be read from keystrokes.
#[derive(Debug, Clone, Copy, PartialEq, Eq, Structural)]
pub enum FromKeystrokesError {
    /// More keystrokes are needed.
    MissingKeystrokes,
    /// The keystrokes do not stand for a value.
    Invalid,
}

/// A field of a preset: a fixed value, or one read from keystrokes.
#[derive(Debug, Clone, Copy, PartialEq, Eq)]
pub enum PresetStructField<T> {
    FromKeystrokes,
    Preset(T),
}

/// One preset, or several to try in turn, as a configuration file gives them.
#[derive(Debug)]
pub enum PresetSourcesSerde<T> {
    Single(T),
    Multiple(Vec<T>),
}

/// Presets to try in turn.
#[derive(Debug)]
pub struct PresetSources<T>(pub Vec<T>);

impl<T> PresetSources<T> {
    /// The presets that a configuration entry gives: the single one, or all of them.
    pub fn from_serde(value: PresetSourcesSerde<T>) -> (r: Self)
        ensures
            match value {
                PresetSourcesSerde::Single(v) => r.0@ == seq![v],
                PresetSourcesSerde::Multiple(vs) => r.0@ == vs@,
            },
    {
        match value {
            PresetSourcesSerde::Single(v) => {
                let mut r: Vec<T> = Vec::new();
                r.push(v);
                proof {
                    assert(r@ =~= seq![v]);
                }
                PresetSources(r)
            },
            PresetSourcesSerde::Multiple(vs) => PresetSources(vs),
        }
    }
}

/// The error that trying every preset ends in: `MissingKeystrokes` where one of the tries
/// asked for more keystrokes, `Invalid` otherwise.
pub open spec fn preset_sources_error(errors: Seq<FromKeystrokesError>) -> FromKeystrokesError {
    if exists|j: int| 0 <= j < errors.len() && errors[j] == FromKeystrokesError::MissingKeystrokes {
        FromKeystrokesError::MissingKeystrokes
    } else {
        FromKeystrokesError::Invalid
    }
}

/// Combines the errors of failed tries of every preset into the one that is reported.
pub fn combine_preset_errors(errors: &Vec<FromKeystrokesError>) -> (r: FromKeystrokesError)
    ensures
        r == preset_sources_error(errors@),
{
    let mut error = FromKeystrokesError::Invalid;
    let mut i: usize = 0;
    while i < errors.len()
        invariant
            0 <= i <= errors@.len(),
            error == preset_sources_error(errors@.take(i as int)),
        decreases errors@.len() - i,
    {
        match errors[i] {
            FromKeystrokesError::MissingKeystrokes => {
                error = FromKeystrokesError::MissingKeystrokes;
            },
            FromKeystrokesError::Invalid => {},
        }
        proof {
            let t = errors@.take(i as int + 1);
            if errors@[i as int] == FromKeystrokesError::MissingKeystrokes {
                assert(t[i as int] == FromKeystrokesError::MissingKeystrokes);
            } else if exists|j: int| 0 <= j < t.len() && t[j] == FromKeystrokesError::MissingKeystrokes {
                let j = choose|j: int| 0 <= j < t.len() && t[j] == FromKeystrokesError::MissingKeystrokes;
                assert(errors@.take(i as int)[j] == FromKeystrokesError::MissingKeystrokes);
            } else {
                assert forall|j: int| 0 <= j < i implies errors@.take(i as int)[j] != FromKeystrokesError::MissingKeystrokes by {
                    assert(t[j] == errors@.take(i as int)[j]);
                }
            }
        }
        i += 1;
    }
    proof {
        assert(errors@.take(errors@.len() as int) =~= errors@);
    }
    error
}

/// An unsigned number in a keymap: fixed, or typed as decimal digits.
#[derive(Debug, Clone, Copy, PartialEq, Eq)]
pub enum UnsignedIntegerKeymapEntry<T> {
    TypeDecimal,
    Number(T),
}

impl UnsignedIntegerKeymapEntry<u16> {
    pub fn from_number(value: u16) -> (r: Self)
        ensures
            r == UnsignedIntegerKeymapEntry::Number(value),
    {
        UnsignedIntegerKeymapEntry::Number(value)
    }
}

/// A character in a keymap: fixed, or typed.
#[derive(Debug, Clone, Copy, PartialEq, Eq, Structural)]
pub enum CharKeymapEntry {
    Type,
    Char(char),
}

/// A motion moves one cell unless a keymap says otherwise.
pub fn default_number_of_cells() -> (r: UnsignedIntegerKeymapEntry<u16>)
    ensures
        r == UnsignedIntegerKeymapEntry::Number(1u16),
{
    UnsignedIntegerKeymapEntry::from_number(1)
}

/// A motion steps by its direction unless a keymap says otherwise.
pub fn default_jump() -> (r: PresetStructField<CanvasIterationJump>)
    ensures
        r == PresetStructField::Preset(CanvasIterationJump::DirectionAsStride),
{
    PresetStructField::Preset(CanvasIterationJump::DirectionAsStride)
}

/// A value that can be typed as text, read as `str::parse` reads it.
pub trait TypedValue: Sized {
    /// The value that the text `s` stands for, if any.
    spec fn spec_parse(s: Seq<char>) -> Option<Self>;

    fn parse_chars(s: &Vec<char>) -> (r: Option<Self>)
        ensures
            r == Self::spec_parse(s@),
    ;
}

/// The digits of an unsigned number as `u16::from_str` reads it: after an optional `+`.
pub open spec fn unsigned_digits(s: Seq<char>) -> Seq<char> {
    if s.len() > 0 && s[0] == '+' {
        s.drop_first()
    } else {
        s
    }
}

/// The decimal value of `s` from `start` on, where that is a non-empty run of digits whose
/// value is at most `cap`.
fn read_decimal_capped(s: &Vec<char>, start: usize, cap: u32) -> (r: Option<u32>)
    requires
        start <= s@.len(),
        cap <= u16::MAX,
    ensures
        ({
            let d = s@.subrange(start as int, s@.len() as int);
            match r {
                Some(v) => d.len() > 0 && all_digits(d) && v == decimal_value(d) && v <= cap,
                None => !(d.len() > 0 && all_digits(d) && decimal_value(d) <= cap),
            }
        }),
{
    let n = s.len();
    let ghost d = s@.subrange(start as int, n as int);
    if start == n {
        return None;
    }
    let mut v: u32 = 0;
    let mut i: usize = start;
    while i < n
        invariant
            start <= i <= n,
            n == s@.len(),
            d == s@.subrange(start as int, n as int),
            all_digits(d.take(i - start)),
            v == decimal_value(d.take(i - start)),
            v <= cap,
            cap <= u16::MAX,
        decreases n - i,
    {
        let c = s[i];
        if !is_digit(c) {
            assert(d[i - start] == c);
            assert(!all_digits(d));
            return None;
        }
        let ghost t = d.take(i - start + 1);
        assert(t.drop_last() =~= d.take(i - start));
        assert(t.last() == c);
        v = v * 10 + (c as u32 - '0' as u32);
        assert(all_digits(t));
        assert(v == decimal_value(t));
        if v > cap {
            proof {
                if all_digits(d) {
                    crate::ansi_import::lemma_decimal_prefix(d, i - start + 1);
                }
            }
            return None;
        }
        i += 1;
    }
    assert(d.take(n - start) =~= d);
    Some(v)
}

impl TypedValue for u16 {
    /// A number of decimal digits, after an optional `+`, that fits in a `u16`.
    open spec fn spec_parse(s: Seq<char>) -> Option<u16> {
        let d = unsigned_digits(s);
        if d.len() > 0 && all_digits(d) && decimal_value(d) <= u16::MAX {
            Some(decimal_value(d) as u16)
        } else {
            None
        }
    }

    fn parse_chars(s: &Vec<char>) -> (r: Option<u16>) {
        let start: usize = if s.len() > 0 && s[0] == '+' {
            1
        } else {
            0
        };
        proof {
            assert(unsigned_digits(s@) =~= s@.subrange(start as int, s@.len() as int));
        }
        match read_decimal_capped(s, start, 65535) {
            Some(v) => Some(v as u16),
            None => None,
        }
    }
}

/// The digits of a signed number as `i16::from_str` reads it: after an optional `+` or `-`.
pub open spec fn signed_digits(s: Seq<char>) -> Seq<char> {
    if s.len() > 0 && (s[0] == '+' || s[0] == '-') {
        s.drop_first()
    } else {
        s
    }
}

impl TypedValue for i16 {
    /// A number of decimal digits, after an optional `+` or `-`, that fits in an `i16`.
    open spec fn spec_parse(s: Seq<char>) -> Option<i16> {
        let d = signed_digits(s);
        let negative = s.len() > 0 && s[0] == '-';
        if d.len() > 0 && all_digits(d) && (if negative {
            decimal_value(d) <= 32768
        } else {
            decimal_value(d) <= i16::MAX
        }) {
            Some(
                if negative {
                    (-decimal_value(d)) as i16
                } else {
                    decimal_value(d) as i16
                },
            )
        } else {
            None
        }
    }

    fn parse_chars(s: &Vec<char>) -> (r: Option<i16>) {
        let negative = s.len() > 0 && s[0] == '-';
        let start: usize = if s.len() > 0 && (s[0] == '+' || s[0] == '-') {
            1
        } else {
            0
        };
        proof {
            assert(signed_digits(s@) =~= s@.subrange(start as int, s@.len() as int));
        }
        let cap: u32 = if negative {
            32768
        } else {
            32767
        };
        match read_decimal_capped(s, start, cap) {
            Some(v) => if negative {
                Some((0 - (v as i32)) as i16)
            } else {
                Some(v as i16)
            },
            None => None,
        }
    }
}

impl TypedValue for bool {
    /// Exactly `true` or `false`.
    open spec fn spec_parse(s: Seq<char>) -> Option<bool> {
        if s == seq!['t', 'r', 'u', 'e'] {
            Some(true)
        } else if s == seq!['f', 'a', 'l', 's', 'e'] {
            Some(false)
        } else {
            None
        }
    }

    fn parse_chars(s: &Vec<char>) -> (r: Option<bool>) {
        if s.len() == 4 && s[0] == 't' && s[1] == 'r' && s[2] == 'u' && s[3] == 'e' {
            assert(s@ =~= seq!['t', 'r', 'u', 'e']);
            Some(true)
        } else if s.len() == 5 && s[0] == 'f' && s[1] == 'a' && s[2] == 'l' && s[3] == 's' && s[4]
            == 'e' {
            assert(s@ =~= seq!['f', 'a', 'l', 's', 'e']);
            Some(false)
        } else {
            None
        }
    }
}

impl TypedValue for char {
    /// Exactly one character.
    open spec fn spec_parse(s: Seq<char>) -> Option<char> {
        if s.len() == 1 {
            Some(s[0])
        } else {
            None
        }
    }

    fn parse_chars(s: &Vec<char>) -> (r: Option<char>) {
        if s.len() == 1 {
            Some(s[0])
        } else {
            None
        }
    }
}

/// The character that a keystroke types: a character key without modifiers.
pub open spec fn typed_char(k: Keystroke) -> Option<char> {
    match k.code {
        KeyCode::Char(c) => if k.modifiers.is_none() {
            Some(c)
        } else {
            None
        },
        _ => None,
    }
}

/// Reading a typed value from the keystrokes from `pos` on, after `text` was typed and read as
/// `result`: each further typed character is taken while the text still reads as a value; the
/// keystroke after the last one taken must be there, and is left.
pub open spec fn spec_from_str_from<T: TypedValue>(
    ks: Seq<Keystroke>,
    pos: int,
    text: Seq<char>,
    result: Option<T>,
) -> Result<(T, int), FromKeystrokesError>
    decreases ks.len() - pos,
{
    if pos < 0 || pos >= ks.len() {
        Err(FromKeystrokesError::MissingKeystrokes)
    } else {
        let stop = match result {
            Some(v) => Ok((v, pos)),
            None => Err(FromKeystrokesError::Invalid),
        };
        match typed_char(ks[pos]) {
            Some(c) => match T::spec_parse(text.push(c)) {
                Some(v) => spec_from_str_from(ks, pos + 1, text.push(c), Some(v)),
                None => stop,
            },
            None => stop,
        }
    }
}

/// Reads a typed value from the keystrokes from `pos` on: the value of the longest run of typed
/// characters that still reads as one, with the position after it. The keystroke after the run
/// must have been typed already (`MissingKeystrokes` otherwise); where not even the first
/// character reads as a value, the keystrokes are `Invalid`.
pub fn from_keystrokes_by_from_str<T: TypedValue>(keystrokes: &Vec<Keystroke>, pos: usize) -> (r:
    Result<(T, usize), FromKeystrokesError>)
    ensures
        match r {
            Ok((v, p)) => spec_from_str_from(keystrokes@, pos as int, Seq::empty(), None::<T>)
                == Ok::<(T, int), FromKeystrokesError>((v, p as int)),
            Err(e) => spec_from_str_from(keystrokes@, pos as int, Seq::empty(), None::<T>)
                == Err::<(T, int), FromKeystrokesError>(e),
        },
{
    let ghost goal = spec_from_str_from(keystrokes@, pos as int, Seq::empty(), None::<T>);
    let mut to_parse: Vec<char> = Vec::new();
    let mut result: Option<T> = None;
    let mut i: usize = pos;
    loop
        invariant
            goal == spec_from_str_from(keystrokes@, pos as int, Seq::empty(), None::<T>),
            spec_from_str_from(keystrokes@, i as int, to_parse@, result) == goal,
            pos <= i,
        decreases keystrokes@.len() - i,
    {
        if i >= keystrokes.len() {
            return Err(FromKeystrokesError::MissingKeystrokes);
        }
        let k = keystrokes[i];
        let typed = match k.code {
            KeyCode::Char(c) => if !k.modifiers.shift && !k.modifiers.control && !k.modifiers.alt
                && !k.modifiers.super_key && !k.modifiers.hyper && !k.modifiers.meta {
                Some(c)
            } else {
                None
            },
            _ => None,
        };
        let parsed = match typed {
            Some(c) => {
                let mut longer = to_parse.clone();
                longer.push(c);
                proof {
                    assert(longer@ =~= to_parse@.push(c));
                }
                match T::parse_chars(&longer) {
                    Some(v) => Some((v, longer)),
                    None => None,
                }
            },
            None => None,
        };
        match parsed {
            Some((v, longer)) => {
                to_parse = longer;
                result = Some(v);
                i += 1;
            },
            None => {
                return match result {
                    Some(v) => Ok((v, i)),
                    None => Err(FromKeystrokesError::Invalid),
                };
            },
        }
    }
}

} // verus!
