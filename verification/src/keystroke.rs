use vstd::prelude::*;

use crate::ansi_export::{dec, digit_char};

verus! {

/// A key, as the terminal reports it. Media keys and lone modifier keys are `Other`.
#[derive(Debug, Clone, Copy, PartialEq, Eq, Structural, Hash)]
pub enum KeyCode {
    Backspace,
    Enter,
    Left,
    Right,
    Up,
    Down,
    Home,
    End,
    PageUp,
    PageDown,
    Tab,
    BackTab,
    Delete,
    Insert,
    F(u8),
    Char(char),
    Null,
    Esc,
    CapsLock,
    ScrollLock,
    NumLock,
    PrintScreen,
    Pause,
    Menu,
    KeypadBegin,
    Other,
}

/// The modifier keys held down with a key.
#[derive(Debug, Clone, Copy, PartialEq, Eq, Structural, Hash)]
pub struct KeyModifiers {
    pub shift: bool,
    pub control: bool,
    pub alt: bool,
    pub super_key: bool,
    pub hyper: bool,
    pub meta: bool,
}

impl KeyModifiers {
    pub fn none() -> (m: Self)
        ensures
            !m.shift && !m.control && !m.alt && !m.super_key && !m.hyper && !m.meta,
    {
        KeyModifiers {
            shift: false,
            control: false,
            alt: false,
            super_key: false,
            hyper: false,
            meta: false,
        }
    }

    pub open spec fn is_none(self) -> bool {
        !self.shift && !self.control && !self.alt && !self.super_key && !self.hyper && !self.meta
    }
}

/// A key together with the modifiers held down.
#[derive(Debug, Clone, Copy, PartialEq, Eq, Structural, Hash)]
pub struct Keystroke {
    pub code: KeyCode,
    pub modifiers: KeyModifiers,
}

/// Keystrokes in the order they were typed.
#[derive(Debug)]
pub struct KeystrokeSequence(pub Vec<Keystroke>);

impl KeystrokeSequence {
    pub fn new() -> (s: Self)
        ensures
            s.0@ == Seq::<Keystroke>::empty(),
    {
        KeystrokeSequence(Vec::new())
    }
}

/// The name a key is written with between angle brackets, where it has one: the keys that are
/// not characters, and `<` itself (`lt`).
pub open spec fn special_name(code: KeyCode) -> Option<Seq<char>> {
    match code {
        KeyCode::Null => Some(seq!['N', 'u', 'l']),
        KeyCode::Backspace => Some(seq!['B', 'S']),
        KeyCode::Tab => Some(seq!['T', 'a', 'b']),
        KeyCode::Enter => Some(seq!['E', 'n', 't', 'e', 'r']),
        KeyCode::Esc => Some(seq!['E', 's', 'c']),
        KeyCode::Char(c) => if c == '<' {
            Some(seq!['l', 't'])
        } else {
            None
        },
        KeyCode::Delete => Some(seq!['D', 'e', 'l']),
        KeyCode::Up => Some(seq!['U', 'p']),
        KeyCode::Down => Some(seq!['D', 'o', 'w', 'n']),
        KeyCode::Left => Some(seq!['L', 'e', 'f', 't']),
        KeyCode::Right => Some(seq!['R', 'i', 'g', 'h', 't']),
        KeyCode::Insert => Some(seq!['I', 'n', 's', 'e', 'r', 't']),
        KeyCode::Home => Some(seq!['H', 'o', 'm', 'e']),
        KeyCode::End => Some(seq!['E', 'n', 'd']),
        KeyCode::PageUp => Some(seq!['P', 'a', 'g', 'e', 'U', 'p']),
        KeyCode::PageDown => Some(seq!['P', 'a', 'g', 'e', 'D', 'o', 'w', 'n']),
        KeyCode::F(n) => Some(seq!['F'] + dec(n as nat)),
        _ => None,
    }
}

pub open spec fn text_if(on: bool, s: Seq<char>) -> Seq<char> {
    if on {
        s
    } else {
        Seq::empty()
    }
}

/// How a keystroke is written in a keymap: a character stands for itself; a special key, or a
/// key held with control or alt, is written between angle brackets, with `C-` for control and
/// `A-` for alt before the key's name.
pub open spec fn spec_stringify_keystroke(keystroke: Keystroke) -> Seq<char> {
    let special = special_name(keystroke.code);
    let brackets = special is Some || keystroke.modifiers.control || keystroke.modifiers.alt;
    let name = match special {
        Some(s) => s,
        None => match keystroke.code {
            KeyCode::Char(c) => seq![c],
            _ => Seq::empty(),
        },
    };
    text_if(brackets, seq!['<']) + text_if(keystroke.modifiers.control, seq!['C', '-'])
        + text_if(keystroke.modifiers.alt, seq!['A', '-']) + name + text_if(brackets, seq!['>'])
}

fn digit(d: u8) -> (c: char)
    requires
        d < 10,
    ensures
        c == digit_char(d as nat),
{
    match d {
        0 => '0',
        1 => '1',
        2 => '2',
        3 => '3',
        4 => '4',
        5 => '5',
        6 => '6',
        7 => '7',
        8 => '8',
        _ => '9',
    }
}

/// Appends the decimal digits of `n`.
fn push_decimal(s: &mut String, n: u8)
    ensures
        final(s)@ == old(s)@ + dec(n as nat),
{
    let ghost start = s@;
    if n >= 100 {
        s.push(digit(n / 100));
        s.push(digit((n / 10) % 10));
        s.push(digit(n % 10));
        proof {
            let n1 = (n / 10) as nat;
            assert(dec(n1) == dec(n1 / 10).push(digit_char(n1 % 10)));
            assert(dec(n1 / 10) == seq![digit_char(n1 / 10)]);
            assert(s@ =~= start + dec(n as nat));
        }
    } else if n >= 10 {
        s.push(digit(n / 10));
        s.push(digit(n % 10));
        proof {
            assert(dec((n / 10) as nat) == seq![digit_char((n / 10) as nat)]);
            assert(s@ =~= start + dec(n as nat));
        }
    } else {
        s.push(digit(n));
        proof {
            assert(s@ =~= start + dec(n as nat));
        }
    }
}

/// Appends the name of `code` where it has one, and tells whether it had.
fn push_special_name(s: &mut String, code: KeyCode) -> (had: bool)
    ensures
        had == special_name(code) is Some,
        had ==> final(s)@ == old(s)@ + special_name(code)->0,
        !had ==> final(s)@ == old(s)@,
{
    let name: &str = match code {
        KeyCode::Null => "Nul",
        KeyCode::Backspace => "BS",
        KeyCode::Tab => "Tab",
        KeyCode::Enter => "Enter",
        KeyCode::Esc => "Esc",
        KeyCode::Char(c) => if c == '<' {
            "lt"
        } else {
            return false;
        },
        KeyCode::Delete => "Del",
        KeyCode::Up => "Up",
        KeyCode::Down => "Down",
        KeyCode::Left => "Left",
        KeyCode::Right => "Right",
        KeyCode::Insert => "Insert",
        KeyCode::Home => "Home",
        KeyCode::End => "End",
        KeyCode::PageUp => "PageUp",
        KeyCode::PageDown => "PageDown",
        KeyCode::F(n) => {
            s.push('F');
            push_decimal(s, n);
            proof {
                assert(s@ =~= old(s)@ + special_name(code)->0);
            }
            return true;
        },
        _ => {
            return false;
        },
    };
    proof {
        reveal_strlit("Nul");
        reveal_strlit("BS");
        reveal_strlit("Tab");
        reveal_strlit("Enter");
        reveal_strlit("Esc");
        reveal_strlit("lt");
        reveal_strlit("Del");
        reveal_strlit("Up");
        reveal_strlit("Down");
        reveal_strlit("Left");
        reveal_strlit("Right");
        reveal_strlit("Insert");
        reveal_strlit("Home");
        reveal_strlit("End");
        reveal_strlit("PageUp");
        reveal_strlit("PageDown");
    }
    s.push_str(name);
    true
}

/// Appends how `keystroke` is written.
fn push_keystroke(s: &mut String, keystroke: Keystroke)
    ensures
        final(s)@ == old(s)@ + spec_stringify_keystroke(keystroke),
{
    let ghost start = s@;
    let mut name = String::new();
    let special = push_special_name(&mut name, keystroke.code);
    let brackets = special || keystroke.modifiers.control || keystroke.modifiers.alt;
    if brackets {
        s.push('<');
    }
    if keystroke.modifiers.control {
        s.push('C');
        s.push('-');
    }
    if keystroke.modifiers.alt {
        s.push('A');
        s.push('-');
    }
    if special {
        s.push_str(name.as_str());
    } else if let KeyCode::Char(ch) = keystroke.code {
        s.push(ch);
    }
    if brackets {
        s.push('>');
    }
    proof {
        assert(s@ =~= start + spec_stringify_keystroke(keystroke));
    }
}

/// How `keystroke` is written in a keymap.
pub fn stringify_keystroke(keystroke: Keystroke) -> (r: String)
    ensures
        r@ == spec_stringify_keystroke(keystroke),
{
    let mut s = String::new();
    push_keystroke(&mut s, keystroke);
    proof {
        assert(s@ =~= spec_stringify_keystroke(keystroke));
    }
    s
}

/// How a sequence of keystrokes is written: each after the other.
pub open spec fn spec_stringify_sequence(keystrokes: Seq<Keystroke>) -> Seq<char>
    decreases keystrokes.len(),
{
    if keystrokes.len() == 0 {
        Seq::empty()
    } else {
        spec_stringify_sequence(keystrokes.drop_last()) + spec_stringify_keystroke(
            keystrokes.last(),
        )
    }
}

pub fn stringify_keystroke_sequence(keystrokes: &KeystrokeSequence) -> (r: String)
    ensures
        r@ == spec_stringify_sequence(keystrokes.0@),
{
    let mut s = String::new();
    let mut i: usize = 0;
    while i < keystrokes.0.len()
        invariant
            0 <= i <= keystrokes.0@.len(),
            s@ == spec_stringify_sequence(keystrokes.0@.take(i as int)),
        decreases keystrokes.0@.len() - i,
    {
        proof {
            let t = keystrokes.0@.take(i as int + 1);
            assert(t.drop_last() =~= keystrokes.0@.take(i as int));
        }
        push_keystroke(&mut s, keystrokes.0[i]);
        i += 1;
    }
    proof {
        assert(keystrokes.0@.take(keystrokes.0@.len() as int) =~= keystrokes.0@);
    }
    s
}

} // verus!
