use vstd::prelude::*;

verus! {

/// A terminal color: one of the sixteen named colors, an entry of the 256-color palette, a
/// 24-bit color, or the terminal's default (`Reset`).
#[derive(Debug, Clone, Copy, PartialEq, Eq, Structural)]
pub enum Color {
    Reset,
    Black,
    Red,
    Green,
    Yellow,
    Blue,
    Magenta,
    Cyan,
    Gray,
    DarkGray,
    LightRed,
    LightGreen,
    LightYellow,
    LightBlue,
    LightMagenta,
    LightCyan,
    White,
    Rgb(u8, u8, u8),
    Indexed(u8),
}

/// A set of text modifiers (SGR attributes 1 to 9).
#[derive(Debug, Clone, Copy, PartialEq, Eq, Structural)]
pub struct Modifier {
    pub bold: bool,
    pub dim: bool,
    pub italic: bool,
    pub underlined: bool,
    pub slow_blink: bool,
    pub rapid_blink: bool,
    pub reversed: bool,
    pub hidden: bool,
    pub crossed_out: bool,
}

pub open spec fn spec_modifier_empty() -> Modifier {
    Modifier {
        bold: false,
        dim: false,
        italic: false,
        underlined: false,
        slow_blink: false,
        rapid_blink: false,
        reversed: false,
        hidden: false,
        crossed_out: false,
    }
}

impl Modifier {
    pub open spec fn spec_union(self, o: Modifier) -> Modifier {
        Modifier {
            bold: self.bold || o.bold,
            dim: self.dim || o.dim,
            italic: self.italic || o.italic,
            underlined: self.underlined || o.underlined,
            slow_blink: self.slow_blink || o.slow_blink,
            rapid_blink: self.rapid_blink || o.rapid_blink,
            reversed: self.reversed || o.reversed,
            hidden: self.hidden || o.hidden,
            crossed_out: self.crossed_out || o.crossed_out,
        }
    }

    pub open spec fn spec_difference(self, o: Modifier) -> Modifier {
        Modifier {
            bold: self.bold && !o.bold,
            dim: self.dim && !o.dim,
            italic: self.italic && !o.italic,
            underlined: self.underlined && !o.underlined,
            slow_blink: self.slow_blink && !o.slow_blink,
            rapid_blink: self.rapid_blink && !o.rapid_blink,
            reversed: self.reversed && !o.reversed,
            hidden: self.hidden && !o.hidden,
            crossed_out: self.crossed_out && !o.crossed_out,
        }
    }

    /// Every modifier of `o` is in `self`.
    pub open spec fn spec_contains(self, o: Modifier) -> bool {
        &&& o.bold ==> self.bold
        &&& o.dim ==> self.dim
        &&& o.italic ==> self.italic
        &&& o.underlined ==> self.underlined
        &&& o.slow_blink ==> self.slow_blink
        &&& o.rapid_blink ==> self.rapid_blink
        &&& o.reversed ==> self.reversed
        &&& o.hidden ==> self.hidden
        &&& o.crossed_out ==> self.crossed_out
    }

    pub fn empty() -> (m: Modifier)
        ensures
            m == spec_modifier_empty(),
    {
        Modifier {
            bold: false,
            dim: false,
            italic: false,
            underlined: false,
            slow_blink: false,
            rapid_blink: false,
            reversed: false,
            hidden: false,
            crossed_out: false,
        }
    }

    pub fn bold() -> (m: Modifier)
        ensures
            m == (Modifier { bold: true, ..spec_modifier_empty() }),
    {
        Modifier { bold: true, ..Modifier::empty() }
    }

    pub fn dim() -> (m: Modifier)
        ensures
            m == (Modifier { dim: true, ..spec_modifier_empty() }),
    {
        Modifier { dim: true, ..Modifier::empty() }
    }

    pub fn italic() -> (m: Modifier)
        ensures
            m == (Modifier { italic: true, ..spec_modifier_empty() }),
    {
        Modifier { italic: true, ..Modifier::empty() }
    }

    pub fn underlined() -> (m: Modifier)
        ensures
            m == (Modifier { underlined: true, ..spec_modifier_empty() }),
    {
        Modifier { underlined: true, ..Modifier::empty() }
    }

    pub fn slow_blink() -> (m: Modifier)
        ensures
            m == (Modifier { slow_blink: true, ..spec_modifier_empty() }),
    {
        Modifier { slow_blink: true, ..Modifier::empty() }
    }

    pub fn rapid_blink() -> (m: Modifier)
        ensures
            m == (Modifier { rapid_blink: true, ..spec_modifier_empty() }),
    {
        Modifier { rapid_blink: true, ..Modifier::empty() }
    }

    pub fn reversed() -> (m: Modifier)
        ensures
            m == (Modifier { reversed: true, ..spec_modifier_empty() }),
    {
        Modifier { reversed: true, ..Modifier::empty() }
    }

    pub fn hidden() -> (m: Modifier)
        ensures
            m == (Modifier { hidden: true, ..spec_modifier_empty() }),
    {
        Modifier { hidden: true, ..Modifier::empty() }
    }

    pub fn crossed_out() -> (m: Modifier)
        ensures
            m == (Modifier { crossed_out: true, ..spec_modifier_empty() }),
    {
        Modifier { crossed_out: true, ..Modifier::empty() }
    }

    pub fn is_empty(&self) -> (b: bool)
        ensures
            b == (*self == spec_modifier_empty()),
    {
        !(self.bold || self.dim || self.italic || self.underlined || self.slow_blink
            || self.rapid_blink || self.reversed || self.hidden || self.crossed_out)
    }

    /// The modifiers of `self` and `o` together (`self | o`).
    pub fn union(&self, o: Modifier) -> (m: Modifier)
        ensures
            m == self.spec_union(o),
    {
        Modifier {
            bold: self.bold || o.bold,
            dim: self.dim || o.dim,
            italic: self.italic || o.italic,
            underlined: self.underlined || o.underlined,
            slow_blink: self.slow_blink || o.slow_blink,
            rapid_blink: self.rapid_blink || o.rapid_blink,
            reversed: self.reversed || o.reversed,
            hidden: self.hidden || o.hidden,
            crossed_out: self.crossed_out || o.crossed_out,
        }
    }

    pub fn insert(&mut self, o: Modifier)
        ensures
            *final(self) == old(self).spec_union(o),
    {
        *self = self.union(o);
    }

    pub fn remove(&mut self, o: Modifier)
        ensures
            *final(self) == old(self).spec_difference(o),
    {
        *self = Modifier {
            bold: self.bold && !o.bold,
            dim: self.dim && !o.dim,
            italic: self.italic && !o.italic,
            underlined: self.underlined && !o.underlined,
            slow_blink: self.slow_blink && !o.slow_blink,
            rapid_blink: self.rapid_blink && !o.rapid_blink,
            reversed: self.reversed && !o.reversed,
            hidden: self.hidden && !o.hidden,
            crossed_out: self.crossed_out && !o.crossed_out,
        };
    }

    pub fn contains(&self, o: Modifier) -> (b: bool)
        ensures
            b == self.spec_contains(o),
    {
        (!o.bold || self.bold) && (!o.dim || self.dim) && (!o.italic || self.italic) && (
        !o.underlined || self.underlined) && (!o.slow_blink || self.slow_blink) && (
        !o.rapid_blink || self.rapid_blink) && (!o.reversed || self.reversed) && (!o.hidden
            || self.hidden) && (!o.crossed_out || self.crossed_out)
    }
}

/// Which aspects of a cell an operation concerns: its character, foreground color, background
/// color and modifiers.
#[derive(Debug, Clone, Copy, PartialEq, Eq, Structural)]
pub struct CellContentType {
    pub text: bool,
    pub fg: bool,
    pub bg: bool,
    pub modifiers: bool,
}

impl CellContentType {
    pub fn none() -> (c: CellContentType)
        ensures
            !c.text && !c.fg && !c.bg && !c.modifiers,
    {
        CellContentType { text: false, fg: false, bg: false, modifiers: false }
    }

    pub fn all() -> (c: CellContentType)
        ensures
            c.text && c.fg && c.bg && c.modifiers,
    {
        CellContentType { text: true, fg: true, bg: true, modifiers: true }
    }

    pub fn color() -> (c: CellContentType)
        ensures
            !c.text && c.fg && c.bg && !c.modifiers,
    {
        CellContentType { text: false, fg: true, bg: true, modifiers: false }
    }
}

/// Foreground or background.
#[derive(Debug, Clone, Copy, PartialEq, Eq, Structural)]
pub enum Ground {
    Foreground,
    Background,
}

#[derive(Debug, Clone, Copy, PartialEq, Eq, Structural)]
pub enum Direction {
    Left,
    Right,
    Up,
    Down,
}

/// A direction given by a number of rows and columns.
#[derive(Debug, Clone, Copy, PartialEq, Eq, Structural)]
pub struct DirectionFree {
    pub rows: i16,
    pub columns: i16,
}

impl DirectionFree {
    pub fn new(rows: i16, columns: i16) -> (d: Option<DirectionFree>)
        ensures
            d == (if rows == 0 && columns == 0 {
                None::<DirectionFree>
            } else {
                Some(DirectionFree { rows, columns })
            }),
    {
        if rows == 0 && columns == 0 {
            None
        } else {
            Some(DirectionFree { rows, columns })
        }
    }

    pub fn from_direction(direction: Direction) -> (d: DirectionFree)
        ensures
            d == (match direction {
                Direction::Left => DirectionFree { rows: 0i16, columns: -1i16 },
                Direction::Right => DirectionFree { rows: 0i16, columns: 1i16 },
                Direction::Up => DirectionFree { rows: -1i16, columns: 0i16 },
                Direction::Down => DirectionFree { rows: 1i16, columns: 0i16 },
            }),
    {
        match direction {
            Direction::Left => DirectionFree { rows: 0, columns: -1 },
            Direction::Right => DirectionFree { rows: 0, columns: 1 },
            Direction::Up => DirectionFree { rows: -1, columns: 0 },
            Direction::Down => DirectionFree { rows: 1, columns: 0 },
        }
    }

    pub fn reversed(&self) -> (d: DirectionFree)
        requires
            self.rows != i16::MIN,
            self.columns != i16::MIN,
        ensures
            d.rows == -self.rows,
            d.columns == -self.columns,
    {
        DirectionFree { rows: -self.rows, columns: -self.columns }
    }
}

#[derive(Debug, Clone, Copy, PartialEq, Eq, Structural)]
pub enum Axis {
    X,
    Y,
}

#[derive(Debug, Clone, Copy, PartialEq, Eq, Structural)]
pub enum RotationDirection {
    Clockwise,
    Counterclockwise,
}

} // verus!
