use vstd::prelude::*;

verus! {

/// The colors of text on an ANSI terminal.
#[derive(Clone, Copy, Debug, PartialEq, Eq, Structural)]
pub enum Color {
    Default,
    Black,
    Red,
    Green,
    Yellow,
    Blue,
    Magenta,
    Cyan,
    White,
}

/// Text attributes: the light variant of the color, and bold text.
#[derive(Clone, Copy, Debug, PartialEq, Eq, Structural)]
pub struct ColorAttrs {
    pub light: bool,
    pub bold: bool,
}

impl Default for ColorAttrs {
    fn default() -> (r: Self)
        ensures
            !r.light,
            !r.bold,
    {
        ColorAttrs { light: false, bold: false }
    }
}

/// A value to print in a color.
#[derive(Clone, Copy, Debug)]
pub struct Colored<T> {
    val: T,
    color: Color,
    attrs: ColorAttrs,
}

impl<T> Colored<T> {
    pub closed spec fn value(self) -> T {
        self.val
    }

    pub closed spec fn color_spec(self) -> Color {
        self.color
    }

    pub closed spec fn attrs_spec(self) -> ColorAttrs {
        self.attrs
    }

    /// `val` in `color`, neither light nor bold.
    pub fn new(val: T, color: Color) -> (r: Self)
        ensures
            r.value() == val,
            r.color_spec() == color,
            !r.attrs_spec().light,
            !r.attrs_spec().bold,
    {
        Self::with_attrs(val, color, ColorAttrs::default())
    }

    pub fn with_attrs(val: T, color: Color, attrs: ColorAttrs) -> (r: Self)
        ensures
            r.value() == val,
            r.color_spec() == color,
            r.attrs_spec() == attrs,
    {
        Self { val, color, attrs }
    }
}

/// The ANSI code of a color (other than the default one).
pub open spec fn color_number(c: Color) -> int {
    match c {
        Color::Black => 30,
        Color::Red => 31,
        Color::Green => 32,
        Color::Yellow => 33,
        Color::Blue => 34,
        Color::Magenta => 35,
        Color::Cyan => 36,
        Color::White => 37,
        Color::Default => 0,
    }
}

/// The decimal digit `d`.
pub open spec fn digit(d: int) -> char {
    (48 + d) as char
}

/// The escape sequence that switches to the color with ANSI code `code`.
pub open spec fn color_start(code: int) -> Seq<char> {
    seq!['\x1b', '[', '0', ';', digit(code / 10), digit(code % 10), 'm']
}

/// The escape sequence that switches back to the default color.
pub open spec fn color_end() -> Seq<char> {
    seq!['\x1b', '[', '0', ';', '3', '9', 'm']
}

/// `val` printed in `color` with `attrs`: the escape sequences that switch on
/// the color (light colors having codes 60 above the others) and bold text,
/// the value, and those that switch them off again. The default color adds
/// no escape sequence.
pub open spec fn colored_text(val: Seq<char>, color: Color, attrs: ColorAttrs) -> Seq<char> {
    let code = color_number(color) + if attrs.light {
        60int
    } else {
        0int
    };
    let (pre, post) = if color == Color::Default {
        (Seq::<char>::empty(), Seq::<char>::empty())
    } else {
        (color_start(code), color_end())
    };
    let (bold_pre, bold_post) = if attrs.bold {
        (seq!['\x1b', '[', '1', 'm'], seq!['\x1b', '[', '2', '1', 'm'])
    } else {
        (Seq::<char>::empty(), Seq::<char>::empty())
    };
    pre + bold_pre + val + bold_post + post
}

/// The decimal digit `d`.
fn digit_char(d: u32) -> (r: char)
    requires
        d < 10,
    ensures
        r == digit(d as int),
{
    match d {
        0 => '0',
        1 => '1',
        2 => '2',
        3 => '3',
        4 => '4',
        5 => '5',
        6 => '6',
        7 => '7',
        8 => '8',
        _ => '9',
    }
}

impl Colored<char> {
    /// Appends this character, with the escape sequences of its color and
    /// attributes, to `out`.
    pub fn write_to(&self, out: &mut Vec<char>)
        ensures
            final(out)@ == old(out)@ + colored_text(
                seq![self.value()],
                self.color_spec(),
                self.attrs_spec(),
            ),
    {
        let code: u32 = match self.color {
            Color::Black => 30,
            Color::Red => 31,
            Color::Green => 32,
            Color::Yellow => 33,
            Color::Blue => 34,
            Color::Magenta => 35,
            Color::Cyan => 36,
            Color::White => 37,
            Color::Default => 0,
        };
        let code = if self.attrs.light {
            code + 60
        } else {
            code
        };
        let is_default = match self.color {
            Color::Default => true,
            _ => false,
        };
        let mut text: Vec<char> = Vec::new();
        if !is_default {
            text.push('\x1b');
            text.push('[');
            text.push('0');
            text.push(';');
            text.push(digit_char(code / 10));
            text.push(digit_char(code % 10));
            text.push('m');
        }
        if self.attrs.bold {
            text.push('\x1b');
            text.push('[');
            text.push('1');
            text.push('m');
        }
        text.push(self.val);
        if self.attrs.bold {
            text.push('\x1b');
            text.push('[');
            text.push('2');
            text.push('1');
            text.push('m');
        }
        if !is_default {
            text.push('\x1b');
            text.push('[');
            text.push('0');
            text.push(';');
            text.push('3');
            text.push('9');
            text.push('m');
        }
        proof {
            let expected = colored_text(seq![self.value()], self.color_spec(), self.attrs_spec());
            assert(text@ =~= expected);
        }
        out.append(&mut text);
    }
}

} // verus!
