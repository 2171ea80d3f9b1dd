use vstd::prelude::*;

verus! {

/// A 24-bit colour, one byte per channel, compared by value.
#[derive(Debug, Clone, Copy, PartialEq, Eq, Structural)]
pub struct Color {
    pub red: u8,
    pub green: u8,
    pub blue: u8,
}

/// The ASCII byte of the decimal digit `d`.
pub open spec fn digit(d: int) -> u8 {
    (48 + d) as u8
}

/// The value `v` written as exactly three zero-padded decimal digits.
pub open spec fn digits3(v: u8) -> Seq<u8> {
    seq![digit(v as int / 100), digit((v as int / 10) % 10), digit(v as int % 10)]
}

/// One select-graphic-rendition sequence `ESC [ <layer>8;2;rrr;ggg;bbb m`,
/// where `layer` is the ASCII byte `3` (foreground) or `4` (background).
pub open spec fn rgb_sequence(layer: u8, c: Color) -> Seq<u8> {
    seq![27u8, 91u8, layer, 56u8, 59u8, 50u8, 59u8] + digits3(c.red) + seq![59u8] + digits3(c.green)
        + seq![59u8] + digits3(c.blue) + seq![109u8]
}

/// What `apply` writes: the colour set as foreground and as background.
pub open spec fn set_color_bytes(c: Color) -> Seq<u8> {
    rgb_sequence(51u8, c) + rgb_sequence(52u8, c)
}

/// What `reset` writes: `ESC [ 0 m`.
pub open spec fn reset_bytes() -> Seq<u8> {
    seq![27u8, 91u8, 48u8, 109u8]
}

impl Color {
    pub fn rgb(red: u8, green: u8, blue: u8) -> (r: Color)
        ensures
            r == (Color { red, green, blue }),
    {
        Color { red, green, blue }
    }

    pub fn white() -> (r: Color)
        ensures
            r == (Color { red: 255, green: 255, blue: 255 }),
    {
        Color::rgb(255, 255, 255)
    }

    pub fn cyan() -> (r: Color)
        ensures
            r == (Color { red: 0, green: 255, blue: 255 }),
    {
        Color::rgb(0, 255, 255)
    }

    pub fn pink() -> (r: Color)
        ensures
            r == (Color { red: 255, green: 0, blue: 255 }),
    {
        Color::rgb(255, 0, 255)
    }

    pub fn blue() -> (r: Color)
        ensures
            r == (Color { red: 0, green: 0, blue: 255 }),
    {
        Color::rgb(0, 0, 255)
    }

    pub fn yellow() -> (r: Color)
        ensures
            r == (Color { red: 255, green: 255, blue: 0 }),
    {
        Color::rgb(255, 255, 0)
    }

    pub fn green() -> (r: Color)
        ensures
            r == (Color { red: 0, green: 255, blue: 0 }),
    {
        Color::rgb(0, 255, 0)
    }

    pub fn red() -> (r: Color)
        ensures
            r == (Color { red: 255, green: 0, blue: 0 }),
    {
        Color::rgb(255, 0, 0)
    }

    pub fn black() -> (r: Color)
        ensures
            r == (Color { red: 0, green: 0, blue: 0 }),
    {
        Color::rgb(0, 0, 0)
    }

    pub fn grey(grey: u8) -> (r: Color)
        ensures
            r == (Color { red: grey, green: grey, blue: grey }),
    {
        Color { red: grey, green: grey, blue: grey }
    }

    /// The three zero-padded ASCII decimal digits of a channel value.
    pub fn color_to_c_str(color: u8) -> (r: [u8; 3])
        ensures
            r@ == digits3(color),
    {
        let r = [48 + color / 100, 48 + (color / 10) % 10, 48 + color % 10];
        assert(r@ =~= digits3(color));
        r
    }

    /// Appends a neutral reset sequence.
    pub fn reset(out: &mut Vec<u8>)
        ensures
            final(out)@ == old(out)@ + reset_bytes(),
    {
        out.push(27);
        out.push(91);
        out.push(48);
        out.push(109);
        assert(final(out)@ =~= old(out)@ + reset_bytes());
    }

    fn push_rgb_sequence(&self, out: &mut Vec<u8>, layer: u8)
        ensures
            final(out)@ == old(out)@ + rgb_sequence(layer, *self),
    {
        let r = Color::color_to_c_str(self.red);
        let g = Color::color_to_c_str(self.green);
        let b = Color::color_to_c_str(self.blue);
        out.push(27);
        out.push(91);
        out.push(layer);
        out.push(56);
        out.push(59);
        out.push(50);
        out.push(59);
        out.push(r[0]);
        out.push(r[1]);
        out.push(r[2]);
        out.push(59);
        out.push(g[0]);
        out.push(g[1]);
        out.push(g[2]);
        out.push(59);
        out.push(b[0]);
        out.push(b[1]);
        out.push(b[2]);
        out.push(109);
        assert(final(out)@ =~= old(out)@ + rgb_sequence(layer, *self));
    }

    /// Appends the sequence that sets this colour as both foreground and
    /// background: always 38 bytes.
    pub fn apply(&self, out: &mut Vec<u8>)
        ensures
            final(out)@ == old(out)@ + set_color_bytes(*self),
    {
        self.push_rgb_sequence(out, 51);
        self.push_rgb_sequence(out, 52);
        assert(final(out)@ =~= old(out)@ + set_color_bytes(*self));
    }
}

} // verus!
