//! Colours with four 8-bit channels.

use vstd::prelude::*;

verus! {

/// A colour: red, green, blue and alpha, each in `0..=255`.
#[derive(Clone, Copy, PartialEq, Eq, Structural, Hash, Debug)]
pub struct Color {
    pub r: u8,
    pub g: u8,
    pub b: u8,
    pub a: u8,
}

/// Byte `index` of a 32-bit word, byte 0 being the lowest.
pub open spec fn byte_of(word: u32, index: nat) -> int {
    if index == 0 {
        word as int % 0x100
    } else if index == 1 {
        (word as int / 0x100) % 0x100
    } else if index == 2 {
        (word as int / 0x1_0000) % 0x100
    } else {
        (word as int / 0x100_0000) % 0x100
    }
}

/// The word whose bytes, from the highest down, are `b3`, `b2`, `b1`, `b0`.
pub open spec fn word_of(b3: u8, b2: u8, b1: u8, b0: u8) -> int {
    b3 as int * 0x100_0000 + b2 as int * 0x1_0000 + b1 as int * 0x100 + b0 as int
}

fn byte0(word: u32) -> (b: u8)
    ensures
        b as int == byte_of(word, 0),
{
    assert(word & 0xff == word % 0x100) by (bit_vector);
    (word & 0xff) as u8
}

fn byte1(word: u32) -> (b: u8)
    ensures
        b as int == byte_of(word, 1),
{
    assert((word >> 8) & 0xff == (word / 0x100) % 0x100) by (bit_vector);
    ((word >> 8) & 0xff) as u8
}

fn byte2(word: u32) -> (b: u8)
    ensures
        b as int == byte_of(word, 2),
{
    assert((word >> 16) & 0xff == (word / 0x1_0000) % 0x100) by (bit_vector);
    ((word >> 16) & 0xff) as u8
}

fn byte3(word: u32) -> (b: u8)
    ensures
        b as int == byte_of(word, 3),
{
    assert((word >> 24) & 0xff == (word / 0x100_0000) % 0x100) by (bit_vector);
    ((word >> 24) & 0xff) as u8
}

impl Color {
    /// Fully transparent black.
    pub fn transparent() -> (c: Color)
        ensures
            c == (Color { r: 0x00, g: 0x00, b: 0x00, a: 0x00 }),
    {
        Color { r: 0x00, g: 0x00, b: 0x00, a: 0x00 }
    }

    /// The named colour `white`.
    pub fn white() -> (c: Color)
        ensures
            c == (Color { r: 0xff, g: 0xff, b: 0xff, a: 0xff }),
    {
        Color { r: 0xff, g: 0xff, b: 0xff, a: 0xff }
    }

    /// The named colour `black`.
    pub fn black() -> (c: Color)
        ensures
            c == (Color { r: 0x00, g: 0x00, b: 0x00, a: 0xff }),
    {
        Color { r: 0x00, g: 0x00, b: 0x00, a: 0xff }
    }

    /// The named colour `thamar_black`.
    pub fn thamar_black() -> (c: Color)
        ensures
            c == (Color { r: 0x18, g: 0x18, b: 0x18, a: 0xff }),
    {
        Color { r: 0x18, g: 0x18, b: 0x18, a: 0xff }
    }

    /// The named colour `brown`.
    pub fn brown() -> (c: Color)
        ensures
            c == (Color { r: 0xa5, g: 0x2a, b: 0x2a, a: 0xff }),
    {
        Color { r: 0xa5, g: 0x2a, b: 0x2a, a: 0xff }
    }

    /// The named colour `torch_red`.
    pub fn torch_red() -> (c: Color)
        ensures
            c == (Color { r: 0xff, g: 0x22, b: 0x33, a: 0xff }),
    {
        Color { r: 0xff, g: 0x22, b: 0x33, a: 0xff }
    }

    /// The named colour `dark_red`.
    pub fn dark_red() -> (c: Color)
        ensures
            c == (Color { r: 0x8b, g: 0x00, b: 0x00, a: 0xff }),
    {
        Color { r: 0x8b, g: 0x00, b: 0x00, a: 0xff }
    }

    /// The named colour `red`.
    pub fn red() -> (c: Color)
        ensures
            c == (Color { r: 0xff, g: 0x00, b: 0x00, a: 0xff }),
    {
        Color { r: 0xff, g: 0x00, b: 0x00, a: 0xff }
    }

    /// The named colour `light_red`.
    pub fn light_red() -> (c: Color)
        ensures
            c == (Color { r: 0xff, g: 0x80, b: 0x80, a: 0xff }),
    {
        Color { r: 0xff, g: 0x80, b: 0x80, a: 0xff }
    }

    /// The named colour `yellow`.
    pub fn yellow() -> (c: Color)
        ensures
            c == (Color { r: 0xff, g: 0xff, b: 0x00, a: 0xff }),
    {
        Color { r: 0xff, g: 0xff, b: 0x00, a: 0xff }
    }

    /// The named colour `orange`.
    pub fn orange() -> (c: Color)
        ensures
            c == (Color { r: 0xff, g: 0xa5, b: 0x00, a: 0xff }),
    {
        Color { r: 0xff, g: 0xa5, b: 0x00, a: 0xff }
    }

    /// The named colour `light_yellow`.
    pub fn light_yellow() -> (c: Color)
        ensures
            c == (Color { r: 0xff, g: 0xff, b: 0xe0, a: 0xff }),
    {
        Color { r: 0xff, g: 0xff, b: 0xe0, a: 0xff }
    }

    /// The named colour `khaki`.
    pub fn khaki() -> (c: Color)
        ensures
            c == (Color { r: 0xf0, g: 0xe6, b: 0x8c, a: 0xff }),
    {
        Color { r: 0xf0, g: 0xe6, b: 0x8c, a: 0xff }
    }

    /// The named colour `dark_green`.
    pub fn dark_green() -> (c: Color)
        ensures
            c == (Color { r: 0x00, g: 0x64, b: 0x00, a: 0xff }),
    {
        Color { r: 0x00, g: 0x64, b: 0x00, a: 0xff }
    }

    /// The named colour `green`.
    pub fn green() -> (c: Color)
        ensures
            c == (Color { r: 0x00, g: 0xff, b: 0x00, a: 0xff }),
    {
        Color { r: 0x00, g: 0xff, b: 0x00, a: 0xff }
    }

    /// The named colour `light_green`.
    pub fn light_green() -> (c: Color)
        ensures
            c == (Color { r: 0x90, g: 0xee, b: 0x90, a: 0xff }),
    {
        Color { r: 0x90, g: 0xee, b: 0x90, a: 0xff }
    }

    /// The named colour `dark_blue`.
    pub fn dark_blue() -> (c: Color)
        ensures
            c == (Color { r: 0x00, g: 0x00, b: 0x8b, a: 0xff }),
    {
        Color { r: 0x00, g: 0x00, b: 0x8b, a: 0xff }
    }

    /// The named colour `blue`.
    pub fn blue() -> (c: Color)
        ensures
            c == (Color { r: 0x00, g: 0x00, b: 0xff, a: 0xff }),
    {
        Color { r: 0x00, g: 0x00, b: 0xff, a: 0xff }
    }

    /// The named colour `light_blue`.
    pub fn light_blue() -> (c: Color)
        ensures
            c == (Color { r: 0xad, g: 0xd8, b: 0xe6, a: 0xff }),
    {
        Color { r: 0xad, g: 0xd8, b: 0xe6, a: 0xff }
    }

    /// The named colour `gold`.
    pub fn gold() -> (c: Color)
        ensures
            c == (Color { r: 0xff, g: 0xd7, b: 0x00, a: 0xff }),
    {
        Color { r: 0xff, g: 0xd7, b: 0x00, a: 0xff }
    }

    /// The named colour `dark_gray`.
    pub fn dark_gray() -> (c: Color)
        ensures
            c == (Color { r: 0x60, g: 0x60, b: 0x60, a: 0xff }),
    {
        Color { r: 0x60, g: 0x60, b: 0x60, a: 0xff }
    }

    /// The named colour `gray`.
    pub fn gray() -> (c: Color)
        ensures
            c == (Color { r: 0xa0, g: 0xa0, b: 0xa0, a: 0xff }),
    {
        Color { r: 0xa0, g: 0xa0, b: 0xa0, a: 0xff }
    }

    /// The named colour `light_gray`.
    pub fn light_gray() -> (c: Color)
        ensures
            c == (Color { r: 0xdc, g: 0xdc, b: 0xdc, a: 0xff }),
    {
        Color { r: 0xdc, g: 0xdc, b: 0xdc, a: 0xff }
    }

    /// Whether nothing of the colour shows: its alpha is zero.
    pub open spec fn shows_nothing(&self) -> bool {
        self.a == 0
    }

    /// Whether nothing of the colour shows: its alpha is zero.
    pub fn is_transparent(&self) -> (t: bool)
        ensures
            t == self.shows_nothing(),
    {
        self.a == 0
    }

    /// The opaque colour `0xRRGGBB`. The highest byte of `hex` is ignored.
    pub fn from_rgb(hex: u32) -> (c: Color)
        ensures
            c.r as int == byte_of(hex, 2),
            c.g as int == byte_of(hex, 1),
            c.b as int == byte_of(hex, 0),
            c.a == 255,
    {
        Color { r: byte2(hex), g: byte1(hex), b: byte0(hex), a: 255 }
    }

    /// The colour `0xRRGGBB__` with alpha zero, for additive blending. The
    /// lowest byte of `rgb` is ignored.
    pub fn from_rgb_additive(rgb: u32) -> (c: Color)
        ensures
            c.r as int == byte_of(rgb, 3),
            c.g as int == byte_of(rgb, 2),
            c.b as int == byte_of(rgb, 1),
            c.a == 0,
    {
        Color { r: byte3(rgb), g: byte2(rgb), b: byte1(rgb), a: 0 }
    }

    /// The colour `0xRRGGBBAA`.
    pub fn from_rgba(rgba: u32) -> (c: Color)
        ensures
            c.r as int == byte_of(rgba, 3),
            c.g as int == byte_of(rgba, 2),
            c.b as int == byte_of(rgba, 1),
            c.a as int == byte_of(rgba, 0),
    {
        Color { r: byte3(rgba), g: byte2(rgba), b: byte1(rgba), a: byte0(rgba) }
    }

    /// The colour with the channels `[r, g, b, a]`.
    pub fn from_array(channels: [u8; 4]) -> (c: Color)
        ensures
            c == (Color { r: channels[0], g: channels[1], b: channels[2], a: channels[3] }),
    {
        Color { r: channels[0], g: channels[1], b: channels[2], a: channels[3] }
    }

    /// The channels as `[r, g, b, a]`.
    pub fn to_array(self) -> (channels: [u8; 4])
        ensures
            channels[0] == self.r,
            channels[1] == self.g,
            channels[2] == self.b,
            channels[3] == self.a,
    {
        [self.r, self.g, self.b, self.a]
    }

    /// The colour as the word `0xRRGGBBAA`.
    pub fn to_rgba(self) -> (word: u32)
        ensures
            word as int == word_of(self.r, self.g, self.b, self.a),
    {
        let r: u32 = self.r as u32;
        let g: u32 = self.g as u32;
        let b: u32 = self.b as u32;
        let a: u32 = self.a as u32;
        assert(r * 0x100_0000 + g * 0x1_0000 + b * 0x100 + a <= 0xffff_ffff) by {
            assert(r <= 255 && g <= 255 && b <= 255 && a <= 255);
        }
        r * 0x100_0000 + g * 0x1_0000 + b * 0x100 + a
    }

    /// Channel `index` in the order red, green, blue, alpha.
    pub fn channel(&self, index: usize) -> (value: u8)
        requires
            index <= 3,
        ensures
            value == if index == 0 {
                self.r
            } else if index == 1 {
                self.g
            } else if index == 2 {
                self.b
            } else {
                self.a
            },
    {
        if index == 0 {
            self.r
        } else if index == 1 {
            self.g
        } else if index == 2 {
            self.b
        } else {
            self.a
        }
    }

    /// Sets channel `index`, in the order red, green, blue, alpha, to
    /// `value`.
    pub fn set_channel(&mut self, index: usize, value: u8)
        requires
            index <= 3,
        ensures
            *final(self) == if index == 0 {
                Color { r: value, ..*old(self) }
            } else if index == 1 {
                Color { g: value, ..*old(self) }
            } else if index == 2 {
                Color { b: value, ..*old(self) }
            } else {
                Color { a: value, ..*old(self) }
            },
    {
        if index == 0 {
            self.r = value;
        } else if index == 1 {
            self.g = value;
        } else if index == 2 {
            self.b = value;
        } else {
            self.a = value;
        }
    }

    /// The same colour with its alpha set to `alpha`.
    pub open spec fn with_alpha_spec(self, alpha: u8) -> Color {
        Color { a: alpha, ..self }
    }

    /// The same colour with its alpha set to `alpha`.
    pub fn with_alpha(self, alpha: u8) -> (c: Color)
        ensures
            c == self.with_alpha_spec(alpha),
    {
        Color { r: self.r, g: self.g, b: self.b, a: alpha }
    }
}

impl Default for Color {
    fn default() -> (c: Color)
        ensures
            c == (Color { r: 0, g: 0, b: 0, a: 0 }),
    {
        Color::transparent()
    }
}

/// Writing a colour as a word and reading the word back gives the colour.
pub proof fn lemma_rgba_round_trip(c: Color)
    ensures
        0 <= word_of(c.r, c.g, c.b, c.a) <= u32::MAX,
        byte_of(word_of(c.r, c.g, c.b, c.a) as u32, 3) == c.r,
        byte_of(word_of(c.r, c.g, c.b, c.a) as u32, 2) == c.g,
        byte_of(word_of(c.r, c.g, c.b, c.a) as u32, 1) == c.b,
        byte_of(word_of(c.r, c.g, c.b, c.a) as u32, 0) == c.a,
{
    let r = c.r as u32;
    let g = c.g as u32;
    let b = c.b as u32;
    let a = c.a as u32;
    let w = (r * 0x100_0000 + g * 0x1_0000 + b * 0x100 + a) as u32;
    assert(w == word_of(c.r, c.g, c.b, c.a));
    assert(w % 0x100 == a && (w / 0x100) % 0x100 == b && (w / 0x1_0000) % 0x100 == g && (w
        / 0x100_0000) % 0x100 == r) by (bit_vector)
        requires
            r <= 255 && g <= 255 && b <= 255 && a <= 255,
            w == r * 0x100_0000 + g * 0x1_0000 + b * 0x100 + a,
    ;
}

} // verus!
