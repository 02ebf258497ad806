//! Colours from text: `#rgb`, `#rgba`, `#rrggbb`, `#rrggbbaa`,
//! `rgb(r, g, b)` and `rgba(r, g, b, a)`.
//!
//! The text is taken as bytes. White space is the white space of ASCII.

use crate::color::Color;
use vstd::prelude::*;
use vstd::string::StringSliceAdditionalSpecFns;

verus! {

/// Why a text is no colour.
#[derive(Debug, Clone, Copy, PartialEq, Eq, Structural)]
pub enum ColorParseError {
    /// After `#` there are neither 3, 4, 6 nor 8 characters.
    HexFormat,
    /// A channel is no number of the kind asked for, or too large.
    Number,
    /// `rgb(` or `rgba(` is not closed by `)`.
    Functional,
    /// `rgb(..)` does not hold three channels, or `rgba(..)` not four.
    FunctionalCount,
    /// The text starts with neither `#`, `rgb(` nor `rgba(`.
    Format,
}

impl ColorParseError {
    /// What went wrong, in words.
    pub open spec fn words(&self) -> &'static str {
        match self {
            ColorParseError::HexFormat => "invalid hex color format: expected #rgb, #rgba, #rrggbb or #rrggbbaa",
            ColorParseError::Number => "invalid color channel",
            ColorParseError::Functional => "invalid functional color format",
            ColorParseError::FunctionalCount => "invalid functional color format: wrong number of channels",
            ColorParseError::Format => "invalid RGBA color format. Expected #rgb, #rgba, #rrggbb, #rrggbbaa, rgb(r, g, b), or rgba(r, g, b, a)",
        }
    }

    /// What went wrong, in words.
    pub fn message(&self) -> (text: &'static str)
        ensures
            text == self.words(),
    {
        match self {
            ColorParseError::HexFormat => "invalid hex color format: expected #rgb, #rgba, #rrggbb or #rrggbbaa",
            ColorParseError::Number => "invalid color channel",
            ColorParseError::Functional => "invalid functional color format",
            ColorParseError::FunctionalCount => "invalid functional color format: wrong number of channels",
            ColorParseError::Format => "invalid RGBA color format. Expected #rgb, #rgba, #rrggbb, #rrggbbaa, rgb(r, g, b), or rgba(r, g, b, a)",
        }
    }
}

/// Whether `b` is white space: a blank, or one of tab, line feed, vertical
/// tab, form feed and carriage return.
pub open spec fn is_space(b: u8) -> bool {
    b == 32 || (9 <= b <= 13)
}

/// The first position in `from..to` that holds no white space; `to` if
/// there is none.
pub open spec fn trim_lo(s: Seq<u8>, from: int, to: int) -> int
    decreases to - from,
{
    if from < to && is_space(s[from]) {
        trim_lo(s, from + 1, to)
    } else {
        from
    }
}

/// The position behind the last in `from..to` that holds no white space;
/// `from` if there is none.
pub open spec fn trim_hi(s: Seq<u8>, from: int, to: int) -> int
    decreases to - from,
{
    if from < to && is_space(s[to - 1]) {
        trim_hi(s, from, to - 1)
    } else {
        to
    }
}

/// The value of a hexadecimal digit.
pub open spec fn hex_digit(b: u8) -> Option<int> {
    if 48 <= b <= 57 {
        Some(b - 48)
    } else if 97 <= b <= 102 {
        Some(b - 87)
    } else if 65 <= b <= 70 {
        Some(b - 55)
    } else {
        None
    }
}

/// The value of two hexadecimal digits; a `+` may stand in place of the
/// first.
pub open spec fn hex_pair(a: u8, b: u8) -> Option<int> {
    if a == 43 {
        hex_digit(b)
    } else {
        match (hex_digit(a), hex_digit(b)) {
            (Some(x), Some(y)) => Some(16 * x + y),
            _ => None,
        }
    }
}

/// The value of a decimal digit.
pub open spec fn dec_digit(b: u8) -> Option<int> {
    if 48 <= b <= 57 {
        Some(b - 48)
    } else {
        None
    }
}

/// Whether `from..to` holds decimal digits only.
pub open spec fn all_digits(s: Seq<u8>, from: int, to: int) -> bool {
    forall|i: int| from <= i < to ==> dec_digit(#[trigger] s[i]) is Some
}

/// The decimal value of the digits `from..to`, counted up to 256.
pub open spec fn decimal(s: Seq<u8>, from: int, to: int) -> int
    decreases to - from,
{
    if to <= from {
        0
    } else {
        let v = 10 * decimal(s, from, to - 1) + (s[to - 1] - 48);
        if v > 256 {
            256
        } else {
            v
        }
    }
}

/// The channel that `from..to` spells: a decimal number up to 255, of at
/// least one digit, a `+` in front allowed.
pub open spec fn channel(s: Seq<u8>, from: int, to: int) -> Option<u8> {
    let start = if from < to && s[from] == 43 {
        from + 1
    } else {
        from
    };
    if start < to && all_digits(s, start, to) && decimal(s, start, to) <= 255 {
        Some(decimal(s, start, to) as u8)
    } else {
        None
    }
}

/// The first `k` digits of the fraction that starts at `from`, as a whole
/// number; missing digits count as 0.
pub open spec fn fraction(s: Seq<u8>, from: int, to: int, k: int) -> int
    decreases k,
{
    if k <= 0 {
        0
    } else {
        10 * fraction(s, from, to, k - 1) + if from + k - 1 < to {
            s[from + k - 1] - 48
        } else {
            0
        }
    }
}

/// The first position in `from..to` that holds `mark`; `to` if there is
/// none.
pub open spec fn find(s: Seq<u8>, from: int, to: int, mark: u8) -> int
    decreases to - from,
{
    if from < to && s[from] != mark {
        find(s, from + 1, to, mark)
    } else {
        from
    }
}

/// The alpha that `from..to` spells: a decimal fraction with an optional
/// sign, such as `0.5`, `1`, `.25` or `-0`, taken times 255 and rounded to
/// the nearest whole number, halves upwards; 255 for 1 and more, 0 for less
/// than 0. The fraction is read to nine digits.
pub open spec fn alpha(s: Seq<u8>, from: int, to: int) -> Option<u8> {
    let negative = from < to && s[from] == 45;
    let start = if from < to && (s[from] == 43 || s[from] == 45) {
        from + 1
    } else {
        from
    };
    let dot = find(s, start, to, 46);
    let frac = if dot < to {
        dot + 1
    } else {
        to
    };
    if !(all_digits(s, start, dot) && all_digits(s, frac, to) && (start < dot || frac < to)) {
        None
    } else if negative {
        Some(0u8)
    } else if decimal(s, start, dot) >= 1 {
        Some(255u8)
    } else {
        Some(((255 * fraction(s, frac, to, 9) + 500_000_000) / 1_000_000_000) as u8)
    }
}

/// The colour that the hexadecimal digits `from..to` spell.
pub open spec fn parsed_hex(s: Seq<u8>, from: int, to: int) -> Result<Color, ColorParseError> {
    let n = to - from;
    if n == 3 || n == 4 {
        match (hex_digit(s[from]), hex_digit(s[from + 1]), hex_digit(s[from + 2])) {
            (Some(r), Some(g), Some(b)) => if n == 3 {
                Ok(Color { r: (17 * r) as u8, g: (17 * g) as u8, b: (17 * b) as u8, a: 255 })
            } else {
                match hex_digit(s[from + 3]) {
                    Some(a) => Ok(
                        Color {
                            r: (17 * r) as u8,
                            g: (17 * g) as u8,
                            b: (17 * b) as u8,
                            a: (17 * a) as u8,
                        },
                    ),
                    None => Err(ColorParseError::Number),
                }
            },
            _ => Err(ColorParseError::Number),
        }
    } else if n == 6 || n == 8 {
        match (
            hex_pair(s[from], s[from + 1]),
            hex_pair(s[from + 2], s[from + 3]),
            hex_pair(s[from + 4], s[from + 5]),
        ) {
            (Some(r), Some(g), Some(b)) => if n == 6 {
                Ok(Color { r: r as u8, g: g as u8, b: b as u8, a: 255 })
            } else {
                match hex_pair(s[from + 6], s[from + 7]) {
                    Some(a) => Ok(Color { r: r as u8, g: g as u8, b: b as u8, a: a as u8 }),
                    None => Err(ColorParseError::Number),
                }
            },
            _ => Err(ColorParseError::Number),
        }
    } else {
        Err(ColorParseError::HexFormat)
    }
}

/// The channel that the part `from..to` spells, white space round it
/// aside.
pub open spec fn part_channel(s: Seq<u8>, from: int, to: int) -> Option<u8> {
    let lo = trim_lo(s, from, to);
    channel(s, lo, trim_hi(s, lo, to))
}

/// The alpha that the part `from..to` spells, white space round it aside.
pub open spec fn part_alpha(s: Seq<u8>, from: int, to: int) -> Option<u8> {
    let lo = trim_lo(s, from, to);
    alpha(s, lo, trim_hi(s, lo, to))
}

/// The colour that `rgb(` or `rgba(` followed by `from..to` spells, where
/// `with_alpha` tells which of the two it was.
pub open spec fn parsed_functional(s: Seq<u8>, from: int, to: int, with_alpha: bool) -> Result<
    Color,
    ColorParseError,
> {
    if !(from < to && s[to - 1] == 41) {
        Err(ColorParseError::Functional)
    } else {
        let end = to - 1;
        let c1 = find(s, from, end, 44);
        let c2 = find(s, c1 + 1, end, 44);
        let c3 = find(s, c2 + 1, end, 44);
        let c4 = find(s, c3 + 1, end, 44);
        let three = c1 < end && c2 < end && c3 >= end;
        let four = c1 < end && c2 < end && c3 < end && c4 >= end;
        if !(if with_alpha {
            four
        } else {
            three
        }) {
            Err(ColorParseError::FunctionalCount)
        } else {
            match (
                part_channel(s, from, c1),
                part_channel(s, c1 + 1, c2),
                part_channel(s, c2 + 1, if with_alpha {
                    c3
                } else {
                    end
                }),
            ) {
                (Some(r), Some(g), Some(b)) => if with_alpha {
                    match part_alpha(s, c3 + 1, end) {
                        Some(a) => Ok(Color { r, g, b, a }),
                        None => Err(ColorParseError::Number),
                    }
                } else {
                    Ok(Color { r, g, b, a: 255 })
                },
                _ => Err(ColorParseError::Number),
            }
        }
    }
}

/// Whether `lo..hi` starts with `rgb(`.
pub open spec fn starts_rgb(s: Seq<u8>, lo: int, hi: int) -> bool {
    hi - lo >= 4 && s[lo] == 114 && s[lo + 1] == 103 && s[lo + 2] == 98 && s[lo + 3] == 40
}

/// Whether `lo..hi` starts with `rgba(`.
pub open spec fn starts_rgba(s: Seq<u8>, lo: int, hi: int) -> bool {
    hi - lo >= 5 && s[lo] == 114 && s[lo + 1] == 103 && s[lo + 2] == 98 && s[lo + 3] == 97 && s[lo
        + 4] == 40
}

/// The colour that the text spells, white space round it aside.
pub open spec fn parsed_color(s: Seq<u8>) -> Result<Color, ColorParseError> {
    let lo = trim_lo(s, 0, s.len() as int);
    let hi = trim_hi(s, lo, s.len() as int);
    if lo < hi && s[lo] == 35 {
        parsed_hex(s, lo + 1, hi)
    } else if starts_rgb(s, lo, hi) {
        parsed_functional(s, lo + 4, hi, false)
    } else if starts_rgba(s, lo, hi) {
        parsed_functional(s, lo + 5, hi, true)
    } else {
        Err(ColorParseError::Format)
    }
}

fn space(b: u8) -> (r: bool)
    ensures
        r == is_space(b),
{
    b == 32 || (9 <= b && b <= 13)
}

fn trim(s: &[u8], from: usize, to: usize) -> (r: (usize, usize))
    requires
        from <= to <= s@.len(),
    ensures
        r.0 == trim_lo(s@, from as int, to as int),
        r.1 == trim_hi(s@, r.0 as int, to as int),
        from <= r.0 <= r.1 <= to,
{
    let mut lo = from;
    while lo < to && space(s[lo])
        invariant
            from <= lo <= to <= s@.len(),
            trim_lo(s@, from as int, to as int) == trim_lo(s@, lo as int, to as int),
        decreases to - lo,
    {
        lo += 1;
    }
    let mut hi = to;
    while lo < hi && space(s[hi - 1])
        invariant
            lo <= hi <= to <= s@.len(),
            trim_hi(s@, lo as int, to as int) == trim_hi(s@, lo as int, hi as int),
        decreases hi - lo,
    {
        hi -= 1;
    }
    (lo, hi)
}

fn hex_digit_exec(b: u8) -> (r: Option<u8>)
    ensures
        r matches Some(v) ==> hex_digit(b) == Some(v as int) && v < 16,
        r is None ==> hex_digit(b) is None,
{
    if 48 <= b && b <= 57 {
        Some(b - 48)
    } else if 97 <= b && b <= 102 {
        Some(b - 87)
    } else if 65 <= b && b <= 70 {
        Some(b - 55)
    } else {
        None
    }
}

fn hex_pair_exec(a: u8, b: u8) -> (r: Option<u8>)
    ensures
        r matches Some(v) ==> hex_pair(a, b) == Some(v as int),
        r is None ==> hex_pair(a, b) is None,
{
    if a == 43 {
        hex_digit_exec(b)
    } else {
        match (hex_digit_exec(a), hex_digit_exec(b)) {
            (Some(x), Some(y)) => Some(16 * x + y),
            _ => None,
        }
    }
}

fn find_exec(s: &[u8], from: usize, to: usize, mark: u8) -> (at: usize)
    requires
        from <= to <= s@.len(),
    ensures
        at == find(s@, from as int, to as int, mark),
        from <= at <= to,
        at < to ==> s@[at as int] == mark,
{
    let mut at = from;
    while at < to && s[at] != mark
        invariant
            from <= at <= to <= s@.len(),
            find(s@, from as int, to as int, mark) == find(s@, at as int, to as int, mark),
        decreases to - at,
    {
        at += 1;
    }
    at
}

/// Reads the digits `from..to`: `None` where one of them is no digit,
/// otherwise their decimal value, counted up to 256.
fn digits(s: &[u8], from: usize, to: usize) -> (r: Option<u32>)
    requires
        from <= to <= s@.len(),
    ensures
        r is Some <==> all_digits(s@, from as int, to as int),
        r matches Some(v) ==> v == decimal(s@, from as int, to as int) && v <= 256,
{
    let mut value: u32 = 0;
    let mut i = from;
    while i < to
        invariant
            from <= i <= to <= s@.len(),
            all_digits(s@, from as int, i as int),
            value == decimal(s@, from as int, i as int),
            value <= 256,
        decreases to - i,
    {
        let b = s[i];
        if !(48 <= b && b <= 57) {
            assert(dec_digit(s@[i as int]) is None);
            return None;
        }
        let v = 10 * value + (b - 48) as u32;
        value = if v > 256 {
            256
        } else {
            v
        };
        i += 1;
    }
    Some(value)
}

fn channel_exec(s: &[u8], from: usize, to: usize) -> (r: Option<u8>)
    requires
        from <= to <= s@.len(),
    ensures
        r == channel(s@, from as int, to as int),
{
    let start = if from < to && s[from] == 43 {
        from + 1
    } else {
        from
    };
    if start >= to {
        return None;
    }
    match digits(s, start, to) {
        Some(v) => if v <= 255 {
            Some(v as u8)
        } else {
            None
        },
        None => None,
    }
}

fn fraction_exec(s: &[u8], from: usize, to: usize) -> (r: u64)
    requires
        from <= to <= s@.len(),
        all_digits(s@, from as int, to as int),
    ensures
        r == fraction(s@, from as int, to as int, 9),
        r <= 999_999_999,
{
    let mut value: u64 = 0;
    let mut k: usize = 0;
    while k < 9
        invariant
            k <= 9,
            from <= to <= s@.len(),
            all_digits(s@, from as int, to as int),
            value == fraction(s@, from as int, to as int, k as int),
            value < pow10(k as nat),
        decreases 9 - k,
    {
        let d: u64 = if k < to - from {
            (s[from + k] - 48) as u64
        } else {
            0
        };
        proof {
            assert(dec_digit(s@[from + k]) is Some || k >= to - from);
            lemma_pow10(k as nat);
            lemma_pow10_grows(k as nat, 8);
            lemma_pow10_9();
            assert(pow10(9) == 10 * pow10(8));
        }
        value = 10 * value + d;
        k += 1;
    }
    proof {
        lemma_pow10_9();
    }
    value
}

/// Ten to the `k`.
pub open spec fn pow10(k: nat) -> int
    decreases k,
{
    if k == 0 {
        1
    } else {
        10 * pow10((k - 1) as nat)
    }
}

proof fn lemma_pow10(k: nat)
    ensures
        pow10(k + 1) == 10 * pow10(k),
        pow10(k) >= 1,
    decreases k,
{
    if k > 0 {
        lemma_pow10((k - 1) as nat);
    }
}

proof fn lemma_pow10_grows(a: nat, b: nat)
    requires
        a <= b,
    ensures
        pow10(a) <= pow10(b),
    decreases b,
{
    if a < b {
        lemma_pow10_grows(a, (b - 1) as nat);
        lemma_pow10((b - 1) as nat);
    }
}

proof fn lemma_pow10_9()
    ensures
        pow10(9) == 1_000_000_000,
{
    reveal_with_fuel(pow10, 10);
}

fn alpha_exec(s: &[u8], from: usize, to: usize) -> (r: Option<u8>)
    requires
        from <= to <= s@.len(),
    ensures
        r == alpha(s@, from as int, to as int),
{
    let negative = from < to && s[from] == 45;
    let start = if from < to && (s[from] == 43 || s[from] == 45) {
        from + 1
    } else {
        from
    };
    let dot = find_exec(s, start, to, 46);
    let frac = if dot < to {
        dot + 1
    } else {
        to
    };
    let whole = digits(s, start, dot);
    let rest = digits(s, frac, to);
    match (whole, rest) {
        (Some(w), Some(_)) => {
            if !(start < dot || frac < to) {
                None
            } else if negative {
                Some(0)
            } else if w >= 1 {
                Some(255)
            } else {
                let f = fraction_exec(s, frac, to);
                Some(((255 * f + 500_000_000) / 1_000_000_000) as u8)
            }
        },
        _ => None,
    }
}

fn hex_exec(s: &[u8], from: usize, to: usize) -> (r: Result<Color, ColorParseError>)
    requires
        from <= to <= s@.len(),
    ensures
        r == parsed_hex(s@, from as int, to as int),
{
    let n = to - from;
    if n == 3 || n == 4 {
        match (hex_digit_exec(s[from]), hex_digit_exec(s[from + 1]), hex_digit_exec(s[from + 2])) {
            (Some(r), Some(g), Some(b)) => {
                if n == 3 {
                    Ok(Color { r: 17 * r, g: 17 * g, b: 17 * b, a: 255 })
                } else {
                    match hex_digit_exec(s[from + 3]) {
                        Some(a) => Ok(Color { r: 17 * r, g: 17 * g, b: 17 * b, a: 17 * a }),
                        None => Err(ColorParseError::Number),
                    }
                }
            },
            _ => Err(ColorParseError::Number),
        }
    } else if n == 6 || n == 8 {
        match (
            hex_pair_exec(s[from], s[from + 1]),
            hex_pair_exec(s[from + 2], s[from + 3]),
            hex_pair_exec(s[from + 4], s[from + 5]),
        ) {
            (Some(r), Some(g), Some(b)) => {
                if n == 6 {
                    Ok(Color { r, g, b, a: 255 })
                } else {
                    match hex_pair_exec(s[from + 6], s[from + 7]) {
                        Some(a) => Ok(Color { r, g, b, a }),
                        None => Err(ColorParseError::Number),
                    }
                }
            },
            _ => Err(ColorParseError::Number),
        }
    } else {
        Err(ColorParseError::HexFormat)
    }
}

fn part_channel_exec(s: &[u8], from: usize, to: usize) -> (r: Option<u8>)
    requires
        from <= to <= s@.len(),
    ensures
        r == part_channel(s@, from as int, to as int),
{
    let (lo, hi) = trim(s, from, to);
    channel_exec(s, lo, hi)
}

fn functional_exec(s: &[u8], from: usize, to: usize, with_alpha: bool) -> (r: Result<
    Color,
    ColorParseError,
>)
    requires
        from <= to <= s@.len(),
    ensures
        r == parsed_functional(s@, from as int, to as int, with_alpha),
{
    if !(from < to && s[to - 1] == 41) {
        return Err(ColorParseError::Functional);
    }
    let end = to - 1;
    let c1 = find_exec(s, from, end, 44);
    if c1 >= end {
        proof {
            lemma_find_at_end(s@, end as int, 44);
        }
        return Err(ColorParseError::FunctionalCount);
    }
    let c2 = find_exec(s, c1 + 1, end, 44);
    if c2 >= end {
        proof {
            lemma_find_at_end(s@, end as int, 44);
        }
        return Err(ColorParseError::FunctionalCount);
    }
    let c3 = find_exec(s, c2 + 1, end, 44);
    let c4 = if c3 < end {
        find_exec(s, c3 + 1, end, 44)
    } else {
        end
    };
    proof {
        lemma_find_at_end(s@, end as int, 44);
    }
    let three = c3 >= end;
    let four = c3 < end && c4 >= end;
    if !(if with_alpha {
        four
    } else {
        three
    }) {
        return Err(ColorParseError::FunctionalCount);
    }
    let third_end = if with_alpha {
        c3
    } else {
        end
    };
    match (
        part_channel_exec(s, from, c1),
        part_channel_exec(s, c1 + 1, c2),
        part_channel_exec(s, c2 + 1, third_end),
    ) {
        (Some(r), Some(g), Some(b)) => {
            if with_alpha {
                let (lo, hi) = trim(s, c3 + 1, end);
                match alpha_exec(s, lo, hi) {
                    Some(a) => Ok(Color { r, g, b, a }),
                    None => Err(ColorParseError::Number),
                }
            } else {
                Ok(Color { r, g, b, a: 255 })
            }
        },
        _ => Err(ColorParseError::Number),
    }
}

/// Searching from the end on, or from behind it, finds the end.
proof fn lemma_find_at_end(s: Seq<u8>, end: int, mark: u8)
    ensures
        find(s, end, end, mark) == end,
        find(s, end + 1, end, mark) == end + 1,
{
}

/// The colour that the bytes of a text spell, or why they spell none.
pub fn parse_color_bytes(s: &[u8]) -> (r: Result<Color, ColorParseError>)
    ensures
        r == parsed_color(s@),
{
    let (lo, hi) = trim(s, 0, s.len());
    if lo < hi && s[lo] == 35 {
        hex_exec(s, lo + 1, hi)
    } else if hi - lo >= 4 && s[lo] == 114 && s[lo + 1] == 103 && s[lo + 2] == 98 && s[lo + 3]
        == 40 {
        functional_exec(s, lo + 4, hi, false)
    } else if hi - lo >= 5 && s[lo] == 114 && s[lo + 1] == 103 && s[lo + 2] == 98 && s[lo + 3]
        == 97 && s[lo + 4] == 40 {
        functional_exec(s, lo + 5, hi, true)
    } else {
        Err(ColorParseError::Format)
    }
}

/// The colour that a text spells, or why it spells none.
pub fn parse_color(s: &str) -> (r: Result<Color, ColorParseError>)
    ensures
        r == parsed_color(s.spec_bytes()),
{
    parse_color_bytes(s.as_bytes())
}

} // verus!
