//! The colour scale: a signed value against the greatest magnitude of its
//! metric gives a shade between red (most negative) over white (zero) to
//! blue (most positive).

use vstd::prelude::*;
use crate::query::{abs_value, magnitude};

verus! {

/// The texts of the sixteen digits, in the upper case of the hexadecimal
/// form.
pub const DIGITS: [&'static str; 16] = [
    "0", "1", "2", "3", "4", "5", "6", "7", "8", "9", "A", "B", "C", "D", "E", "F",
];

/// A colour by its three channels.
#[derive(Clone, Copy, Debug, PartialEq, Eq, Structural)]
pub struct Color {
    pub red: u8,
    pub green: u8,
    pub blue: u8,
}

impl Color {
    /// The colour with the red and the blue channel exchanged.
    pub open spec fn mirrored(self) -> Color {
        Color { red: self.blue, green: self.green, blue: self.red }
    }
}

/// Full white, the colour of zero and of a metric without variation.
pub open spec fn white() -> Color {
    Color { red: 255, green: 255, blue: 255 }
}

/// The strength of the two channels that fade: 255 at zero, falling in
/// proportion to the magnitude of `value`, rounded to the nearest whole
/// number with halves upwards, and 0 from `max_abs` on.
pub open spec fn intensity(max_abs: int, value: int) -> int
    recommends
        max_abs > 0,
{
    if magnitude(value) >= max_abs {
        0
    } else {
        (510 * (max_abs - magnitude(value)) + max_abs) / (2 * max_abs)
    }
}

/// The colour of `value` on the scale that ends at `max_abs`: white on a
/// scale of no extent; else red with the other two channels faded for a
/// negative value, blue with the other two faded for any other.
pub open spec fn color_of(max_abs: int, value: int) -> Color {
    if max_abs == 0 {
        white()
    } else if value < 0 {
        Color {
            red: 255,
            green: intensity(max_abs, value) as u8,
            blue: intensity(max_abs, value) as u8,
        }
    } else {
        Color {
            red: intensity(max_abs, value) as u8,
            green: intensity(max_abs, value) as u8,
            blue: 255,
        }
    }
}

/// The decimal digits of a channel, without leading zeros.
pub open spec fn decimal_text(n: int) -> Seq<char>
    recommends
        0 <= n < 256,
{
    if n < 10 {
        DIGITS[n]@
    } else if n < 100 {
        DIGITS[n / 10]@ + DIGITS[n % 10]@
    } else {
        DIGITS[n / 100]@ + DIGITS[(n / 10) % 10]@ + DIGITS[n % 10]@
    }
}

/// The two hexadecimal digits of a channel.
pub open spec fn hex_text(n: int) -> Seq<char>
    recommends
        0 <= n < 256,
{
    DIGITS[n / 16]@ + DIGITS[n % 16]@
}

/// A colour as a functional notation of its channels in decimal.
pub open spec fn rgb_text(color: Color) -> Seq<char> {
    "rgb("@ + decimal_text(color.red as int) + ","@ + decimal_text(color.green as int) + ","@
        + decimal_text(color.blue as int) + ")"@
}

/// A colour as a number sign and its channels in hexadecimal.
pub open spec fn hex_color_text(color: Color) -> Seq<char> {
    "#"@ + hex_text(color.red as int) + hex_text(color.green as int) + hex_text(color.blue as int)
}

/// The intensity is a channel value.
pub proof fn lemma_intensity_bounds(max_abs: int, value: int)
    requires
        max_abs > 0,
    ensures
        0 <= intensity(max_abs, value) <= 255,
{
    let mag = magnitude(value);
    if mag < max_abs {
        let num = 510 * (max_abs - mag) + max_abs;
        let den = 2 * max_abs;
        assert(0 <= num / den <= 255) by (nonlinear_arith)
            requires
                0 <= num < 256 * den,
                den > 0,
        ;
    }
}

/// Appends the decimal digits of a channel to a text.
fn push_decimal(text: &mut String, n: u8)
    ensures
        final(text)@ == old(text)@ + decimal_text(n as int),
{
    if n < 10 {
        text.append(DIGITS[n as usize]);
    } else if n < 100 {
        text.append(DIGITS[(n / 10) as usize]);
        text.append(DIGITS[(n % 10) as usize]);
        assert(final(text)@ =~= old(text)@ + decimal_text(n as int));
    } else {
        text.append(DIGITS[(n / 100) as usize]);
        text.append(DIGITS[((n / 10) % 10) as usize]);
        text.append(DIGITS[(n % 10) as usize]);
        assert(final(text)@ =~= old(text)@ + decimal_text(n as int));
    }
}

/// Appends the two hexadecimal digits of a channel to a text.
fn push_hex(text: &mut String, n: u8)
    ensures
        final(text)@ == old(text)@ + hex_text(n as int),
{
    text.append(DIGITS[(n / 16) as usize]);
    text.append(DIGITS[(n % 16) as usize]);
    assert(final(text)@ =~= old(text)@ + hex_text(n as int));
}

impl Color {
    /// The colour as `rgb(r,g,b)`.
    pub fn to_rgb(&self) -> (text: String)
        ensures
            text@ == rgb_text(*self),
    {
        let mut text: String = String::from_str("rgb(");
        push_decimal(&mut text, self.red);
        text.append(",");
        push_decimal(&mut text, self.green);
        text.append(",");
        push_decimal(&mut text, self.blue);
        text.append(")");
        text
    }

    /// The colour as `#RRGGBB`.
    pub fn to_hex(&self) -> (text: String)
        ensures
            text@ == hex_color_text(*self),
    {
        let mut text: String = String::from_str("#");
        push_hex(&mut text, self.red);
        push_hex(&mut text, self.green);
        push_hex(&mut text, self.blue);
        text
    }
}

/// The colour scale of one metric within one protein and condition.
#[derive(Clone, Copy, Debug, PartialEq, Eq, Structural)]
pub struct Normalizer {
    /// The greatest magnitude of the metric.
    pub max_abs: u64,
}

impl Normalizer {
    /// The colour of `value` on this scale.
    pub fn color_for(&self, value: i64) -> (color: Color)
        ensures
            color == color_of(self.max_abs as int, value as int),
    {
        if self.max_abs == 0 {
            return Color { red: 255, green: 255, blue: 255 };
        }
        let mag: u64 = abs_value(value);
        let faded: u8 = if mag >= self.max_abs {
            0
        } else {
            proof {
                lemma_intensity_bounds(self.max_abs as int, value as int);
            }
            let num: u128 = 510 * ((self.max_abs - mag) as u128) + self.max_abs as u128;
            let den: u128 = 2 * (self.max_abs as u128);
            (num / den) as u8
        };
        if value < 0 {
            Color { red: 255, green: faded, blue: faded }
        } else {
            Color { red: faded, green: faded, blue: 255 }
        }
    }

    /// The colour of `value` as `rgb(r,g,b)`.
    pub fn get_color_rgb(&self, value: i64) -> (text: String)
        ensures
            text@ == rgb_text(color_of(self.max_abs as int, value as int)),
    {
        self.color_for(value).to_rgb()
    }

    /// The colour of `value` as `#RRGGBB`.
    pub fn get_color_hex(&self, value: i64) -> (text: String)
        ensures
            text@ == hex_color_text(color_of(self.max_abs as int, value as int)),
    {
        self.color_for(value).to_hex()
    }
}

/// The colour of a value depends on the extent of the scale and on the
/// value alone: asked again, a scale gives the same text in either
/// notation, and so does any scale of the same extent.
pub proof fn lemma_same_inputs_same_color(one: Normalizer, other: Normalizer, value: i64)
    requires
        one.max_abs == other.max_abs,
    ensures
        rgb_text(color_of(one.max_abs as int, value as int)) == rgb_text(
            color_of(other.max_abs as int, value as int),
        ),
        hex_color_text(color_of(one.max_abs as int, value as int)) == hex_color_text(
            color_of(other.max_abs as int, value as int),
        ),
{
}

/// A value and its negative get mirrored colours: the same strength, with
/// red and blue exchanged.
pub proof fn lemma_color_mirror(max_abs: int, value: int)
    requires
        max_abs >= 0,
    ensures
        color_of(max_abs, -value) == color_of(max_abs, value).mirrored(),
        intensity(max_abs, -value) == intensity(max_abs, value),
{
    if max_abs > 0 {
        lemma_intensity_bounds(max_abs, value);
        if value == 0 {
            assert(intensity(max_abs, 0) == 255) by {
                lemma_zero_is_full(max_abs);
            }
        }
    }
}

/// The farther a value lies from zero, the more its colour is saturated:
/// the fading channels never gain strength as the magnitude grows.
pub proof fn lemma_intensity_fades(max_abs: int, near: int, far: int)
    requires
        max_abs > 0,
        magnitude(near) <= magnitude(far),
    ensures
        intensity(max_abs, near) >= intensity(max_abs, far),
{
    lemma_intensity_bounds(max_abs, near);
    if magnitude(far) < max_abs {
        vstd::arithmetic::div_mod::lemma_div_is_ordered(
            510 * (max_abs - magnitude(far)) + max_abs,
            510 * (max_abs - magnitude(near)) + max_abs,
            2 * max_abs,
        );
    }
}

/// At zero the fading channels are at full strength.
pub proof fn lemma_zero_is_full(max_abs: int)
    requires
        max_abs > 0,
    ensures
        intensity(max_abs, 0) == 255,
{
    let num = 511 * max_abs;
    let den = 2 * max_abs;
    assert(num / den == 255) by (nonlinear_arith)
        requires
            num == 511 * max_abs,
            den == 2 * max_abs,
            max_abs > 0,
    ;
}

/// Zero is white on every scale, and so is every value on a scale of no
/// extent.
pub proof fn lemma_white(max_abs: int, value: int)
    requires
        max_abs >= 0,
    ensures
        color_of(max_abs, 0) == white(),
        max_abs == 0 ==> color_of(max_abs, value) == white(),
{
    if max_abs > 0 {
        lemma_zero_is_full(max_abs);
    }
}

/// At the ends of the scale the colour is saturated: pure red at the
/// negative end, pure blue at the positive one.
pub proof fn lemma_saturated(max_abs: int)
    requires
        max_abs > 0,
    ensures
        color_of(max_abs, -max_abs) == (Color { red: 255, green: 0, blue: 0 }),
        color_of(max_abs, max_abs) == (Color { red: 0, green: 0, blue: 255 }),
{
}

/// What the digit texts hold.
pub proof fn lemma_digits()
    ensures
        DIGITS[0]@ == seq!['0'],
        DIGITS[1]@ == seq!['1'],
        DIGITS[2]@ == seq!['2'],
        DIGITS[3]@ == seq!['3'],
        DIGITS[4]@ == seq!['4'],
        DIGITS[5]@ == seq!['5'],
        DIGITS[6]@ == seq!['6'],
        DIGITS[7]@ == seq!['7'],
        DIGITS[8]@ == seq!['8'],
        DIGITS[9]@ == seq!['9'],
        DIGITS[10]@ == seq!['A'],
        DIGITS[11]@ == seq!['B'],
        DIGITS[12]@ == seq!['C'],
        DIGITS[13]@ == seq!['D'],
        DIGITS[14]@ == seq!['E'],
        DIGITS[15]@ == seq!['F'],
{
    reveal_strlit("0");
    reveal_strlit("1");
    reveal_strlit("2");
    reveal_strlit("3");
    reveal_strlit("4");
    reveal_strlit("5");
    reveal_strlit("6");
    reveal_strlit("7");
    reveal_strlit("8");
    reveal_strlit("9");
    reveal_strlit("A");
    reveal_strlit("B");
    reveal_strlit("C");
    reveal_strlit("D");
    reveal_strlit("E");
    reveal_strlit("F");
    assert(DIGITS[0]@ =~= seq!['0']);
    assert(DIGITS[1]@ =~= seq!['1']);
    assert(DIGITS[2]@ =~= seq!['2']);
    assert(DIGITS[3]@ =~= seq!['3']);
    assert(DIGITS[4]@ =~= seq!['4']);
    assert(DIGITS[5]@ =~= seq!['5']);
    assert(DIGITS[6]@ =~= seq!['6']);
    assert(DIGITS[7]@ =~= seq!['7']);
    assert(DIGITS[8]@ =~= seq!['8']);
    assert(DIGITS[9]@ =~= seq!['9']);
    assert(DIGITS[10]@ =~= seq!['A']);
    assert(DIGITS[11]@ =~= seq!['B']);
    assert(DIGITS[12]@ =~= seq!['C']);
    assert(DIGITS[13]@ =~= seq!['D']);
    assert(DIGITS[14]@ =~= seq!['E']);
    assert(DIGITS[15]@ =~= seq!['F']);
}

/// White reads `rgb(255,255,255)` and `#FFFFFF`.
pub proof fn lemma_white_texts()
    ensures
        rgb_text(white()) == "rgb(255,255,255)"@,
        hex_color_text(white()) == "#FFFFFF"@,
{
    lemma_digits();
    reveal_strlit("rgb(");
    reveal_strlit(",");
    reveal_strlit(")");
    reveal_strlit("#");
    reveal_strlit("rgb(255,255,255)");
    reveal_strlit("#FFFFFF");
    assert(decimal_text(255) =~= seq!['2', '5', '5']);
    assert(hex_text(255) =~= seq!['F', 'F']);
    assert(rgb_text(white()) =~= "rgb(255,255,255)"@);
    assert(hex_color_text(white()) =~= "#FFFFFF"@);
}

} // verus!
