//! From linear radiance to the text of a pixel.

use vstd::prelude::*;
use crate::fixed::Fixed;
use crate::fixed::SCALE;
use crate::interval::Interval;
use crate::text::decimal_digits;
use crate::text::lemma_decimal_digits;
use crate::text::lemma_line_count_concat;
use crate::text::lemma_line_count_none;
use crate::text::line_count;
use crate::text::push_decimal;
use crate::text::NEWLINE;
use crate::text::SPACE;
use crate::Color;

verus! {

/// Raw value of the brightest intensity that is written: 0.999.
pub const INTENSITY_MAX_RAW: i64 = 999_000_000;

/// Every channel of the color lies between zero and one.
pub open spec fn in_gamut(color: Color) -> bool {
    &&& 0 <= color.x.raw <= SCALE
    &&& 0 <= color.y.raw <= SCALE
    &&& 0 <= color.z.raw <= SCALE
}

/// Gamma correction with gamma 2: the square root of a positive component,
/// and zero for any other.
pub open spec fn linear_to_gamma_spec(linear_component: Fixed) -> Fixed {
    if linear_component.raw > 0 {
        linear_component.sqrt_spec()
    } else {
        Fixed::of(0)
    }
}

/// The range of intensities that are written.
pub open spec fn intensity() -> Interval {
    Interval { min: Fixed::of(0), max: Fixed::of(INTENSITY_MAX_RAW as int) }
}

/// The byte of a linear component: gamma corrected, clamped to the written
/// range, scaled by 256 and rounded down.
pub open spec fn channel_byte(linear_component: Fixed) -> int {
    Fixed::of(256 * SCALE).times(
        intensity().clamp_spec(linear_to_gamma_spec(linear_component)),
    ).to_u32_spec()
}

/// Red, green and blue bytes of a color.
pub open spec fn color_bytes_spec(pixel_color: Color) -> (u8, u8, u8) {
    (
        channel_byte(pixel_color.x) as u8,
        channel_byte(pixel_color.y) as u8,
        channel_byte(pixel_color.z) as u8,
    )
}

/// The line of a pixel: its three bytes in decimal, each followed by a
/// blank, and a newline.
pub open spec fn color_line(pixel_color: Color) -> Seq<u8> {
    let (r, g, b) = color_bytes_spec(pixel_color);
    decimal_digits(r as nat) + seq![SPACE] + decimal_digits(g as nat) + seq![SPACE]
        + decimal_digits(b as nat) + seq![SPACE, NEWLINE]
}

/// The head of a plain pixmap: the magic number, the width and the height,
/// and the largest channel value, 255.
pub open spec fn ppm_header(width: u32, height: u32) -> Seq<u8> {
    seq![80u8, 51u8, NEWLINE] + decimal_digits(width as nat) + seq![SPACE] + decimal_digits(
        height as nat,
    ) + seq![NEWLINE, 50u8, 53u8, 53u8, NEWLINE]
}

/// From a linear component to a gamma corrected one.
pub fn linear_to_gamma(linear_component: Fixed) -> (r: Fixed)
    ensures
        r == linear_to_gamma_spec(linear_component),
{
    if linear_component.raw > 0 {
        return linear_component.sqrt();
    }
    Fixed::zero()
}

/// The byte that a linear component is written as.
pub fn channel(linear_component: Fixed) -> (r: u8)
    ensures
        r == channel_byte(linear_component),
{
    let range: Interval = Interval::new(Fixed::zero(), Fixed::from_raw(INTENSITY_MAX_RAW));
    let level: Fixed = range.clamp(linear_to_gamma(linear_component));
    let byte: u32 = (Fixed::from_i32(256) * level).to_u32();
    proof {
        lemma_channel_byte(linear_component);
    }
    byte as u8
}

/// The red, green and blue bytes that a color is written as.
pub fn color_bytes(pixel_color: &Color) -> (r: (u8, u8, u8))
    ensures
        r == color_bytes_spec(*pixel_color),
{
    (channel(pixel_color.x), channel(pixel_color.y), channel(pixel_color.z))
}

/// Appends the line of a pixel.
pub fn write_color(out: &mut Vec<u8>, pixel_color: &Color)
    ensures
        final(out)@ == old(out)@ + color_line(*pixel_color),
{
    let (r, g, b) = color_bytes(pixel_color);
    push_decimal(out, r as u64);
    out.push(SPACE);
    push_decimal(out, g as u64);
    out.push(SPACE);
    push_decimal(out, b as u64);
    out.push(SPACE);
    out.push(NEWLINE);
}

/// Appends the head of a plain pixmap of the given size.
pub fn write_header(out: &mut Vec<u8>, width: u32, height: u32)
    ensures
        final(out)@ == old(out)@ + ppm_header(width, height),
{
    out.push(80u8);
    out.push(51u8);
    out.push(NEWLINE);
    push_decimal(out, width as u64);
    out.push(SPACE);
    push_decimal(out, height as u64);
    out.push(NEWLINE);
    out.push(50u8);
    out.push(53u8);
    out.push(53u8);
    out.push(NEWLINE);
}

/// A channel byte lies between 0 and 255. Components of zero or less give
/// 0, and components of one or more give 255: what lies outside `[0, 1]`
/// is written as the nearer end is.
pub proof fn lemma_channel_byte(linear_component: Fixed)
    ensures
        0 <= channel_byte(linear_component) <= 255,
        linear_component.raw <= 0 ==> channel_byte(linear_component) == 0,
        linear_component.raw >= SCALE ==> channel_byte(linear_component) == 255,
{
    let x = linear_component;
    crate::fixed::lemma_sqrt_bounds(x);
    let level = intensity().clamp_spec(linear_to_gamma_spec(x));
    assert(0 <= level.raw <= INTENSITY_MAX_RAW);
    assert(256 * SCALE * level.raw == SCALE * (256 * level.raw)) by (nonlinear_arith);
    vstd::arithmetic::div_mod::lemma_div_multiples_vanish(256 * level.raw, SCALE as int);
    if x.raw >= SCALE {
        let r = x.sqrt_spec().raw as int;
        if r < SCALE {
            assert((r + 1) * (r + 1) <= SCALE * SCALE) by (nonlinear_arith)
                requires
                    0 <= r,
                    r + 1 <= SCALE,
            ;
            assert(x.raw * SCALE >= SCALE * SCALE) by (nonlinear_arith)
                requires
                    x.raw >= SCALE,
            ;
        }
    }
}

/// The product of two levels between zero and one lies between zero and
/// one.
pub proof fn lemma_level_product(a: Fixed, b: Fixed)
    requires
        0 <= a.raw <= SCALE,
        0 <= b.raw <= SCALE,
    ensures
        0 <= a.times(b).raw <= a.raw,
{
    let n = a.raw * b.raw;
    assert(0 <= n <= a.raw * SCALE) by (nonlinear_arith)
        requires
            n == a.raw * b.raw,
            0 <= a.raw,
            0 <= b.raw <= SCALE,
    ;
    vstd::arithmetic::div_mod::lemma_div_pos_is_pos(n, SCALE as int);
    vstd::arithmetic::div_mod::lemma_div_is_ordered(n, a.raw * SCALE, SCALE as int);
    vstd::arithmetic::div_mod::lemma_div_multiples_vanish(a.raw as int, SCALE as int);
    assert(a.raw * SCALE == SCALE * a.raw) by (nonlinear_arith);
}

/// The componentwise product of two colors in the gamut is in the gamut.
pub proof fn lemma_attenuated_in_gamut(attenuation: Color, color: Color)
    requires
        in_gamut(attenuation),
        in_gamut(color),
    ensures
        in_gamut(attenuation.times(color)),
{
    lemma_level_product(attenuation.x, color.x);
    lemma_level_product(attenuation.y, color.y);
    lemma_level_product(attenuation.z, color.z);
}

/// A brighter component is never written as a darker byte.
pub proof fn lemma_channel_byte_monotone(darker: Fixed, brighter: Fixed)
    requires
        darker.raw <= brighter.raw,
    ensures
        channel_byte(darker) <= channel_byte(brighter),
{
    crate::fixed::lemma_sqrt_bounds(darker);
    crate::fixed::lemma_sqrt_bounds(brighter);
    crate::fixed::lemma_sqrt_monotone(darker, brighter);
    let low = intensity().clamp_spec(linear_to_gamma_spec(darker));
    let high = intensity().clamp_spec(linear_to_gamma_spec(brighter));
    assert(0 <= low.raw <= high.raw <= INTENSITY_MAX_RAW);
    assert(256 * SCALE * low.raw == SCALE * (256 * low.raw)) by (nonlinear_arith);
    assert(256 * SCALE * high.raw == SCALE * (256 * high.raw)) by (nonlinear_arith);
    vstd::arithmetic::div_mod::lemma_div_multiples_vanish(256 * low.raw, SCALE as int);
    vstd::arithmetic::div_mod::lemma_div_multiples_vanish(256 * high.raw, SCALE as int);
    vstd::arithmetic::div_mod::lemma_div_is_ordered(256 * low.raw, 256 * high.raw, SCALE as int);
}

/// The text of a pixel is one line, and the head of a pixmap is three.
pub proof fn lemma_line_counts(pixel_color: Color, width: u32, height: u32)
    ensures
        line_count(color_line(pixel_color)) == 1,
        color_line(pixel_color).last() == NEWLINE,
        line_count(ppm_header(width, height)) == 3,
{
    let (r, g, b) = color_bytes_spec(pixel_color);
    let dr = decimal_digits(r as nat);
    let dg = decimal_digits(g as nat);
    let db = decimal_digits(b as nat);
    let dw = decimal_digits(width as nat);
    let dh = decimal_digits(height as nat);
    lemma_decimal_digits(r as nat);
    lemma_decimal_digits(g as nat);
    lemma_decimal_digits(b as nat);
    lemma_decimal_digits(width as nat);
    lemma_decimal_digits(height as nat);
    lemma_line_count_none(dr);
    lemma_line_count_none(dg);
    lemma_line_count_none(db);
    lemma_line_count_none(dw);
    lemma_line_count_none(dh);
    let blank = seq![SPACE];
    let newline = seq![NEWLINE];
    lemma_line_count_none(blank);
    assert(line_count(newline) == 1) by {
        assert(newline.drop_last() == Seq::<u8>::empty());
        assert(line_count(newline.drop_last()) == 0);
    }
    let end = seq![SPACE, NEWLINE];
    assert(end == blank + newline);
    lemma_line_count_concat(blank, newline);
    lemma_line_count_concat(dr, blank);
    lemma_line_count_concat(dr + blank, dg);
    lemma_line_count_concat(dr + blank + dg, blank);
    lemma_line_count_concat(dr + blank + dg + blank, db);
    lemma_line_count_concat(dr + blank + dg + blank + db, end);

    let letters = seq![80u8, 51u8];
    lemma_line_count_none(letters);
    let magic = seq![80u8, 51u8, NEWLINE];
    assert(magic == letters + newline);
    lemma_line_count_concat(letters, newline);
    let largest = seq![50u8, 53u8, 53u8];
    lemma_line_count_none(largest);
    let depth = seq![NEWLINE, 50u8, 53u8, 53u8, NEWLINE];
    assert(depth == newline + largest + newline);
    lemma_line_count_concat(newline, largest);
    lemma_line_count_concat(newline + largest, newline);
    lemma_line_count_concat(magic, dw);
    lemma_line_count_concat(magic + dw, blank);
    lemma_line_count_concat(magic + dw + blank, dh);
    lemma_line_count_concat(magic + dw + blank + dh, depth);
}

} // verus!
