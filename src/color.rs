use vstd::prelude::*;
use crate::fixed::{is_isqrt, isqrt, tdiv, ONE};
use crate::vec3::Color;

verus! {

/// The decimal digits of `n` as ASCII bytes, most significant first.
pub open spec fn decimal(n: nat) -> Seq<u8>
    decreases n,
{
    if n < 10 {
        seq![(48 + n) as u8]
    } else {
        decimal(n / 10).push((48 + n % 10) as u8)
    }
}

/// The output byte of one colour channel: the sum of `spp` samples is
/// averaged, negative values become zero, the square root corrects for gamma
/// 2, and the result in `[0, 0.999]` is scaled to `0..=255`.
pub open spec fn channel_byte(sum: int, spp: int) -> int {
    let avg = tdiv(sum, spp);
    let lin = if avg < 0 {
        0
    } else {
        avg
    };
    let g = isqrt(lin * ONE);
    let q = (256 * g) / ONE as int;
    if q > 255 {
        255
    } else {
        q
    }
}

/// The text line of one pixel: three decimal channel values separated by
/// single spaces, and a line feed.
pub open spec fn pixel_line(c: Color, spp: int) -> Seq<u8> {
    decimal(channel_byte(c.x as int, spp) as nat) + seq![32u8] + decimal(
        channel_byte(c.y as int, spp) as nat,
    ) + seq![32u8] + decimal(channel_byte(c.z as int, spp) as nat) + seq![10u8]
}

/// The header of a plain-text pixel map of `width` by `height` pixels with 255 levels.
pub open spec fn ppm_header(width: nat, height: nat) -> Seq<u8> {
    seq![80u8, 51u8, 10u8] + decimal(width) + seq![32u8] + decimal(height) + seq![
        10u8,
        50u8,
        53u8,
        53u8,
        10u8,
    ]
}

/// Appends the decimal digits of `n`.
pub fn push_decimal(out: &mut Vec<u8>, n: u64)
    ensures
        final(out)@ == old(out)@ + decimal(n as nat),
    decreases n,
{
    if n >= 10 {
        push_decimal(out, n / 10);
    }
    let d = (n % 10) as u8;
    out.push(48 + d);
    assert(final(out)@ =~= old(out)@ + decimal(n as nat)) by {
        if n >= 10 {
            assert(decimal(n as nat) == decimal((n / 10) as nat).push((48 + n % 10) as u8));
        }
    }
}

/// The byte of one channel of a pixel whose `spp` samples sum to `sum`.
pub fn channel(sum: i64, spp: u32) -> (b: u8)
    requires
        spp > 0,
    ensures
        b == channel_byte(sum as int, spp as int),
{
    let avg = crate::fixed::div_trunc(sum as i128, spp as i128);
    let lin: i128 = if avg < 0 {
        0
    } else {
        avg
    };
    proof {
        if sum >= 0 {
            let si = sum as int;
            let di = spp as int;
            assert(si / di <= si) by (nonlinear_arith)
                requires
                    si >= 0,
                    di >= 1,
            ;
        }
    }
    let g = crate::fixed::isqrt_i128(lin * ONE as i128);
    let q = 256 * g / ONE as i128;
    if q > 255 {
        255
    } else {
        q as u8
    }
}

/// Appends the line of a pixel whose `samples_per_pixel` samples sum to `pixel_color`.
pub fn write_color(out: &mut Vec<u8>, pixel_color: Color, samples_per_pixel: u32)
    requires
        samples_per_pixel > 0,
    ensures
        final(out)@ == old(out)@ + pixel_line(pixel_color, samples_per_pixel as int),
{
    let r = channel(pixel_color.x, samples_per_pixel);
    let g = channel(pixel_color.y, samples_per_pixel);
    let b = channel(pixel_color.z, samples_per_pixel);
    push_decimal(out, r as u64);
    out.push(32);
    push_decimal(out, g as u64);
    out.push(32);
    push_decimal(out, b as u64);
    out.push(10);
    assert(final(out)@ =~= old(out)@ + pixel_line(pixel_color, samples_per_pixel as int));
}

/// Appends the header of a `width` by `height` image.
pub fn write_header(out: &mut Vec<u8>, width: u32, height: u32)
    ensures
        final(out)@ == old(out)@ + ppm_header(width as nat, height as nat),
{
    out.push(80);
    out.push(51);
    out.push(10);
    push_decimal(out, width as u64);
    out.push(32);
    push_decimal(out, height as u64);
    out.push(10);
    out.push(50);
    out.push(53);
    out.push(53);
    out.push(10);
    assert(final(out)@ =~= old(out)@ + ppm_header(width as nat, height as nat));
}

} // verus!
