//! Colors as embedded-graphics `Rgb565` values, for backends that draw through
//! embedded-graphics.
use vstd::prelude::*;
use embedded_graphics::pixelcolor::raw::RawU16;
use embedded_graphics::pixelcolor::Rgb565;
use crate::paint::{Color, rgb565};

verus! {

#[verifier::external_type_specification]
#[verifier::external_body]
pub struct ExRgb565(Rgb565);

/// What `Rgb565::new(r, g, b)` returns.
pub uninterp spec fn rgb565_new(r: u8, g: u8, b: u8) -> Rgb565;

/// `Rgb565::new(r, g, b)`: the color with 5-bit red, 6-bit green and 5-bit
/// blue channels (bits past a channel's width are dropped). Claimed: the result
/// is `rgb565_new(r, g, b)`.
#[verifier::external_body]
fn rgb565_from_channels(r: u8, g: u8, b: u8) -> (c: Rgb565)
    ensures
        c == rgb565_new(r, g, b),
{
    Rgb565::new(r, g, b)
}

/// `Rgb565::from(RawU16::new(raw))`: reinterpret a packed 5-6-5 word. Claimed,
/// as embedded-graphics' source shows (the raw word is kept under the full
/// 16-bit channel mask, which is the word `Rgb565::new` builds from its
/// channels): the result is the color built from the word's three channels.
#[verifier::external_body]
fn rgb565_from_raw(raw: u16) -> (c: Rgb565)
    ensures
        c == rgb565_new((raw / 2048) as u8, ((raw / 32) % 64) as u8, (raw % 32) as u8),
{
    Rgb565::from(RawU16::new(raw))
}

/// The embedded-graphics color for a packed RGB565 color (the same bit layout,
/// so nothing is converted).
pub fn to_rgb565(c: Color) -> (e: Rgb565)
    ensures
        e == rgb565_new((c.0 / 2048) as u8, ((c.0 / 32) % 64) as u8, (c.0 % 32) as u8),
{
    rgb565_from_raw(c.0)
}

/// The embedded-graphics color for an RGB888 core color, down-converted to
/// 5-6-5 channels.
pub fn core_to_rgb565(c: crate::base::Color) -> (e: Rgb565)
    ensures
        e == rgb565_new(
            ((c.0 / 0x10000) % 0x100 / 8) as u8,
            ((c.0 / 0x100) % 0x100 / 4) as u8,
            (c.0 % 0x100 / 8) as u8,
        ),
{
    let (r, g, b) = c.to_565_channels();
    rgb565_from_channels(r, g, b)
}

/// Packing 8-bit channels into a `Color` and reinterpreting it gives exactly the
/// embedded-graphics color built from the down-converted channels.
pub proof fn law_packed_matches_direct_downconvert(r: u8, g: u8, b: u8)
    ensures
        ({
            let raw = rgb565(r, g, b);
            rgb565_new((raw / 2048) as u8, ((raw / 32) % 64) as u8, (raw % 32) as u8)
        }) == rgb565_new(r / 8, g / 4, b / 8),
{
    let (r5, g6, b5) = (r as int / 8, g as int / 4, b as int / 8);
    let raw = rgb565(r, g, b);
    assert(raw == r5 * 2048 + g6 * 32 + b5);
    assert(raw / 2048 == r5 && (raw / 32) % 64 == g6 && raw % 32 == b5) by (nonlinear_arith)
        requires
            raw == r5 * 2048 + g6 * 32 + b5,
            0 <= r5 < 32,
            0 <= g6 < 64,
            0 <= b5 < 32;
}

} // verus!
