//! The engine core's value types: the 24-bit `Color` that board backends
//! down-convert, and the `Renderer` panel-presentation contract. The remaining
//! core types are shared with the rest of the crate and re-exported here.
use vstd::prelude::*;
use crate::geometry::Rect;
use crate::paint::{Canvas, UpdateHint};

pub use crate::geometry::Constraints;
pub use crate::gesture::{ButtonEvent, ButtonId};
pub use crate::paint::{DrawOp, FontId};

verus! {

/// RGB888 color, packed `0x00RRGGBB`. Backends down-convert (e.g. to RGB565).
#[derive(Clone, Copy, Debug, PartialEq, Eq, Structural)]
pub struct Color(pub u32);

impl Color {
    pub fn rgb(r: u8, g: u8, b: u8) -> (c: Self)
        ensures
            c.0 == r as int * 0x10000 + g as int * 0x100 + b as int,
    {
        let v: u32 = ((r as u32) << 16u32) | ((g as u32) << 8u32) | (b as u32);
        assert(v == r as int * 0x10000 + g as int * 0x100 + b as int) by (bit_vector)
            requires
                v == ((r as u32) << 16u32) | ((g as u32) << 8u32) | (b as u32);
        Color(v)
    }

    /// `rgb(0, 0, 0)`.
    pub fn black() -> (c: Self)
        ensures
            c.0 == 0,
    {
        Color(0)
    }

    /// `rgb(0xFF, 0xFF, 0xFF)`.
    pub fn white() -> (c: Self)
        ensures
            c.0 == 0x00FF_FFFF,
    {
        Color(0x00FF_FFFF)
    }

    /// `rgb(0x80, 0x80, 0x80)`.
    pub fn gray() -> (c: Self)
        ensures
            c.0 == 0x0080_8080,
    {
        Color(0x0080_8080)
    }

    /// The color down-converted to RGB565 channels: red and blue keep their top
    /// 5 bits, green its top 6.
    pub fn to_565_channels(self) -> (ch: (u8, u8, u8))
        ensures
            ch.0 == (self.0 / 0x10000) % 0x100 / 8,
            ch.1 == (self.0 / 0x100) % 0x100 / 4,
            ch.2 == self.0 % 0x100 / 8,
    {
        let c = self.0;
        let r: u8 = ((c >> 16u32) & 0xFFu32) as u8;
        let g: u8 = ((c >> 8u32) & 0xFFu32) as u8;
        let b: u8 = (c & 0xFFu32) as u8;
        assert(r == (c / 0x10000) % 0x100 && g == (c / 0x100) % 0x100 && b == c % 0x100) by (bit_vector)
            requires
                r == ((c >> 16u32) & 0xFFu32) as u8,
                g == ((c >> 8u32) & 0xFFu32) as u8,
                b == (c & 0xFFu32) as u8;
        let (r5, g6, b5) = (r >> 3u8, g >> 2u8, b >> 3u8);
        assert(r5 == r / 8 && g6 == g / 4 && b5 == b / 8) by (bit_vector)
            requires
                r5 == r >> 3u8,
                g6 == g >> 2u8,
                b5 == b >> 3u8;
        (r5, g6, b5)
    }
}

/// Panel presentation and power lifecycle, a stateful backend object.
/// `before_draw`/`after_draw` let an e-ink panel wake/sleep its controller; a TFT
/// leaves them empty.
pub trait Renderer<C: Canvas> {
    fn begin(&mut self) {
    }

    fn before_draw(&mut self) {
    }

    fn present(&mut self, canvas: &mut C, region: Rect, hint: UpdateHint);

    fn after_draw(&mut self) {
    }

    fn shutdown(&mut self) {
    }
}

} // verus!
