//! Preview-window presets: the emulated panel resolution and an integer upscale.
use vstd::prelude::*;
use crate::geometry::Size;

verus! {

/// How a preview window is sized. `size` is the emulated panel resolution in
/// PaperUI pixels; `scale` is an integer upscale for hi-dpi screens.
pub struct SimConfig {
    pub size: Size,
    pub scale: u32,
    pub title: &'static str,
}

impl SimConfig {
    /// M5StickC Plus2: a 135x240 TFT driven in landscape, so the logical surface is
    /// 240x135. Upscaled 3x.
    pub fn stickc() -> (c: Self)
        ensures
            c.size == (Size { w: 240, h: 135 }),
            c.scale == 3,
    {
        SimConfig { size: Size::new(240, 135), scale: 3, title: "PaperUI - StickC preview" }
    }

    /// M5Paper: a 540x960 e-ink panel at 1x.
    pub fn m5paper() -> (c: Self)
        ensures
            c.size == (Size { w: 540, h: 960 }),
            c.scale == 1,
    {
        SimConfig { size: Size::new(540, 960), scale: 1, title: "PaperUI - M5Paper preview" }
    }
}

} // verus!
