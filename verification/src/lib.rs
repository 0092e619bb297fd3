//! PaperUI: a `no_std`-style, allocation-bounded UI framework for small embedded
//! displays, with its geometry, drawing substrate, reactive engine, gesture
//! detection and panel logic verified.

pub mod geometry;
pub mod paint;
pub mod bounded;
pub mod theme;
pub mod widget;
pub mod state;
pub mod gesture;
pub mod base;
pub mod config;
pub mod input_map;
pub mod reactive;
pub mod eink;
pub mod it8951;
pub mod rgb565;
