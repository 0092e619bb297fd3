//! The reactive engine: signals and scopes over an explicit runtime, a retained
//! node tree, two-pass layout, surgical rendering and an event dispatcher.

pub mod arena;
pub mod ids;
pub mod node;
pub mod runtime;
pub mod signal;
pub mod scope;
pub mod focus;
pub mod carousel;
pub mod driver;
pub mod layout;
pub mod render;
pub mod anim;
