//! Mappings from desktop-preview input to engine events: keys to navigation and
//! activation, window coordinates to engine points.
use vstd::prelude::*;
use crate::geometry::Point;
use crate::reactive::driver::UiEvent;

verus! {

/// The keys the preview window distinguishes.
#[derive(Clone, Copy, PartialEq, Eq, Structural, Debug)]
pub enum Key {
    Tab,
    Right,
    Down,
    Return,
    KpEnter,
    Space,
    Escape,
    Other,
}

/// The event a key press maps to: Tab, Right and Down move focus on; Return,
/// keypad Enter and Space activate. Escape (which quits the preview) and any other
/// key map to nothing.
pub open spec fn key_event(k: Key) -> Option<UiEvent> {
    match k {
        Key::Tab | Key::Right | Key::Down => Some(UiEvent::FocusNext),
        Key::Return | Key::KpEnter | Key::Space => Some(UiEvent::Activate),
        _ => None,
    }
}

/// Map a key press to a UI event.
pub fn map_key(k: Key) -> (ev: Option<UiEvent>)
    ensures
        ev == key_event(k),
{
    match k {
        Key::Tab | Key::Right | Key::Down => Some(UiEvent::FocusNext),
        Key::Return | Key::KpEnter | Key::Space => Some(UiEvent::Activate),
        _ => None,
    }
}

/// A window point as an engine point: each coordinate narrowed to `i16`.
pub fn to_point(x: i32, y: i32) -> (p: Point)
    ensures
        p == (Point { x: x as i16, y: y as i16 }),
{
    Point::new(x as i16, y as i16)
}

} // verus!
