//! Debounce/gesture detection for one physical button: fed `(down, now_ms)` on
//! each poll, it reports clicks, holds and double clicks. Deterministic and
//! hardware-agnostic.
use vstd::prelude::*;

verus! {

/// Press duration (ms) at or after which a press becomes a Hold (not a Click).
pub const HOLD_MS: u32 = 600;
/// Max gap (ms) between a Click's release and the next press to form a DoubleClick.
pub const DOUBLE_MS: u32 = 250;

/// The board's physical buttons.
#[derive(Clone, Copy, Debug, PartialEq, Eq, Structural)]
pub enum ButtonId {
    A,
    B,
    C,
}

/// A gesture produced by [`GestureState`].
#[derive(Clone, Copy, Debug, PartialEq, Eq, Structural)]
pub enum ButtonEvent {
    Click,
    Hold,
    DoubleClick,
}

/// The observable state of a gesture detector.
pub struct GestureModel {
    pub down: bool,
    pub press_ms: u32,
    pub hold_fired: bool,
    pub last_click_ms: Option<u32>,
}

/// Elapsed milliseconds from `from` to `to` on a wrapping `u32` clock.
pub open spec fn elapsed(to: u32, from: u32) -> int {
    if to >= from { to - from } else { to + 0x1_0000_0000 - from }
}

/// One transition of the detector: the next state and the event it reports.
/// A press edge records the press time; a press held for `HOLD_MS` reports one
/// Hold; a release reports nothing after a Hold, a DoubleClick when the press it
/// ends began within `DOUBLE_MS` of the previous Click's release, and a Click
/// otherwise.
pub open spec fn gesture_next(s: GestureModel, down: bool, now: u32) -> (GestureModel, Option<ButtonEvent>) {
    if down && !s.down {
        (GestureModel { down: true, press_ms: now, hold_fired: false, ..s }, None)
    } else if down && s.down {
        if !s.hold_fired && elapsed(now, s.press_ms) >= HOLD_MS {
            (GestureModel { hold_fired: true, ..s }, Some(ButtonEvent::Hold))
        } else {
            (s, None)
        }
    } else if !down && s.down {
        if s.hold_fired {
            (GestureModel { down: false, last_click_ms: None, ..s }, None)
        } else if s.last_click_ms is Some && elapsed(s.press_ms, s.last_click_ms->0) <= DOUBLE_MS {
            (GestureModel { down: false, last_click_ms: None, ..s }, Some(ButtonEvent::DoubleClick))
        } else {
            (GestureModel { down: false, last_click_ms: Some(now), ..s }, Some(ButtonEvent::Click))
        }
    } else {
        (s, None)
    }
}

/// Law: every press starts afresh. From any released state, whatever came
/// before (a Hold, a Click or nothing), a press reports nothing, and a release
/// less than `HOLD_MS` after it reports a Click or a DoubleClick; while the
/// button stays down short of `HOLD_MS`, polls report nothing.
pub proof fn law_short_press_after_anything_clicks(s: GestureModel, t0: u32, t1: u32, t2: u32)
    requires
        !s.down,
        elapsed(t1, t0) < HOLD_MS,
        elapsed(t2, t0) < HOLD_MS,
    ensures
        ({
            let (pressed, e0) = gesture_next(s, true, t0);
            let (held, e1) = gesture_next(pressed, true, t1);
            let (_, e2) = gesture_next(pressed, false, t2);
            &&& e0 is None
            &&& e1 is None
            &&& held == pressed
            &&& (e2 == Some(ButtonEvent::Click) || e2 == Some(ButtonEvent::DoubleClick))
        }),
{
}

/// Law: a press held for `HOLD_MS` reports a Hold, and its release then reports
/// nothing.
pub proof fn law_long_press_holds_once(s: GestureModel, t0: u32, t1: u32, t2: u32)
    requires
        !s.down,
        elapsed(t1, t0) >= HOLD_MS,
    ensures
        ({
            let (pressed, _) = gesture_next(s, true, t0);
            let (held, e1) = gesture_next(pressed, true, t1);
            let (held2, e2) = gesture_next(held, true, t2);
            let (_, e3) = gesture_next(held2, false, t2);
            &&& e1 == Some(ButtonEvent::Hold)
            &&& e2 is None
            &&& e3 is None
        }),
{
}

/// Debounce/gesture state machine for one button.
pub struct GestureState {
    down: bool,
    press_ms: u32,
    hold_fired: bool,
    last_click_ms: Option<u32>,
}

impl GestureState {
    pub closed spec fn model(&self) -> GestureModel {
        GestureModel {
            down: self.down,
            press_ms: self.press_ms,
            hold_fired: self.hold_fired,
            last_click_ms: self.last_click_ms,
        }
    }

    /// Released, no press recorded, no pending click.
    pub fn new() -> (g: Self)
        ensures
            g.model() == (GestureModel { down: false, press_ms: 0, hold_fired: false, last_click_ms: None }),
    {
        GestureState { down: false, press_ms: 0, hold_fired: false, last_click_ms: None }
    }

    /// Advance the machine with the current button level and clock.
    pub fn update(&mut self, down: bool, now_ms: u32) -> (ev: Option<ButtonEvent>)
        ensures
            (final(self).model(), ev) == gesture_next(old(self).model(), down, now_ms),
    {
        if down && !self.down {
            self.down = true;
            self.press_ms = now_ms;
            self.hold_fired = false;
            return None;
        }
        if down && self.down {
            if !self.hold_fired && now_ms.wrapping_sub(self.press_ms) >= HOLD_MS {
                self.hold_fired = true;
                return Some(ButtonEvent::Hold);
            }
            return None;
        }
        if !down && self.down {
            self.down = false;
            if self.hold_fired {
                self.last_click_ms = None;
                return None;
            }
            if let Some(prev) = self.last_click_ms {
                if self.press_ms.wrapping_sub(prev) <= DOUBLE_MS {
                    self.last_click_ms = None;
                    return Some(ButtonEvent::DoubleClick);
                }
            }
            self.last_click_ms = Some(now_ms);
            return Some(ButtonEvent::Click);
        }
        None
    }
}

impl Default for GestureState {
    fn default() -> (g: Self)
        ensures
            g.model() == (GestureModel { down: false, press_ms: 0, hold_fired: false, last_click_ms: None }),
    {
        GestureState::new()
    }
}

/// Events come only from transitions: no level change and no held-long-enough
/// press means no event.
pub proof fn lemma_events_only_on_transitions(s: GestureModel, down: bool, now: u32)
    requires
        down == s.down,
        !(down && !s.hold_fired && elapsed(now, s.press_ms) >= HOLD_MS),
    ensures
        gesture_next(s, down, now).1 is None,
{
}

/// A Hold is reported at most once per press: after one, holding on reports nothing.
pub proof fn lemma_hold_fires_once(s: GestureModel, now1: u32, now2: u32)
    requires
        gesture_next(s, true, now1).1 == Some(ButtonEvent::Hold),
    ensures
        gesture_next(gesture_next(s, true, now1).0, true, now2).1 is None,
{
}

/// Releasing after a Hold reports nothing (a long press is not also a click).
pub proof fn lemma_release_after_hold_is_silent(s: GestureModel, now: u32)
    requires
        s.down,
        s.hold_fired,
    ensures
        gesture_next(s, false, now).1 is None,
{
}

/// A press is a Click or DoubleClick on release exactly when no Hold fired.
pub proof fn lemma_release_reports_click_unless_held(s: GestureModel, now: u32)
    requires
        s.down,
        !s.hold_fired,
    ensures
        gesture_next(s, false, now).1 == Some(ButtonEvent::Click)
            || gesture_next(s, false, now).1 == Some(ButtonEvent::DoubleClick),
        !gesture_next(s, false, now).0.down,
{
}

/// A DoubleClick consumes the pending click, so a third quick release is a plain Click.
pub proof fn lemma_double_click_resets(s: GestureModel, now: u32)
    requires
        gesture_next(s, false, now).1 == Some(ButtonEvent::DoubleClick),
    ensures
        gesture_next(s, false, now).0.last_click_ms is None,
{
}

/// Gesture detection for the board's two buttons, A and B.
pub struct ButtonPair {
    pub a: GestureState,
    pub b: GestureState,
}

impl ButtonPair {
    pub fn new() -> (p: Self)
        ensures
            p.a.model() == (GestureModel { down: false, press_ms: 0, hold_fired: false, last_click_ms: None }),
            p.b.model() == (GestureModel { down: false, press_ms: 0, hold_fired: false, last_click_ms: None }),
    {
        ButtonPair { a: GestureState::new(), b: GestureState::new() }
    }

    /// Feed both buttons' levels (`true` = pressed) at `now_ms` and report the
    /// first event, A before B. B's detector only sees this poll when A's
    /// produced nothing.
    pub fn poll_levels(&mut self, a_down: bool, b_down: bool, now_ms: u32) -> (ev: Option<(ButtonId, ButtonEvent)>)
        ensures
            final(self).a.model() == gesture_next(old(self).a.model(), a_down, now_ms).0,
            match gesture_next(old(self).a.model(), a_down, now_ms).1 {
                Some(e) => ev == Some((ButtonId::A, e)) && final(self).b.model() == old(self).b.model(),
                None => final(self).b.model() == gesture_next(old(self).b.model(), b_down, now_ms).0
                    && ev == match gesture_next(old(self).b.model(), b_down, now_ms).1 {
                        Some(e) => Some((ButtonId::B, e)),
                        None => None,
                    },
            },
    {
        if let Some(e) = self.a.update(a_down, now_ms) {
            return Some((ButtonId::A, e));
        }
        match self.b.update(b_down, now_ms) {
            Some(e) => Some((ButtonId::B, e)),
            None => None,
        }
    }
}

} // verus!
