//! Time-driven values ("tweens"): integer interpolation between two animatable
//! values, used to pace a transition over a duration.
use vstd::prelude::*;
use crate::bounded::subscriber_list;
use crate::paint::Color;
use super::ids::{AnimId, NodeId, SignalId};
use crate::state::next_generation;
use super::runtime::{Runtime, SignalSlot, id_below, mark_all, mark_in};
use super::signal::{ReactiveValue, Signal, same_except_signals, subscribe_in};

verus! {

/// Easing curve. Linear only; the enum leaves room for eased curves.
#[derive(Clone, Copy, PartialEq, Eq, Structural, Debug)]
pub enum Easing {
    Linear,
}

/// Timing for one animation.
#[derive(Clone, Copy, PartialEq, Eq, Structural, Debug)]
pub struct Anim {
    pub dur_ms: u16,
    pub easing: Easing,
}

/// The closed set of animatable payloads.
#[derive(Clone, Copy, PartialEq, Eq, Structural, Debug)]
pub enum AnimValue {
    I16(i16),
    Color(Color),
    Frame(u8),
}

/// `x / d` rounded toward zero (Rust's integer division), for `d > 0`.
pub open spec fn div_trunc(x: int, d: int) -> int {
    if x >= 0 { x / d } else { -((-x) / d) }
}

/// The interpolation `a + (b - a) * num / den` (quotient rounded toward zero),
/// before it is narrowed to `i16`.
pub open spec fn lerp_int(a: int, b: int, num: int, den: int) -> int {
    a + div_trunc((b - a) * num, den)
}

/// `a + (b - a) * num / den` (quotient rounded toward zero), computed in `i64`
/// (where it cannot overflow) and narrowed to `i16`. `den` must be at least 1.
pub fn lerp_i16(a: i16, b: i16, num: u32, den: u32) -> (r: i16)
    requires
        1 <= den,
    ensures
        r == lerp_int(a as int, b as int, num as int, den as int) as i16,
{
    let d: i64 = b as i64 - a as i64;
    assert(-0x1_0000 * 0x1_0000_0000 <= d * num <= 0x1_0000 * 0x1_0000_0000) by (nonlinear_arith)
        requires
            -0x1_0000 <= d <= 0x1_0000,
            0 <= num <= 0xFFFF_FFFF;
    let prod: i64 = d * num as i64;
    let q: i64 = if prod >= 0 {
        (prod as u64 / den as u64) as i64
    } else {
        -(((-prod) as u64 / den as u64) as i64)
    };
    let v: i64 = a as i64 + q;
    v as i16
}

/// The red, green and blue fields of an RGB565 word.
pub open spec fn red5(c: u16) -> u16 {
    (c >> 11u16) & 0x1Fu16
}

pub open spec fn green6(c: u16) -> u16 {
    (c >> 5u16) & 0x3Fu16
}

pub open spec fn blue5(c: u16) -> u16 {
    c & 0x1Fu16
}

/// The RGB565 word with the given fields (each narrowed to `u16` and shifted in
/// place).
pub open spec fn pack565(r: i16, g: i16, b: i16) -> u16 {
    ((r as u16) << 11u16) | ((g as u16) << 5u16) | (b as u16)
}

/// The interpolated channel `x` of `a` toward `b`.
pub open spec fn lerp_channel(a: u16, b: u16, num: int, den: int) -> i16 {
    lerp_int(a as int, b as int, num, den) as i16
}

/// The denominator an interpolation divides by (at least 1).
pub open spec fn guarded(den: u32) -> int {
    if den < 1 { 1 } else { den as int }
}

/// The value `num / den` of the way from `from` to `to`: an integer lerps,
/// a color lerps each RGB565 channel; a frame index (or a mixed pair) snaps to
/// `to`. A zero `den` counts as 1.
pub open spec fn anim_lerp(from: AnimValue, to: AnimValue, num: u32, den: u32) -> AnimValue {
    let d = guarded(den);
    match (from, to) {
        (AnimValue::I16(a), AnimValue::I16(b)) => AnimValue::I16(lerp_int(a as int, b as int, num as int, d) as i16),
        (AnimValue::Color(a), AnimValue::Color(b)) => AnimValue::Color(Color(pack565(
            lerp_channel(red5(a.0), red5(b.0), num as int, d),
            lerp_channel(green6(a.0), green6(b.0), num as int, d),
            lerp_channel(blue5(a.0), blue5(b.0), num as int, d),
        ))),
        _ => to,
    }
}

impl AnimValue {
    /// Integer interpolation `from + (to - from) * num / den` (with `den` at least
    /// 1). A color lerps each RGB565 channel; a frame index is not lerped (frame
    /// loops index, they don't tween) and returns `to`.
    pub fn lerp(from: AnimValue, to: AnimValue, num: u32, den: u32) -> (v: AnimValue)
        ensures
            v == anim_lerp(from, to, num, den),
    {
        let den: u32 = if den < 1 { 1 } else { den };
        match (from, to) {
            (AnimValue::I16(a), AnimValue::I16(b)) => AnimValue::I16(lerp_i16(a, b, num, den)),
            (AnimValue::Color(a), AnimValue::Color(b)) => {
                let ar = (a.0 >> 11u16) & 0x1Fu16;
                let ag = (a.0 >> 5u16) & 0x3Fu16;
                let ab = a.0 & 0x1Fu16;
                let br = (b.0 >> 11u16) & 0x1Fu16;
                let bg = (b.0 >> 5u16) & 0x3Fu16;
                let bb = b.0 & 0x1Fu16;
                proof {
                    let (x, y) = (a.0, b.0);
                    assert((x >> 11u16) & 0x1Fu16 < 32 && (x >> 5u16) & 0x3Fu16 < 64 && x & 0x1Fu16 < 32) by (bit_vector);
                    assert((y >> 11u16) & 0x1Fu16 < 32 && (y >> 5u16) & 0x3Fu16 < 64 && y & 0x1Fu16 < 32) by (bit_vector);
                }
                let r = lerp_i16(ar as i16, br as i16, num, den);
                let g = lerp_i16(ag as i16, bg as i16, num, den);
                let bch = lerp_i16(ab as i16, bb as i16, num, den);
                AnimValue::Color(Color(((r as u16) << 11u16) | ((g as u16) << 5u16) | (bch as u16)))
            },
            _ => to,
        }
    }
}

proof fn lemma_lerp_int_endpoints(a: int, b: int, d: int)
    requires
        d >= 1,
    ensures
        lerp_int(a, b, 0, d) == a,
        lerp_int(a, b, d, d) == b,
{
    if b - a >= 0 {
        vstd::arithmetic::div_mod::lemma_fundamental_div_mod_converse((b - a) * d, d, b - a, 0);
    } else {
        vstd::arithmetic::div_mod::lemma_fundamental_div_mod_converse((a - b) * d, d, a - b, 0);
        assert(-((b - a) * d) == (a - b) * d) by (nonlinear_arith);
    }
    assert(0int / d == 0) by {
        vstd::arithmetic::div_mod::lemma_fundamental_div_mod_converse(0, d, 0, 0);
    }
}

/// Law: an interpolation starts at `from` (progress 0) and ends at `to`
/// (progress equal to the duration) for integers and colors.
pub proof fn law_lerp_endpoints(from: AnimValue, to: AnimValue, den: u32)
    requires
        den >= 1,
        (from is I16 && to is I16) || (from is Color && to is Color),
    ensures
        anim_lerp(from, to, 0, den) == from,
        anim_lerp(from, to, den, den) == to,
{
    match (from, to) {
        (AnimValue::I16(a), AnimValue::I16(b)) => {
            lemma_lerp_int_endpoints(a as int, b as int, den as int);
        },
        (AnimValue::Color(a), AnimValue::Color(b)) => {
            let d = den as int;
            let (x, y) = (a.0, b.0);
            lemma_lerp_int_endpoints(red5(x) as int, red5(y) as int, d);
            lemma_lerp_int_endpoints(green6(x) as int, green6(y) as int, d);
            lemma_lerp_int_endpoints(blue5(x) as int, blue5(y) as int, d);
            assert(red5(x) < 32 && green6(x) < 64 && blue5(x) < 32) by (bit_vector);
            assert(red5(y) < 32 && green6(y) < 64 && blue5(y) < 32) by (bit_vector);
            let (r1, g1, b1) = (red5(x) as i16, green6(x) as i16, blue5(x) as i16);
            let (r2, g2, b2) = (red5(y) as i16, green6(y) as i16, blue5(y) as i16);
            assert(pack565(r1, g1, b1) == x) by (bit_vector)
                requires
                    r1 == ((x >> 11u16) & 0x1Fu16) as i16,
                    g1 == ((x >> 5u16) & 0x3Fu16) as i16,
                    b1 == (x & 0x1Fu16) as i16;
            assert(pack565(r2, g2, b2) == y) by (bit_vector)
                requires
                    r2 == ((y >> 11u16) & 0x1Fu16) as i16,
                    g2 == ((y >> 5u16) & 0x3Fu16) as i16,
                    b2 == (y & 0x1Fu16) as i16;
        },
        _ => {},
    }
}

/// A payload that can be tweened: the closed set `i16`, `Color` and `u8`.
pub trait Animatable: ReactiveValue {
    spec fn av_of(self) -> AnimValue;

    spec fn of_av(av: AnimValue) -> Self;

    fn to_av(self) -> (av: AnimValue)
        ensures
            av == self.av_of(),
    ;

    fn from_av(av: AnimValue) -> (v: Self)
        ensures
            v == Self::of_av(av),
    ;
}

impl Animatable for i16 {
    open spec fn av_of(self) -> AnimValue {
        AnimValue::I16(self)
    }

    /// The integer of an `I16` payload, 0 for any other.
    open spec fn of_av(av: AnimValue) -> Self {
        match av {
            AnimValue::I16(v) => v,
            _ => 0,
        }
    }

    fn to_av(self) -> (av: AnimValue) {
        AnimValue::I16(self)
    }

    fn from_av(av: AnimValue) -> (v: Self) {
        match av {
            AnimValue::I16(v) => v,
            _ => 0,
        }
    }
}

impl Animatable for Color {
    open spec fn av_of(self) -> AnimValue {
        AnimValue::Color(self)
    }

    /// The color of a `Color` payload, `Color(0)` for any other.
    open spec fn of_av(av: AnimValue) -> Self {
        match av {
            AnimValue::Color(c) => c,
            _ => Color(0),
        }
    }

    fn to_av(self) -> (av: AnimValue) {
        AnimValue::Color(self)
    }

    fn from_av(av: AnimValue) -> (v: Self) {
        match av {
            AnimValue::Color(c) => c,
            _ => Color(0),
        }
    }
}

impl Animatable for u8 {
    open spec fn av_of(self) -> AnimValue {
        AnimValue::Frame(self)
    }

    /// The index of a `Frame` payload, 0 for any other.
    open spec fn of_av(av: AnimValue) -> Self {
        match av {
            AnimValue::Frame(f) => f,
            _ => 0,
        }
    }

    fn to_av(self) -> (av: AnimValue) {
        AnimValue::Frame(self)
    }

    fn from_av(av: AnimValue) -> (v: Self) {
        match av {
            AnimValue::Frame(f) => f,
            _ => 0,
        }
    }
}

/// The slot word a payload is stored as in its signal.
pub open spec fn av_word(av: AnimValue) -> u64 {
    match av {
        AnimValue::I16(v) => v.to_word(),
        AnimValue::Color(c) => c.to_word(),
        AnimValue::Frame(f) => f.to_word(),
    }
}

pub fn av_encode(av: AnimValue) -> (w: u64)
    ensures
        w == av_word(av),
{
    match av {
        AnimValue::I16(v) => v.encode(),
        AnimValue::Color(c) => c.encode(),
        AnimValue::Frame(f) => f.encode(),
    }
}

/// Write a payload into signal `id` through the normal signal path: a change
/// bumps the epoch and marks the subscribers dirty.
pub fn set_signal_av(rt: &mut Runtime, id: SignalId, av: AnimValue)
    requires
        old(rt).wf(),
        (id.0 as int) < old(rt).signals@.len(),
    ensures
        final(rt).wf(),
        old(rt).signals@[id.0 as int].value == av_word(av) ==> *final(rt) == *old(rt),
        old(rt).signals@[id.0 as int].value != av_word(av) ==> {
            &&& same_except_signals(&*old(rt), &*final(rt))
            &&& final(rt).signals@ == old(rt).signals@.update(
                id.0 as int,
                super::runtime::SignalSlot { value: av_word(av), ..old(rt).signals@[id.0 as int] },
            )
            &&& final(rt).epoch == crate::state::next_generation(old(rt).epoch)
            &&& final(rt).dirty.capacity() == old(rt).dirty.capacity()
            &&& final(rt).dirty_seq() == mark_all(
                old(rt).dirty_seq(),
                subscriber_list(old(rt).signals@[id.0 as int].subs),
                old(rt).dirty.capacity(),
            )
        },
{
    let w = av_encode(av);
    rt.write_signal(id, w);
}

/// One running transition: the signal it drives, its endpoints, when it started,
/// how long it lasts, whether it is running, and a node to repaint each tick.
#[derive(Clone, Copy)]
pub struct Animator {
    pub signal: SignalId,
    pub from: AnimValue,
    pub to: AnimValue,
    pub start_ms: u32,
    pub dur_ms: u16,
    pub active: bool,
    pub dirty_node: Option<NodeId>,
}

/// Milliseconds from `start` to `now` on a wrapping `u32` clock.
pub open spec fn elapsed_ms(now: u32, start: u32) -> int {
    if now >= start { now - start } else { now + 0x1_0000_0000 - start }
}

/// How far an animator is at `now`: the elapsed time, capped at its duration.
pub open spec fn progress(a: Animator, now: u32) -> u32 {
    let e = elapsed_ms(now, a.start_ms);
    if e < a.dur_ms { e as u32 } else { a.dur_ms as u32 }
}

/// The transition has reached its duration at `now`.
pub open spec fn finished_at(a: Animator, now: u32) -> bool {
    progress(a, now) >= a.dur_ms
}

/// The payload an animator shows at `now`.
pub open spec fn tween_value(a: Animator, now: u32) -> AnimValue {
    anim_lerp(a.from, a.to, progress(a, now), a.dur_ms as u32)
}

/// What one tick of a running animator does to the dirty list `d` (capacity
/// `cap`), given the driven signal's subscribers and stored word `v0`: writing
/// the tween marks the subscribers if the word changes, the animator's node is
/// marked, and on the final tick writing the target marks them again if it
/// differs from the tween.
pub open spec fn tick_dirty(
    d: Seq<NodeId>,
    subs: Seq<NodeId>,
    v0: u64,
    w1: u64,
    w2: u64,
    done: bool,
    node: Option<NodeId>,
    cap: nat,
) -> Seq<NodeId> {
    let d1 = if v0 != w1 { mark_all(d, subs, cap) } else { d };
    let d2 = match node {
        Some(n) => mark_in(d1, n, cap),
        None => d1,
    };
    if done && w1 != w2 { mark_all(d2, subs, cap) } else { d2 }
}

/// An animator can run against `rt`: its signal and its node exist.
pub open spec fn animator_ok(rt: &Runtime, a: Animator) -> bool {
    &&& (a.signal.0 as int) < rt.signals@.len()
    &&& a.dirty_node matches Some(n) ==> id_below(n, rt.node_count())
}

/// Whether animator `a` can run against `rt` (see `animator_ok`).
pub fn animator_can_run(rt: &Runtime, a: &Animator) -> (b: bool)
    requires
        rt.wf(),
    ensures
        b == animator_ok(rt, *a),
{
    if a.signal.0 as usize >= rt.signals.len() {
        return false;
    }
    if let Some(n) = a.dirty_node {
        if n.0 as usize >= rt.nodes.len() {
            return false;
        }
    }
    true
}

/// Advance one animator to `now`: write the tween into its signal (dirtying the
/// subscribers when it changes), mark its node dirty, and once the duration has
/// elapsed write the target and stop.
pub fn advance_anim(rt: &mut Runtime, a: &mut Animator, now: u32)
    requires
        old(rt).wf(),
        animator_ok(&*old(rt), *old(a)),
    ensures
        final(rt).wf(),
        !old(a).active ==> *final(rt) == *old(rt) && *final(a) == *old(a),
        old(a).active ==> {
            let sig = old(a).signal.0 as int;
            let done = finished_at(*old(a), now);
            let w1 = av_word(tween_value(*old(a), now));
            let w2 = av_word(old(a).to);
            &&& *final(a) == (Animator { active: !done, ..*old(a) })
            &&& same_except_signals(&*old(rt), &*final(rt))
            &&& final(rt).signals@ == old(rt).signals@.update(
                sig,
                super::runtime::SignalSlot { value: if done { w2 } else { w1 }, ..old(rt).signals@[sig] },
            )
            &&& final(rt).dirty_seq() == tick_dirty(
                old(rt).dirty_seq(),
                subscriber_list(old(rt).signals@[sig].subs),
                old(rt).signals@[sig].value,
                w1,
                w2,
                done,
                old(a).dirty_node,
                old(rt).dirty.capacity(),
            )
        },
        final(rt).dirty.capacity() == old(rt).dirty.capacity(),
{
    if !a.active {
        return;
    }
    let el: u32 = now.wrapping_sub(a.start_ms);
    assert(el == elapsed_ms(now, a.start_ms));
    let e: u32 = if el < a.dur_ms as u32 { el } else { a.dur_ms as u32 };
    let v = AnimValue::lerp(a.from, a.to, e, a.dur_ms as u32);
    let ghost r0 = *rt;
    set_signal_av(rt, a.signal, v);
    let ghost r1 = *rt;
    rt.mark_dirty_opt(a.dirty_node);
    let ghost r2 = *rt;
    if e >= a.dur_ms as u32 {
        set_signal_av(rt, a.signal, a.to);
        a.active = false;
        proof {
            assert(subscriber_list(r2.signals@[a.signal.0 as int].subs) == subscriber_list(r0.signals@[a.signal.0 as int].subs));
        }
    }
    proof {
        assert(rt.signals@ =~= r0.signals@.update(
            a.signal.0 as int,
            super::runtime::SignalSlot { value: rt.signals@[a.signal.0 as int].value, ..r0.signals@[a.signal.0 as int] },
        ));
    }
}

/// The word an active animator leaves in its signal at `now`.
pub open spec fn final_word(a: Animator, now: u32) -> u64 {
    if finished_at(a, now) { av_word(a.to) } else { av_word(tween_value(a, now)) }
}

/// Animator `k` of `anims` is running and drives signal `s`.
pub open spec fn drives(anims: Seq<Animator>, k: int, s: int) -> bool {
    anims[k].active && anims[k].signal.0 == s
}

/// The stored words of a signal table.
pub open spec fn slot_values(slots: Seq<super::runtime::SignalSlot>) -> Seq<u64> {
    slots.map_values(|x: super::runtime::SignalSlot| x.value)
}

/// The subscriber lists of a signal table.
pub open spec fn slot_subscribers(slots: Seq<super::runtime::SignalSlot>) -> Seq<Seq<NodeId>> {
    slots.map_values(|x: super::runtime::SignalSlot| subscriber_list(x.subs))
}

/// One tick of animator `a` on the signal words `vals` and the dirty list `d`
/// (capacity `cap`), given each signal's subscribers: see `advance_anim`.
pub open spec fn tick(vals: Seq<u64>, d: Seq<NodeId>, subs: Seq<Seq<NodeId>>, a: Animator, now: u32, cap: nat) -> (Seq<u64>, Seq<NodeId>) {
    if !a.active {
        (vals, d)
    } else {
        let sig = a.signal.0 as int;
        let done = finished_at(a, now);
        let w1 = av_word(tween_value(a, now));
        let w2 = av_word(a.to);
        (
            vals.update(sig, if done { w2 } else { w1 }),
            tick_dirty(d, subs[sig], vals[sig], w1, w2, done, a.dirty_node, cap),
        )
    }
}

/// The signal words and dirty list after ticking the first `k` animators in order.
pub open spec fn ticks(vals: Seq<u64>, d: Seq<NodeId>, subs: Seq<Seq<NodeId>>, anims: Seq<Animator>, now: u32, cap: nat, k: int) -> (Seq<u64>, Seq<NodeId>)
    decreases k,
{
    if k <= 0 {
        (vals, d)
    } else {
        let prev = ticks(vals, d, subs, anims, now, cap, k - 1);
        tick(prev.0, prev.1, subs, anims[k - 1], now, cap)
    }
}

proof fn lemma_undriven_prefix(
    vals: Seq<u64>,
    d: Seq<NodeId>,
    subs: Seq<Seq<NodeId>>,
    anims: Seq<Animator>,
    now: u32,
    cap: nat,
    k: int,
    s: int,
)
    requires
        0 <= k <= anims.len(),
        0 <= s < vals.len(),
        forall|j: int| 0 <= j < anims.len() ==> (#[trigger] anims[j]).signal.0 < vals.len(),
        forall|j: int| 0 <= j < anims.len() ==> !#[trigger] drives(anims, j, s),
    ensures
        ticks(vals, d, subs, anims, now, cap, k).0.len() == vals.len(),
        ticks(vals, d, subs, anims, now, cap, k).0[s] == vals[s],
    decreases k,
{
    if k > 0 {
        lemma_undriven_prefix(vals, d, subs, anims, now, cap, k - 1, s);
        assert(!drives(anims, k - 1, s));
    }
}

/// Law: a signal that no running animator drives keeps its value when the
/// animators advance. `set_immediate` stops its own animator, so the value it
/// jumped to stays through later `advance_anims` ticks until the next
/// `animate_to` (unless another running animator drives the same signal).
pub proof fn law_undriven_signal_keeps_its_value(
    vals: Seq<u64>,
    d: Seq<NodeId>,
    subs: Seq<Seq<NodeId>>,
    anims: Seq<Animator>,
    now: u32,
    cap: nat,
    s: int,
)
    requires
        0 <= s < vals.len(),
        forall|j: int| 0 <= j < anims.len() ==> (#[trigger] anims[j]).signal.0 < vals.len(),
        forall|j: int| 0 <= j < anims.len() ==> !#[trigger] drives(anims, j, s),
    ensures
        ticks(vals, d, subs, anims, now, cap, anims.len() as int).0[s] == vals[s],
{
    lemma_undriven_prefix(vals, d, subs, anims, now, cap, anims.len() as int, s);
}

/// Advance every running animator to `now`, in order. Each one writes its tween
/// (or, once its duration has elapsed, its target) into its signal and marks its
/// node; finished animators stop. When several drive one signal, the last wins.
#[verifier::rlimit(50)]
pub fn advance_anims(rt: &mut Runtime, anims: &mut [Animator], now: u32)
    requires
        old(rt).wf(),
        forall|k: int| 0 <= k < old(anims)@.len() ==> animator_ok(&*old(rt), #[trigger] old(anims)@[k]),
    ensures
        final(rt).wf(),
        final(anims)@.len() == old(anims)@.len(),
        forall|k: int| 0 <= k < old(anims)@.len() ==> #[trigger] final(anims)@[k] == (Animator {
            active: old(anims)@[k].active && !finished_at(old(anims)@[k], now),
            ..old(anims)@[k]
        }),
        same_except_signals(&*old(rt), &*final(rt)),
        forall|s: int| 0 <= s < old(rt).signals@.len() ==> #[trigger] final(rt).signals@[s] == (super::runtime::SignalSlot {
            value: final(rt).signals@[s].value,
            ..old(rt).signals@[s]
        }),
        forall|s: int| 0 <= s < old(rt).signals@.len() && (forall|k: int| 0 <= k < old(anims)@.len() ==> !#[trigger] drives(old(anims)@, k, s))
            ==> #[trigger] final(rt).signals@[s].value == old(rt).signals@[s].value,
        forall|k: int| 0 <= k < old(anims)@.len() && old(anims)@[k].active
            && (forall|j: int| k < j < old(anims)@.len() ==> !#[trigger] drives(old(anims)@, j, old(anims)@[k].signal.0 as int))
            ==> #[trigger] final(rt).signals@[old(anims)@[k].signal.0 as int].value == final_word(old(anims)@[k], now),
        (slot_values(final(rt).signals@), final(rt).dirty_seq()) == ticks(
            slot_values(old(rt).signals@),
            old(rt).dirty_seq(),
            slot_subscribers(old(rt).signals@),
            old(anims)@,
            now,
            old(rt).dirty.capacity(),
            old(anims)@.len() as int,
        ),
        final(rt).dirty.capacity() == old(rt).dirty.capacity(),
{
    let n = anims.len();
    let mut i: usize = 0;
    while i < n
        invariant
            i <= n,
            n == anims@.len(),
            n == old(anims)@.len(),
            rt.wf(),
            same_except_signals(&*old(rt), &*rt),
            rt.dirty.capacity() == old(rt).dirty.capacity(),
            forall|k: int| 0 <= k < n ==> animator_ok(&*rt, #[trigger] old(anims)@[k]),
            forall|k: int| 0 <= k < i ==> #[trigger] anims@[k] == (Animator {
                active: old(anims)@[k].active && !finished_at(old(anims)@[k], now),
                ..old(anims)@[k]
            }),
            forall|k: int| i <= k < n ==> #[trigger] anims@[k] == old(anims)@[k],
            forall|s: int| 0 <= s < old(rt).signals@.len() ==> #[trigger] rt.signals@[s] == (super::runtime::SignalSlot {
                value: rt.signals@[s].value,
                ..old(rt).signals@[s]
            }),
            forall|s: int| 0 <= s < old(rt).signals@.len() && (forall|k: int| 0 <= k < i ==> !#[trigger] drives(old(anims)@, k, s))
                ==> #[trigger] rt.signals@[s].value == old(rt).signals@[s].value,
            forall|k: int| 0 <= k < i && old(anims)@[k].active
                && (forall|j: int| k < j < i ==> !#[trigger] drives(old(anims)@, j, old(anims)@[k].signal.0 as int))
                ==> #[trigger] rt.signals@[old(anims)@[k].signal.0 as int].value == final_word(old(anims)@[k], now),
            (slot_values(rt.signals@), rt.dirty_seq()) == ticks(
                slot_values(old(rt).signals@),
                old(rt).dirty_seq(),
                slot_subscribers(old(rt).signals@),
                old(anims)@,
                now,
                old(rt).dirty.capacity(),
                i as int,
            ),
        decreases n - i,
    {
        let mut a = anims[i];
        assert(a == old(anims)@[i as int]);
        let ghost r0 = *rt;
        advance_anim(rt, &mut a, now);
        proof {
            let s0 = a.signal.0 as int;
            assert forall|k: int| 0 <= k < n implies animator_ok(&*rt, #[trigger] old(anims)@[k]) by {
                assert(animator_ok(&r0, old(anims)@[k]));
                assert(rt.node_count() == r0.node_count()) by {
                    assert(rt.nodes == r0.nodes);
                }
            }
        }
        proof {
            let olds = old(anims)@;
            let sig = olds[i as int].signal.0 as int;
            assert(slot_subscribers(old(rt).signals@)[sig] == subscriber_list(r0.signals@[sig].subs));
            assert(slot_values(rt.signals@) =~= ticks(
                slot_values(old(rt).signals@), old(rt).dirty_seq(), slot_subscribers(old(rt).signals@), olds, now,
                old(rt).dirty.capacity(), i as int + 1).0);
        }
        proof {
            let olds = old(anims)@;
            let ii = i as int;
            let s0 = olds[ii].signal.0 as int;
            assert forall|s: int| 0 <= s < old(rt).signals@.len() && (forall|k: int| 0 <= k < ii + 1 ==> !#[trigger] drives(olds, k, s))
                implies #[trigger] rt.signals@[s].value == old(rt).signals@[s].value by {
                assert(!drives(olds, ii, s));
                assert(forall|k: int| 0 <= k < ii ==> !#[trigger] drives(olds, k, s));
                assert(r0.signals@[s].value == old(rt).signals@[s].value);
                if olds[ii].active {
                    assert(s != s0);
                }
            }
            assert forall|k: int| 0 <= k < ii + 1 && olds[k].active
                && (forall|j: int| k < j < ii + 1 ==> !#[trigger] drives(olds, j, olds[k].signal.0 as int))
                implies #[trigger] rt.signals@[olds[k].signal.0 as int].value == final_word(olds[k], now) by {
                if k < ii {
                    assert(!drives(olds, ii, olds[k].signal.0 as int));
                    assert(forall|j: int| k < j < ii ==> !#[trigger] drives(olds, j, olds[k].signal.0 as int));
                    assert(r0.signals@[olds[k].signal.0 as int].value == final_word(olds[k], now));
                    if olds[ii].active {
                        assert(olds[k].signal.0 as int != s0);
                    }
                }
            }
        }
        anims[i] = a;
        i = i + 1;
    }
}

/// A clock-driven reactive value: reads like its signal; `animate_to` starts a
/// transition that `advance_anims` paces.
pub struct Animated<T> {
    pub sig: Signal<T>,
    pub anim: AnimId,
}

impl<T> Clone for Animated<T> {
    fn clone(&self) -> (s: Self)
        ensures
            s == *self,
    {
        Animated { sig: self.sig, anim: self.anim }
    }
}

impl<T> Copy for Animated<T> {
}

impl<T: Animatable> Animated<T> {
    pub fn new(sig: Signal<T>, anim: AnimId) -> (a: Self)
        ensures
            a.sig == sig,
            a.anim == anim,
    {
        Animated { sig, anim }
    }

    /// The current (interpolated) value; the running effect subscribes.
    pub fn get(self, rt: &mut Runtime) -> (v: T)
        requires
            old(rt).wf(),
            self.sig.valid_in(&*old(rt)),
        ensures
            v == self.sig.value_in(&*old(rt)),
            final(rt).wf(),
            same_except_signals(&*old(rt), &*final(rt)),
            final(rt).dirty == old(rt).dirty,
            forall|i: int| 0 <= i < old(rt).signals@.len() && i != self.sig.id.0 ==> final(rt).signals@[i] == old(rt).signals@[i],
            final(rt).signals@[self.sig.id.0 as int].value == old(rt).signals@[self.sig.id.0 as int].value,
            final(rt).signals@[self.sig.id.0 as int].owner == old(rt).signals@[self.sig.id.0 as int].owner,
            final(rt).signals@[self.sig.id.0 as int].in_use == old(rt).signals@[self.sig.id.0 as int].in_use,
            subscriber_list(final(rt).signals@[self.sig.id.0 as int].subs) == subscribe_in(
                subscriber_list(old(rt).signals@[self.sig.id.0 as int].subs),
                old(rt).current_effect,
            ),
            final(rt).epoch == old(rt).epoch,
    {
        self.sig.get(rt)
    }

    /// The current value, without subscribing.
    pub fn get_in(self, rt: &Runtime) -> (v: T)
        requires
            self.sig.valid_in(rt),
        ensures
            v == self.sig.value_in(rt),
    {
        self.sig.get_in(rt)
    }

    /// Jump to `v` at once and cancel any transition in flight.
    pub fn set_immediate(self, rt: &mut Runtime, anims: &mut [Animator], v: T)
        requires
            old(rt).wf(),
            self.sig.valid_in(&*old(rt)),
            (self.anim.0 as int) < old(anims)@.len(),
        ensures
            final(rt).wf(),
            self.sig.value_in(&*final(rt)) == v,
            self.sig.value_in(&*old(rt)) == v ==> *final(rt) == *old(rt),
            self.sig.value_in(&*old(rt)) != v ==> {
                &&& same_except_signals(&*old(rt), &*final(rt))
                &&& final(rt).signals@ == old(rt).signals@.update(
                    self.sig.id.0 as int,
                    SignalSlot { value: v.to_word(), ..old(rt).signals@[self.sig.id.0 as int] },
                )
                &&& self.sig.canonical_in(&*final(rt))
                &&& final(rt).epoch == next_generation(old(rt).epoch)
                &&& final(rt).dirty_seq() == mark_all(
                    old(rt).dirty_seq(),
                    subscriber_list(old(rt).signals@[self.sig.id.0 as int].subs),
                    old(rt).dirty.capacity(),
                )
            },
            final(anims)@ == old(anims)@.update(
                self.anim.0 as int,
                Animator { active: false, ..old(anims)@[self.anim.0 as int] },
            ),
    {
        self.sig.set(rt, v);
        let i = self.anim.0 as usize;
        let a = anims[i];
        anims[i] = Animator { active: false, ..a };
    }

    /// Start a transition from the current value to `target` at `now`.
    pub fn animate_to(self, rt: &Runtime, anims: &mut [Animator], now: u32, target: T)
        requires
            self.sig.valid_in(rt),
            (self.anim.0 as int) < old(anims)@.len(),
        ensures
            final(anims)@ == old(anims)@.update(
                self.anim.0 as int,
                Animator {
                    from: self.sig.value_in(rt).av_of(),
                    to: target.av_of(),
                    start_ms: now,
                    active: true,
                    ..old(anims)@[self.anim.0 as int]
                },
            ),
    {
        let f = self.sig.get_in(rt).to_av();
        let i = self.anim.0 as usize;
        let a = anims[i];
        anims[i] = Animator { from: f, to: target.to_av(), start_ms: now, active: true, ..a };
    }
}

} // verus!
