//! Widget logic: the `Widget` trait (drawing and sizing are delegated to a theme)
//! and the pure-logic `Button`.
use vstd::prelude::*;
use crate::geometry::{Constraints, Rect, Size};
use crate::paint::{Canvas, DrawCtx, WidgetTheme, hint_max};

verus! {

/// Opaque theme marker.
pub trait Theme {}

/// A UI node's logic. Drawing and sizing are delegated to the theme `T`.
pub trait Widget<C: Canvas, T> {
    /// Inputs on which `measure` is defined (no overflow, ordered constraints);
    /// every input unless the widget says otherwise.
    open spec fn measurable(&self, theme: &T, c: Constraints) -> bool {
        true
    }

    /// Bounds inside which `draw` is defined; any bounds unless the widget says
    /// otherwise.
    open spec fn drawable(&self, theme: &T, bounds: Rect) -> bool {
        true
    }

    /// What `on_activate` needs to hold to run (e.g. a callback's precondition);
    /// nothing unless the widget says otherwise.
    open spec fn activatable(&self) -> bool {
        true
    }

    fn measure(&self, theme: &T, c: Constraints) -> Size
        requires
            self.measurable(theme, c),
    ;

    fn draw(&self, ctx: &mut DrawCtx<C>, theme: &T)
        requires
            self.drawable(theme, old(ctx).bounds),
    ;

    /// Whether the widget can take focus; a widget is not focusable unless it
    /// says so.
    fn focusable(&self) -> (b: bool)
        default_ensures
            !b,
    {
        false
    }

    fn on_activate(&mut self)
        requires
            old(self).activatable(),
    {
    }

    fn on_adjust(&mut self, dir: i8) {
    }

    fn on_focus_changed(&mut self, focused: bool) {
    }
}

/// Pure-logic button: its label, pressed state, and an optional click handler.
/// Rendering is the theme's job via `draw_button`.
pub struct Button<F> {
    label: &'static str,
    pressed: bool,
    on_click: Option<F>,
}

impl<F: Fn()> Button<F> {
    pub closed spec fn label_view(&self) -> Seq<char> {
        self.label@
    }

    pub closed spec fn pressed_view(&self) -> bool {
        self.pressed
    }

    pub closed spec fn handler(&self) -> Option<F> {
        self.on_click
    }

    pub fn new(label: &'static str) -> (b: Self)
        ensures
            b.label_view() == label@,
            !b.pressed_view(),
            b.handler() is None,
    {
        Button { label, pressed: false, on_click: None }
    }

    /// Attach the click handler (builder style).
    pub fn on_click(self, cb: F) -> (b: Self)
        ensures
            b.label_view() == self.label_view(),
            b.pressed_view() == self.pressed_view(),
            b.handler() == Some(cb),
    {
        Button { label: self.label, pressed: self.pressed, on_click: Some(cb) }
    }

    pub fn label(&self) -> (s: &str)
        ensures
            s@ == self.label_view(),
    {
        self.label
    }

    pub fn is_pressed(&self) -> (p: bool)
        ensures
            p == self.pressed_view(),
    {
        self.pressed
    }
}

impl<C: Canvas, T: WidgetTheme<C>, F: Fn()> Widget<C, T> for Button<F> {
    open spec fn measurable(&self, theme: &T, c: Constraints) -> bool {
        theme.measures(self.label_view(), c)
    }

    open spec fn drawable(&self, theme: &T, bounds: Rect) -> bool {
        theme.draws_in(bounds)
    }

    open spec fn activatable(&self) -> bool {
        self.handler() matches Some(cb) ==> call_requires(cb, ())
    }

    fn measure(&self, theme: &T, c: Constraints) -> (sz: Size)
        ensures
            sz == theme.button_size(self.label_view(), c),
    {
        theme.measure_button(self.label, c)
    }

    fn draw(&self, ctx: &mut DrawCtx<C>, theme: &T)
        ensures
            final(ctx).canvas.drawn() == old(ctx).canvas.drawn() + theme.button_ops(
                old(ctx).bounds,
                old(ctx).focused,
                self.pressed_view(),
            ),
            final(ctx).hint_value() == hint_max(old(ctx).hint_value(), theme.button_hint()),
            old(ctx).canvas.inv() ==> final(ctx).canvas.inv(),
    {
        theme.draw_button(ctx, self.label, self.pressed)
    }

    /// A button can always take focus.
    fn focusable(&self) -> bool
        returns
            true,
    {
        true
    }

    /// Run the click handler, if one is attached.
    fn on_activate(&mut self)
        ensures
            old(self).handler() matches Some(cb) ==> call_ensures(cb, (), ()),
            final(self).handler() == old(self).handler(),
            final(self).label_view() == old(self).label_view(),
            final(self).pressed_view() == old(self).pressed_view(),
    {
        if let Some(cb) = &self.on_click {
            cb();
        }
    }
}

} // verus!
