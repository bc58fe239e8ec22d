//! Which per-note expression dimensions a plugin wants to receive as events.
use vstd::prelude::*;

verus! {

/// One per-note expression dimension (VST3 note expression / CLAP note expression).
#[derive(Clone, Copy, Debug, PartialEq, Eq, Structural)]
pub enum NoteExpression {
    Volume,
    Pan,
    Tuning,
    Vibrato,
    Expression,
    Brightness,
    Pressure,
}

/// Declaration of which per-note expression dimensions a plugin wants to receive as events.
#[derive(Clone, Copy, Debug, PartialEq, Eq, Structural)]
pub struct NoteExpressions {
    volume: bool,
    pan: bool,
    tuning: bool,
    vibrato: bool,
    expression: bool,
    brightness: bool,
    pressure: bool,
}

/// What a `NoteExpressions` enables, one flag per dimension.
pub struct NoteExpressionsView {
    pub volume: bool,
    pub pan: bool,
    pub tuning: bool,
    pub vibrato: bool,
    pub expression: bool,
    pub brightness: bool,
    pub pressure: bool,
}

impl View for NoteExpressions {
    type V = NoteExpressionsView;

    closed spec fn view(&self) -> NoteExpressionsView {
        NoteExpressionsView {
            volume: self.volume,
            pan: self.pan,
            tuning: self.tuning,
            vibrato: self.vibrato,
            expression: self.expression,
            brightness: self.brightness,
            pressure: self.pressure,
        }
    }
}

impl NoteExpressionsView {
    /// Whether the dimension `kind` is enabled.
    pub open spec fn enables(self, kind: NoteExpression) -> bool {
        match kind {
            NoteExpression::Volume => self.volume,
            NoteExpression::Pan => self.pan,
            NoteExpression::Tuning => self.tuning,
            NoteExpression::Vibrato => self.vibrato,
            NoteExpression::Expression => self.expression,
            NoteExpression::Brightness => self.brightness,
            NoteExpression::Pressure => self.pressure,
        }
    }

    /// Each dimension is enabled by its own flag and by no other.
    pub proof fn lemma_enables_own_flag(self)
        ensures
            self.enables(NoteExpression::Volume) == self.volume,
            self.enables(NoteExpression::Pan) == self.pan,
            self.enables(NoteExpression::Tuning) == self.tuning,
            self.enables(NoteExpression::Vibrato) == self.vibrato,
            self.enables(NoteExpression::Expression) == self.expression,
            self.enables(NoteExpression::Brightness) == self.brightness,
            self.enables(NoteExpression::Pressure) == self.pressure,
    {
    }

    /// The view with every flag equal to `b`.
    pub open spec fn uniform(b: bool) -> NoteExpressionsView {
        NoteExpressionsView {
            volume: b,
            pan: b,
            tuning: b,
            vibrato: b,
            expression: b,
            brightness: b,
            pressure: b,
        }
    }
}

impl NoteExpressions {
    /// Two declarations that enable the same dimensions are equal.
    pub proof fn lemma_view_determines(a: Self, b: Self)
        requires
            a@ == b@,
        ensures
            a == b,
    {
    }

    /// No note expressions.
    pub fn none() -> (r: Self)
        ensures
            r@ == NoteExpressionsView::uniform(false),
    {
        NoteExpressions {
            volume: false,
            pan: false,
            tuning: false,
            vibrato: false,
            expression: false,
            brightness: false,
            pressure: false,
        }
    }

    /// All note expressions.
    pub fn all() -> (r: Self)
        ensures
            r@ == NoteExpressionsView::uniform(true),
    {
        NoteExpressions {
            volume: true,
            pan: true,
            tuning: true,
            vibrato: true,
            expression: true,
            brightness: true,
            pressure: true,
        }
    }

    /// Enable delivery of per-note volume as `Event::PolyVolume`.
    pub fn with_volume(self) -> (r: Self)
        ensures
            r@ == (NoteExpressionsView { volume: true, ..self@ }),
    {
        let mut s = self;
        s.volume = true;
        s
    }

    /// Enable delivery of per-note panning as `Event::PolyPan`.
    pub fn with_pan(self) -> (r: Self)
        ensures
            r@ == (NoteExpressionsView { pan: true, ..self@ }),
    {
        let mut s = self;
        s.pan = true;
        s
    }

    /// Enable delivery of per-note tuning offset as `Event::PolyTuning`.
    pub fn with_tuning(self) -> (r: Self)
        ensures
            r@ == (NoteExpressionsView { tuning: true, ..self@ }),
    {
        let mut s = self;
        s.tuning = true;
        s
    }

    /// Enable delivery of per-note vibrato as `Event::PolyVibrato`.
    pub fn with_vibrato(self) -> (r: Self)
        ensures
            r@ == (NoteExpressionsView { vibrato: true, ..self@ }),
    {
        let mut s = self;
        s.vibrato = true;
        s
    }

    /// Enable delivery of per-note expression (MPE "slide") as `Event::PolyExpression`.
    pub fn with_expression(self) -> (r: Self)
        ensures
            r@ == (NoteExpressionsView { expression: true, ..self@ }),
    {
        let mut s = self;
        s.expression = true;
        s
    }

    /// Enable delivery of per-note brightness as `Event::PolyBrightness`.
    pub fn with_brightness(self) -> (r: Self)
        ensures
            r@ == (NoteExpressionsView { brightness: true, ..self@ }),
    {
        let mut s = self;
        s.brightness = true;
        s
    }

    /// Enable delivery of per-note pressure (poly aftertouch) as `Event::PolyPressure`.
    pub fn with_pressure(self) -> (r: Self)
        ensures
            r@ == (NoteExpressionsView { pressure: true, ..self@ }),
    {
        let mut s = self;
        s.pressure = true;
        s
    }

    /// Returns `true` when no note expressions are enabled.
    pub fn is_empty(&self) -> (r: bool)
        ensures
            r == (self@ == NoteExpressionsView::uniform(false)),
    {
        !self.volume && !self.pan && !self.tuning && !self.vibrato && !self.expression
            && !self.brightness && !self.pressure
    }

    /// Returns `true` if per-note volume is enabled.
    pub fn volume(&self) -> (r: bool)
        ensures
            r == self@.volume,
    {
        self.volume
    }

    /// Returns `true` if per-note panning is enabled.
    pub fn pan(&self) -> (r: bool)
        ensures
            r == self@.pan,
    {
        self.pan
    }

    /// Returns `true` if per-note tuning is enabled.
    pub fn tuning(&self) -> (r: bool)
        ensures
            r == self@.tuning,
    {
        self.tuning
    }

    /// Returns `true` if per-note vibrato is enabled.
    pub fn vibrato(&self) -> (r: bool)
        ensures
            r == self@.vibrato,
    {
        self.vibrato
    }

    /// Returns `true` if per-note expression (MPE "slide") is enabled.
    pub fn expression(&self) -> (r: bool)
        ensures
            r == self@.expression,
    {
        self.expression
    }

    /// Returns `true` if per-note brightness is enabled.
    pub fn brightness(&self) -> (r: bool)
        ensures
            r == self@.brightness,
    {
        self.brightness
    }

    /// Returns `true` if per-note pressure (poly aftertouch) is enabled.
    pub fn pressure(&self) -> (r: bool)
        ensures
            r == self@.pressure,
    {
        self.pressure
    }

    /// Returns `true` if the given dimension is enabled.
    pub fn enables(&self, kind: NoteExpression) -> (r: bool)
        ensures
            r == self@.enables(kind),
    {
        match kind {
            NoteExpression::Volume => self.volume,
            NoteExpression::Pan => self.pan,
            NoteExpression::Tuning => self.tuning,
            NoteExpression::Vibrato => self.vibrato,
            NoteExpression::Expression => self.expression,
            NoteExpression::Brightness => self.brightness,
            NoteExpression::Pressure => self.pressure,
        }
    }
}

impl Default for NoteExpressions {
    /// A sensible common subset: volume, pan, tuning, brightness and pressure.
    /// Vibrato and expression are left out, as hosts rarely (if at all) send them.
    fn default() -> (r: Self)
        ensures
            r@ == (NoteExpressionsView {
                volume: true,
                pan: true,
                tuning: true,
                vibrato: false,
                expression: false,
                brightness: true,
                pressure: true,
            }),
    {
        NoteExpressions::none().with_volume().with_pan().with_tuning().with_brightness().with_pressure()
    }
}

} // verus!
