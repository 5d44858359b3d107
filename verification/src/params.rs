//! What the demo's control window publishes: the choices a layer is drawn
//! with, their labels, and the numbers a shader reads them as.

use vstd::prelude::*;

verus! {

/// Which coordinate on a shape drives the colour sawtooth.
#[derive(Clone, Copy, Debug, PartialEq, Eq, Structural)]
pub enum ColorPhase {
    /// Angle about the shape's centre; the direct analogue of a tunnel
    /// segment's relative angle.
    Angle,
    /// Distance from the shape's centre: concentric bands.
    Radius,
    /// Position across the shape's x axis.
    LinearX,
    /// Position along the shape's y axis.
    LinearY,
}

impl ColorPhase {
    pub const ALL: [ColorPhase; 4] = [
        ColorPhase::Angle,
        ColorPhase::Radius,
        ColorPhase::LinearX,
        ColorPhase::LinearY,
    ];

    pub open spec fn label_text(self) -> Seq<char> {
        match self {
            ColorPhase::Angle => "angle"@,
            ColorPhase::Radius => "radius"@,
            ColorPhase::LinearX => "linear x"@,
            ColorPhase::LinearY => "linear y"@,
        }
    }

    /// The label the control window shows.
    pub fn label(self) -> (r: &'static str)
        ensures
            r@ == self.label_text(),
    {
        match self {
            ColorPhase::Angle => "angle",
            ColorPhase::Radius => "radius",
            ColorPhase::LinearX => "linear x",
            ColorPhase::LinearY => "linear y",
        }
    }

    /// The phase axis as the fill shader numbers it.
    pub open spec fn code(self) -> i32 {
        match self {
            ColorPhase::Angle => 0,
            ColorPhase::Radius => 1,
            ColorPhase::LinearX => 2,
            ColorPhase::LinearY => 3,
        }
    }
}

/// The phase axis as the fill shader numbers it.
pub fn phase_code(phase: ColorPhase) -> (r: i32)
    ensures
        r == phase.code(),
{
    match phase {
        ColorPhase::Angle => 0,
        ColorPhase::Radius => 1,
        ColorPhase::LinearX => 2,
        ColorPhase::LinearY => 3,
    }
}

/// Whether a layer draws the shape's interior, its outline, or both.
#[derive(Clone, Copy, Debug, PartialEq, Eq, Structural)]
pub enum DrawMode {
    Fill,
    Outline,
    Both,
}

impl DrawMode {
    pub const ALL: [DrawMode; 3] = [DrawMode::Fill, DrawMode::Outline, DrawMode::Both];

    pub open spec fn label_text(self) -> Seq<char> {
        match self {
            DrawMode::Fill => "fill"@,
            DrawMode::Outline => "outline"@,
            DrawMode::Both => "both"@,
        }
    }

    pub fn label(self) -> (r: &'static str)
        ensures
            r@ == self.label_text(),
    {
        match self {
            DrawMode::Fill => "fill",
            DrawMode::Outline => "outline",
            DrawMode::Both => "both",
        }
    }

    /// Whether the interior is drawn.
    pub fn draws_fill(self) -> (r: bool)
        ensures
            r <==> (self == DrawMode::Fill || self == DrawMode::Both),
    {
        match self {
            DrawMode::Fill | DrawMode::Both => true,
            DrawMode::Outline => false,
        }
    }

    /// Whether the outline is drawn.
    pub fn draws_outline(self) -> (r: bool)
        ensures
            r <==> (self == DrawMode::Outline || self == DrawMode::Both),
    {
        match self {
            DrawMode::Outline | DrawMode::Both => true,
            DrawMode::Fill => false,
        }
    }
}

/// Every mode draws something: an interior, an outline, or both.
pub proof fn every_mode_draws_something(mode: DrawMode)
    ensures
        (mode == DrawMode::Fill || mode == DrawMode::Both) || (mode == DrawMode::Outline
            || mode == DrawMode::Both),
        mode == DrawMode::Both <==> ((mode == DrawMode::Fill || mode == DrawMode::Both) && (mode
            == DrawMode::Outline || mode == DrawMode::Both)),
{
}

/// What an animation slot drives.
#[derive(Clone, Copy, Debug, PartialEq, Eq, Structural)]
pub enum AnimTarget {
    /// Shifts hue.
    Hue,
    /// Darkens.
    Brightness,
    /// Washes toward white.
    Saturation,
    /// Scales each point's distance from the centre.
    Radial,
    /// Rotates each point about the centre by an amount that varies across
    /// the shape.
    Twist,
    /// Stretches one axis while squeezing the other.
    Squash,
}

impl AnimTarget {
    pub const ALL: [AnimTarget; 6] = [
        AnimTarget::Hue,
        AnimTarget::Brightness,
        AnimTarget::Saturation,
        AnimTarget::Radial,
        AnimTarget::Twist,
        AnimTarget::Squash,
    ];

    pub open spec fn label_text(self) -> Seq<char> {
        match self {
            AnimTarget::Hue => "hue"@,
            AnimTarget::Brightness => "bright"@,
            AnimTarget::Saturation => "sat"@,
            AnimTarget::Radial => "radial"@,
            AnimTarget::Twist => "twist"@,
            AnimTarget::Squash => "squash"@,
        }
    }

    pub fn label(self) -> (r: &'static str)
        ensures
            r@ == self.label_text(),
    {
        match self {
            AnimTarget::Hue => "hue",
            AnimTarget::Brightness => "bright",
            AnimTarget::Saturation => "sat",
            AnimTarget::Radial => "radial",
            AnimTarget::Twist => "twist",
            AnimTarget::Squash => "squash",
        }
    }

    pub open spec fn resolved_in_ramp(self) -> bool {
        self == AnimTarget::Hue || self == AnimTarget::Brightness || self
            == AnimTarget::Saturation
    }

    /// Whether this target is resolved in the ramp texture rather than on
    /// the mesh.
    pub fn is_color(self) -> (r: bool)
        ensures
            r == self.resolved_in_ramp(),
    {
        match self {
            AnimTarget::Hue | AnimTarget::Brightness | AnimTarget::Saturation => true,
            AnimTarget::Radial | AnimTarget::Twist | AnimTarget::Squash => false,
        }
    }
}

impl Default for AnimTarget {
    /// A fresh slot drives hue.
    fn default() -> (r: AnimTarget)
        ensures
            r == AnimTarget::Hue,
    {
        AnimTarget::Hue
    }
}

/// A waveform an animation slot can take.
#[derive(Clone, Copy, Debug, PartialEq, Eq, Structural)]
pub enum WaveformKind {
    Sine,
    Triangle,
    Square,
    Sawtooth,
    Noise,
    Constant,
}

impl WaveformKind {
    pub const ALL: [WaveformKind; 6] = [
        WaveformKind::Sine,
        WaveformKind::Triangle,
        WaveformKind::Square,
        WaveformKind::Sawtooth,
        WaveformKind::Noise,
        WaveformKind::Constant,
    ];

    pub open spec fn label_text(self) -> Seq<char> {
        match self {
            WaveformKind::Sine => "sine"@,
            WaveformKind::Triangle => "tri"@,
            WaveformKind::Square => "sqr"@,
            WaveformKind::Sawtooth => "saw"@,
            WaveformKind::Noise => "noise"@,
            WaveformKind::Constant => "const"@,
        }
    }

    pub fn label(self) -> (r: &'static str)
        ensures
            r@ == self.label_text(),
    {
        match self {
            WaveformKind::Sine => "sine",
            WaveformKind::Triangle => "tri",
            WaveformKind::Square => "sqr",
            WaveformKind::Sawtooth => "saw",
            WaveformKind::Noise => "noise",
            WaveformKind::Constant => "const",
        }
    }

    /// The waveform as the fill shader numbers it, where the shader carries
    /// one at all. Noise reads a field no uniform can hold.
    pub open spec fn code(self) -> Option<i32> {
        match self {
            WaveformKind::Sine => Some(0),
            WaveformKind::Triangle => Some(1),
            WaveformKind::Square => Some(2),
            WaveformKind::Sawtooth => Some(3),
            WaveformKind::Constant => Some(4),
            WaveformKind::Noise => None,
        }
    }
}

impl Default for WaveformKind {
    /// A fresh slot takes a sine.
    fn default() -> (r: WaveformKind)
        ensures
            r == WaveformKind::Sine,
    {
        WaveformKind::Sine
    }
}

/// The waveform as the fill shader numbers it, or `None` for the one it
/// cannot evaluate.
pub fn waveform_code(waveform: WaveformKind) -> (r: Option<i32>)
    ensures
        r == waveform.code(),
        r is None <==> waveform == WaveformKind::Noise,
{
    match waveform {
        WaveformKind::Sine => Some(0),
        WaveformKind::Triangle => Some(1),
        WaveformKind::Square => Some(2),
        WaveformKind::Sawtooth => Some(3),
        WaveformKind::Constant => Some(4),
        WaveformKind::Noise => None,
    }
}

/// The fill shader's waveform numbering.
pub const WAVE_SINE: i32 = 0;
pub const WAVE_TRIANGLE: i32 = 1;
pub const WAVE_SQUARE: i32 = 2;
pub const WAVE_SAWTOOTH: i32 = 3;
pub const WAVE_CONSTANT: i32 = 4;

/// The fill shader's switch bits.
pub const FLAG_PULSE: i32 = 1;
pub const FLAG_STANDING: i32 = 2;
pub const FLAG_INVERT: i32 = 4;

/// Each waveform the shader carries goes by the shader's own number for it,
/// and only noise, which it cannot evaluate, has none.
pub proof fn waveforms_follow_the_shader_numbering(w: WaveformKind)
    ensures
        (w.code() == Some(WAVE_SINE)) <==> w == WaveformKind::Sine,
        (w.code() == Some(WAVE_TRIANGLE)) <==> w == WaveformKind::Triangle,
        (w.code() == Some(WAVE_SQUARE)) <==> w == WaveformKind::Square,
        (w.code() == Some(WAVE_SAWTOOTH)) <==> w == WaveformKind::Sawtooth,
        (w.code() == Some(WAVE_CONSTANT)) <==> w == WaveformKind::Constant,
        w.code() is None <==> w == WaveformKind::Noise,
{
}

/// Each switch lands on the shader's own bit for it: the packed value has
/// the pulse bit set exactly when pulse is on, the standing bit exactly when
/// standing is, and the invert bit exactly when invert is, and no other bit.
pub proof fn each_switch_sets_its_own_bit(pulse: bool, standing: bool, invert: bool)
    ensures
        (flags_value(pulse, standing, invert) / FLAG_PULSE as int) % 2 == 1 <==> pulse,
        (flags_value(pulse, standing, invert) / FLAG_STANDING as int) % 2 == 1 <==> standing,
        (flags_value(pulse, standing, invert) / FLAG_INVERT as int) % 2 == 1 <==> invert,
        0 <= flags_value(pulse, standing, invert) < 2 * FLAG_INVERT,
{
}

/// The waveform switches, packed one to a bit: pulse, standing, invert.
pub open spec fn flags_value(pulse: bool, standing: bool, invert: bool) -> int {
    (if pulse { 1int } else { 0int }) + (if standing { 2int } else { 0int }) + (if invert {
        4int
    } else {
        0int
    })
}

/// The waveform switches as the shader reads them, one to a bit.
pub fn wave_flags(pulse: bool, standing: bool, invert: bool) -> (r: i32)
    ensures
        r == flags_value(pulse, standing, invert),
        0 <= r < 8,
{
    let mut flags: i32 = 0;
    if pulse {
        flags = flags + 1;
    }
    if standing {
        flags = flags + 2;
    }
    if invert {
        flags = flags + 4;
    }
    flags
}

/// Distinct switch settings pack to distinct numbers, so the shader can read
/// each one back.
pub proof fn flags_are_unambiguous(p1: bool, s1: bool, i1: bool, p2: bool, s2: bool, i2: bool)
    requires
        flags_value(p1, s1, i1) == flags_value(p2, s2, i2),
    ensures
        p1 == p2 && s1 == s2 && i1 == i2,
{
}

/// Each phase axis has a code of its own, numbered as the shader reads
/// them: angle, radius, linear x, linear y, from zero.
pub proof fn phase_codes_are_distinct(a: ColorPhase, b: ColorPhase)
    requires
        a.code() == b.code(),
    ensures
        a == b,
        (a.code() == 0) <==> a == ColorPhase::Angle,
        (a.code() == 1) <==> a == ColorPhase::Radius,
        (a.code() == 2) <==> a == ColorPhase::LinearX,
        (a.code() == 3) <==> a == ColorPhase::LinearY,
{
}

/// What one draw through the demo's shader put on the GPU.
#[derive(Clone, Copy)]
pub struct DrawStats {
    /// Building and uploading a buffer, which happens once per mesh.
    pub upload_us: u128,
    /// Setting uniforms and issuing the draw.
    pub submit_us: u128,
    pub triangles: usize,
}

impl Default for DrawStats {
    /// Nothing drawn, and no time spent.
    fn default() -> (r: DrawStats)
        ensures
            r.upload_us == 0,
            r.submit_us == 0,
            r.triangles == 0,
    {
        DrawStats { upload_us: 0, submit_us: 0, triangles: 0 }
    }
}

/// The knobs a layer's colour ramp is built from, quantised to half a
/// texel, so the ramp is rebuilt only when they move.
#[derive(Clone, Copy, PartialEq)]
pub struct RampKey(pub [i64; 4]);

} // verus!
