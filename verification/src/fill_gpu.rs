//! The numbers the client's fill shader reads a figure's animation slots
//! as, and which slots it can carry at all.

use crate::params::WaveformKind;
use vstd::prelude::*;

verus! {

/// The coordinate a figure's phase is read along.
#[derive(Clone, Copy, Debug, PartialEq, Eq, Structural)]
pub enum PhaseAxis {
    Angle,
    Radius,
    Linear,
}

/// The phase axis as the shader numbers it.
pub open spec fn axis_number(axis: PhaseAxis) -> i32 {
    match axis {
        PhaseAxis::Angle => 0,
        PhaseAxis::Radius => 1,
        PhaseAxis::Linear => 2,
    }
}

/// The coordinate a phase is read along, as the shader numbers it.
pub fn phase_code(axis: PhaseAxis) -> (r: i32)
    ensures
        r == axis_number(axis),
{
    match axis {
        PhaseAxis::Angle => 0,
        PhaseAxis::Radius => 1,
        PhaseAxis::Linear => 2,
    }
}

/// What an animation slot drives.
#[derive(Clone, Copy, Debug, PartialEq, Eq, Structural)]
pub enum AnimationTarget {
    Color,
    ColorSpread,
    ColorSaturation,
    Rotation,
    Thickness,
    Size,
    AspectRatio,
    PositionX,
    PositionY,
    Spin,
    MarqueeRotation,
}

/// What a slot drives, as the shader numbers it, for the targets a figure's
/// geometry answers; the rest are resolved elsewhere or not at all.
pub open spec fn target_number(target: AnimationTarget) -> Option<i32> {
    match target {
        AnimationTarget::Size => Some(1),
        AnimationTarget::Spin => Some(2),
        AnimationTarget::AspectRatio => Some(3),
        AnimationTarget::PositionX => Some(4),
        AnimationTarget::PositionY => Some(5),
        _ => None,
    }
}

/// What a slot drives, as the shader numbers it, or `None` for a target a
/// figure's geometry does not answer.
pub fn target_code(target: AnimationTarget) -> (r: Option<i32>)
    ensures
        r == target_number(target),
{
    match target {
        AnimationTarget::Size => Some(1),
        AnimationTarget::Spin => Some(2),
        AnimationTarget::AspectRatio => Some(3),
        AnimationTarget::PositionX => Some(4),
        AnimationTarget::PositionY => Some(5),
        AnimationTarget::Color | AnimationTarget::ColorSpread | AnimationTarget::ColorSaturation
        | AnimationTarget::Rotation | AnimationTarget::Thickness
        | AnimationTarget::MarqueeRotation => None,
    }
}

/// The fill shader's numbering of what a slot drives.
pub const TARGET_SIZE: i32 = 1;
pub const TARGET_SPIN: i32 = 2;
pub const TARGET_ASPECT: i32 = 3;
pub const TARGET_POSITION_X: i32 = 4;
pub const TARGET_POSITION_Y: i32 = 5;

/// Each target a figure's geometry answers goes by the shader's own number
/// for it, and every other target has none.
pub proof fn targets_follow_the_shader_numbering(t: AnimationTarget)
    ensures
        (target_number(t) == Some(TARGET_SIZE)) <==> t == AnimationTarget::Size,
        (target_number(t) == Some(TARGET_SPIN)) <==> t == AnimationTarget::Spin,
        (target_number(t) == Some(TARGET_ASPECT)) <==> t == AnimationTarget::AspectRatio,
        (target_number(t) == Some(TARGET_POSITION_X)) <==> t == AnimationTarget::PositionX,
        (target_number(t) == Some(TARGET_POSITION_Y)) <==> t == AnimationTarget::PositionY,
        target_number(t) is None <==> (t == AnimationTarget::Color || t
            == AnimationTarget::ColorSpread || t == AnimationTarget::ColorSaturation || t
            == AnimationTarget::Rotation || t == AnimationTarget::Thickness || t
            == AnimationTarget::MarqueeRotation),
{
}

/// The phase axes go by the shader's numbers for them, in the order listed:
/// angle first, then radius, then linear.
pub proof fn axes_follow_the_shader_numbering(axis: PhaseAxis)
    ensures
        (axis_number(axis) == 0) <==> axis == PhaseAxis::Angle,
        (axis_number(axis) == 1) <==> axis == PhaseAxis::Radius,
        (axis_number(axis) == 2) <==> axis == PhaseAxis::Linear,
{
}

/// A figure carries an animation the shader cannot evaluate.
#[derive(Clone, Copy, Debug, PartialEq, Eq, Structural)]
pub struct Unsupported;

/// One animation slot, as far as the shader's numbering goes: the target
/// and waveform codes and the packed switches.
#[derive(Clone, Copy, Debug, PartialEq, Eq, Structural)]
pub struct WaveCodes {
    pub target: i32,
    pub form: i32,
    pub flags: i32,
}

/// The codes for one slot: an error for a waveform the shader does not
/// carry, nothing for an inactive slot or one whose target the geometry does
/// not answer, and otherwise the target, waveform and switches.
pub fn wave_codes(
    waveform: WaveformKind,
    active: bool,
    target: AnimationTarget,
    pulse: bool,
    standing: bool,
    invert: bool,
) -> (r: Result<Option<WaveCodes>, Unsupported>)
    ensures
        waveform.code() is None ==> r is Err,
        waveform.code() matches Some(form) ==> match target_number(target) {
            Some(t) if active => r == Ok::<Option<WaveCodes>, Unsupported>(
                Some(
                    WaveCodes {
                        target: t,
                        form,
                        flags: crate::params::flags_value(pulse, standing, invert) as i32,
                    },
                ),
            ),
            _ => r == Ok::<Option<WaveCodes>, Unsupported>(None),
        },
{
    let form = match crate::params::waveform_code(waveform) {
        Some(f) => f,
        None => {
            return Err(Unsupported);
        },
    };
    if !active {
        return Ok(None);
    }
    let target = match target_code(target) {
        Some(t) => t,
        None => {
            return Ok(None);
        },
    };
    let flags = crate::params::wave_flags(pulse, standing, invert);
    Ok(Some(WaveCodes { target, form, flags }))
}

} // verus!
