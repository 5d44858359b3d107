use tunnelclient::demo_mesh::Level;
use tunnelclient::fill_gpu::{phase_code as axis_code, target_code, wave_codes, AnimationTarget, PhaseAxis, Unsupported, WaveCodes};
use tunnelclient::params::{
    phase_code, wave_flags, waveform_code, AnimTarget, ColorPhase, DrawMode, WaveformKind,
};

#[test]
fn every_choice_has_its_label() {
    let phases: Vec<&str> = ColorPhase::ALL.iter().map(|p| p.label()).collect();
    assert_eq!(phases, ["angle", "radius", "linear x", "linear y"]);
    let modes: Vec<&str> = DrawMode::ALL.iter().map(|m| m.label()).collect();
    assert_eq!(modes, ["fill", "outline", "both"]);
    let targets: Vec<&str> = AnimTarget::ALL.iter().map(|t| t.label()).collect();
    assert_eq!(targets, ["hue", "bright", "sat", "radial", "twist", "squash"]);
    let forms: Vec<&str> = WaveformKind::ALL.iter().map(|w| w.label()).collect();
    assert_eq!(forms, ["sine", "tri", "sqr", "saw", "noise", "const"]);
}

#[test]
fn draw_modes_say_what_they_draw() {
    assert!(DrawMode::Fill.draws_fill() && !DrawMode::Fill.draws_outline());
    assert!(!DrawMode::Outline.draws_fill() && DrawMode::Outline.draws_outline());
    assert!(DrawMode::Both.draws_fill() && DrawMode::Both.draws_outline());
}

#[test]
fn only_colour_targets_resolve_in_the_ramp() {
    let colour: Vec<bool> = AnimTarget::ALL.iter().map(|t| t.is_color()).collect();
    assert_eq!(colour, [true, true, true, false, false, false]);
    assert_eq!(AnimTarget::default(), AnimTarget::Hue);
    assert_eq!(WaveformKind::default(), WaveformKind::Sine);
}

#[test]
fn the_shader_numbers_what_it_can_evaluate() {
    let codes: Vec<i32> = ColorPhase::ALL.iter().map(|p| phase_code(*p)).collect();
    assert_eq!(codes, [0, 1, 2, 3]);
    let forms: Vec<Option<i32>> = WaveformKind::ALL.iter().map(|w| waveform_code(*w)).collect();
    assert_eq!(forms, [Some(0), Some(1), Some(2), Some(3), None, Some(4)]);
    assert_eq!(wave_flags(false, false, false), 0);
    assert_eq!(wave_flags(true, false, true), 5);
    assert_eq!(wave_flags(true, true, true), 7);
}

#[test]
fn a_figure_slot_carries_only_geometry_it_can_answer() {
    assert_eq!(axis_code(PhaseAxis::Linear), 2);
    assert_eq!(target_code(AnimationTarget::PositionY), Some(5));
    assert_eq!(target_code(AnimationTarget::Color), None);
    assert_eq!(
        wave_codes(WaveformKind::Square, true, AnimationTarget::Spin, false, true, false),
        Ok(Some(WaveCodes { target: 2, form: 2, flags: 2 }))
    );
    assert_eq!(wave_codes(WaveformKind::Noise, true, AnimationTarget::Spin, false, false, false), Err(Unsupported));
    assert_eq!(wave_codes(WaveformKind::Sine, false, AnimationTarget::Spin, false, false, false), Ok(None));
    assert_eq!(wave_codes(WaveformKind::Sine, true, AnimationTarget::Thickness, false, false, false), Ok(None));
}

#[test]
fn demo_levels_run_coarsest_first() {
    let levels: Vec<i8> = Level::all().iter().map(|l| l.0).collect();
    assert_eq!(levels, [-2, -3, -4, -5, -6, -7]);
}
