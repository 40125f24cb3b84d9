//! What the settings' own operations change.

use vstd::prelude::*;
use crate::ascii::color::ColorMode;
use crate::shell::settings::{
    color_after, grid_policy, mode_after, CameraMode, PostProcess, Settings, TraceFeature,
    TraceSettings,
};

verus! {

/// Colours are stepped through from the finest to the coarsest and round again, and the
/// camera from the eyes over the shoulder to the orbit and back.
pub proof fn law_orders(color: ColorMode, mode: CameraMode)
    ensures
        color_after(color) == ColorMode::TrueColor <==> color == ColorMode::Monochrome,
        color_after(color) == ColorMode::Ansi256 <==> color == ColorMode::TrueColor,
        color_after(color) == ColorMode::Ansi16 <==> color == ColorMode::Ansi256,
        color_after(color) == ColorMode::Grayscale <==> color == ColorMode::Ansi16,
        color_after(color) == ColorMode::Monochrome <==> color == ColorMode::Grayscale,
        mode_after(mode) == CameraMode::FirstPerson <==> mode == CameraMode::Orbit,
        mode_after(mode) == CameraMode::ThirdPerson <==> mode == CameraMode::FirstPerson,
        mode_after(mode) == CameraMode::Orbit <==> mode == CameraMode::ThirdPerson,
{
}

/// Switching a ray feature changes that feature alone.
pub proof fn law_features(t: TraceSettings, feature: TraceFeature, on: bool)
    ensures
        ({
            let r = t.with_feature(feature, on);
            &&& r.shadows == (if feature == TraceFeature::Shadows {
                on
            } else {
                t.shadows
            })
            &&& r.reflections == (if feature == TraceFeature::Reflections {
                on
            } else {
                t.reflections
            })
            &&& r.refraction == (if feature == TraceFeature::Refraction {
                on
            } else {
                t.refraction
            })
            &&& r.ambient_occlusion == (if feature == TraceFeature::AmbientOcclusion {
                on
            } else {
                t.ambient_occlusion
            })
            &&& r.max_depth == t.max_depth && r.shadow_samples == t.shadow_samples && r.ao_samples
                == t.ao_samples
        }),
        t.feature(TraceFeature::Shadows) == t.shadows,
        t.feature(TraceFeature::Reflections) == t.reflections,
        t.feature(TraceFeature::Refraction) == t.refraction,
        t.feature(TraceFeature::AmbientOcclusion) == t.ambient_occlusion,
{
}

/// Effects are taken from the demonstration or are all off, cells merge in twos or not at
/// all, and tracing flips only where it can be done.
pub proof fn law_switches(s: Settings, on: bool)
    ensures
        on ==> s.with_post(on) == (Settings { post: s.demo_post, ..s }),
        !on ==> s.with_post(on) == (Settings {
            post: PostProcess { ssao: false, other: false },
            ..s
        }),
        s.with_grid(on) == (Settings { subdivision: s.with_grid(on).subdivision, ..s }),
        s.with_grid(on).subdivision.max_span == (if on {
            2int
        } else {
            1
        }),
        s.with_grid(on).merges() == on,
        grid_policy(on).max_span == s.with_grid(on).subdivision.max_span,
        s.with_tracing_flipped() == (Settings {
            traced_enabled: s.traced_enabled != s.tracing_available,
            ..s
        }),
        s.post.any() <==> s.post.ssao || s.post.other,
        s.merges() <==> s.subdivision.max_span > 1,
{
}

/// A chosen preset is the mode, and is remembered as chosen.
pub proof fn law_presets(s: Settings, mode: CameraMode)
    ensures
        s.with_preset(mode).camera_mode == mode,
        s.with_preset(mode).preset_chosen,
        s.with_preset(mode) == (Settings { camera_mode: mode, preset_chosen: true, ..s }),
{
}

} // verus!
