//! What the user can switch while the engine runs.

use vstd::prelude::*;
use crate::ascii::color::ColorMode;
use crate::ascii::grid_layout::SubdivisionPolicy;

verus! {

/// How cells become glyphs.
#[derive(Clone, Copy, Debug, PartialEq, Eq, Structural)]
pub enum GlyphStyle {
    /// Quadrant block elements.
    Blocks,
    /// The brightness ramp.
    Ramp,
}

/// Camera presets.
#[derive(Clone, Copy, Debug, PartialEq, Eq, Structural)]
pub enum CameraMode {
    FirstPerson,
    ThirdPerson,
    Orbit,
}

/// Post-processing: screen-space ambient occlusion, and any other effect.
#[derive(Clone, Copy, Debug, PartialEq, Eq, Structural)]
pub struct PostProcess {
    pub ssao: bool,
    pub other: bool,
}

impl PostProcess {
    /// No effect.
    pub open spec fn off() -> PostProcess {
        PostProcess { ssao: false, other: false }
    }

    /// Some effect is on.
    pub open spec fn any(self) -> bool {
        self.ssao || self.other
    }

    /// No effect at all.
    pub fn none() -> (r: Self)
        ensures
            r == PostProcess::off(),
    {
        PostProcess { ssao: false, other: false }
    }

    /// Whether some effect is on.
    pub fn any_enabled(&self) -> (r: bool)
        ensures
            r == self.any(),
    {
        self.ssao || self.other
    }

    /// The same without screen-space ambient occlusion.
    pub fn without_ssao(&self) -> (r: Self)
        ensures
            r == (PostProcess { ssao: false, ..*self }),
    {
        PostProcess { ssao: false, other: self.other }
    }

    /// Whether screen-space ambient occlusion is on.
    pub fn ssao_active(&self) -> (r: bool)
        ensures
            r == self.ssao,
    {
        self.ssao
    }
}

/// The kinds of rays that can be switched one by one.
#[derive(Clone, Copy, Debug, PartialEq, Eq, Structural)]
pub enum TraceFeature {
    Shadows,
    Reflections,
    Refraction,
    AmbientOcclusion,
}

/// Ray budget and features of the traced path.
#[derive(Clone, Copy, Debug, PartialEq, Eq, Structural)]
pub struct TraceSettings {
    pub shadows: bool,
    pub reflections: bool,
    pub refraction: bool,
    pub ambient_occlusion: bool,
    pub max_depth: u32,
    pub shadow_samples: u32,
    pub ao_samples: u32,
}

impl TraceSettings {
    /// Is the feature on?
    pub open spec fn feature(self, feature: TraceFeature) -> bool {
        match feature {
            TraceFeature::Shadows => self.shadows,
            TraceFeature::Reflections => self.reflections,
            TraceFeature::Refraction => self.refraction,
            TraceFeature::AmbientOcclusion => self.ambient_occlusion,
        }
    }

    /// The settings with a feature on or off.
    pub open spec fn with_feature(self, feature: TraceFeature, on: bool) -> TraceSettings {
        match feature {
            TraceFeature::Shadows => TraceSettings { shadows: on, ..self },
            TraceFeature::Reflections => TraceSettings { reflections: on, ..self },
            TraceFeature::Refraction => TraceSettings { refraction: on, ..self },
            TraceFeature::AmbientOcclusion => TraceSettings { ambient_occlusion: on, ..self },
        }
    }

    /// Whether a feature is on.
    pub fn has(&self, feature: TraceFeature) -> (r: bool)
        ensures
            r == self.feature(feature),
    {
        match feature {
            TraceFeature::Shadows => self.shadows,
            TraceFeature::Reflections => self.reflections,
            TraceFeature::Refraction => self.refraction,
            TraceFeature::AmbientOcclusion => self.ambient_occlusion,
        }
    }

    /// Switch a feature.
    pub fn set(&mut self, feature: TraceFeature, on: bool)
        ensures
            *final(self) == old(self).with_feature(feature, on),
    {
        match feature {
            TraceFeature::Shadows => {
                self.shadows = on;
            },
            TraceFeature::Reflections => {
                self.reflections = on;
            },
            TraceFeature::Refraction => {
                self.refraction = on;
            },
            TraceFeature::AmbientOcclusion => {
                self.ambient_occlusion = on;
            },
        }
    }
}

/// Everything that keys, menu and console switch.
#[derive(Clone, Copy, Debug, PartialEq, Eq, Structural)]
pub struct Settings {
    pub color_mode: ColorMode,
    pub glyph_style: GlyphStyle,
    pub post: PostProcess,
    /// The effects that switching post-processing on gives.
    pub demo_post: PostProcess,
    pub subdivision: SubdivisionPolicy,
    pub hud_visible: bool,
    /// Whether the machine can trace rays at all.
    pub tracing_available: bool,
    pub traced_enabled: bool,
    pub trace: TraceSettings,
    pub camera_mode: CameraMode,
    /// A preset was chosen, and the camera is to take up its distance and height.
    pub preset_chosen: bool,
    pub should_exit: bool,
}

/// A grid that merges cells, or one that does not.
pub open spec fn grid_policy(merging: bool) -> SubdivisionPolicy {
    SubdivisionPolicy {
        max_span: if merging {
            2
        } else {
            1
        },
    }
}

impl Settings {
    /// Cells are merged.
    pub open spec fn merges(self) -> bool {
        self.subdivision.max_span >= 2
    }

    /// Post-processing switched on or off.
    pub open spec fn with_post(self, on: bool) -> Settings {
        Settings {
            post: if on {
                self.demo_post
            } else {
                PostProcess::off()
            },
            ..self
        }
    }

    /// Cell merging switched on or off.
    pub open spec fn with_grid(self, on: bool) -> Settings {
        Settings { subdivision: grid_policy(on), ..self }
    }

    /// The lighting path flipped, where the machine can trace.
    pub open spec fn with_tracing_flipped(self) -> Settings {
        Settings {
            traced_enabled: if self.tracing_available {
                !self.traced_enabled
            } else {
                self.traced_enabled
            },
            ..self
        }
    }

    /// A camera preset chosen, be it the current one: the camera takes up its
    /// distance and height anew.
    pub open spec fn with_preset(self, mode: CameraMode) -> Settings {
        Settings { camera_mode: mode, preset_chosen: true, ..self }
    }

    /// The settings at start: full colour, blocks, a plain grid, no effects, and
    /// traced lighting wherever the machine allows it.
    pub fn new(tracing_available: bool, trace: TraceSettings, demo_post: PostProcess) -> (r: Self)
        ensures
            r == (Settings {
                color_mode: ColorMode::TrueColor,
                glyph_style: GlyphStyle::Blocks,
                post: PostProcess::off(),
                demo_post,
                subdivision: grid_policy(false),
                hud_visible: true,
                tracing_available,
                traced_enabled: tracing_available,
                trace,
                camera_mode: CameraMode::FirstPerson,
                preset_chosen: false,
                should_exit: false,
            }),
    {
        Settings {
            color_mode: ColorMode::TrueColor,
            glyph_style: GlyphStyle::Blocks,
            post: PostProcess::none(),
            demo_post,
            subdivision: SubdivisionPolicy::uniform(),
            hud_visible: true,
            tracing_available,
            traced_enabled: tracing_available,
            trace,
            camera_mode: CameraMode::FirstPerson,
            preset_chosen: false,
            should_exit: false,
        }
    }

    /// Choose a camera preset.
    pub fn choose_preset(&mut self, mode: CameraMode)
        ensures
            *final(self) == old(self).with_preset(mode),
    {
        self.camera_mode = mode;
        self.preset_chosen = true;
    }

    /// The preset that the camera is to take up, which it is told once.
    pub fn take_preset(&mut self) -> (r: Option<CameraMode>)
        ensures
            *final(self) == (Settings { preset_chosen: false, ..*old(self) }),
            r == (if old(self).preset_chosen {
                Some(old(self).camera_mode)
            } else {
                None
            }),
    {
        let chosen: bool = self.preset_chosen;
        self.preset_chosen = false;
        if chosen {
            Some(self.camera_mode)
        } else {
            None
        }
    }

    /// Switch post-processing.
    pub fn set_post(&mut self, on: bool)
        ensures
            *final(self) == old(self).with_post(on),
    {
        self.post = if on {
            self.demo_post
        } else {
            PostProcess::none()
        };
    }

    /// Switch cell merging.
    pub fn set_grid(&mut self, on: bool)
        ensures
            *final(self) == old(self).with_grid(on),
    {
        self.subdivision = if on {
            SubdivisionPolicy { max_span: 2 }
        } else {
            SubdivisionPolicy::uniform()
        };
    }

    /// Flip between rasterised and traced lighting; without ray tracing the
    /// setting stays.
    pub fn toggle_tracing(&mut self)
        ensures
            *final(self) == old(self).with_tracing_flipped(),
    {
        if self.tracing_available {
            self.traced_enabled = !self.traced_enabled;
        }
    }
}

/// Cycle order for the colour-mode key, highest fidelity first.
pub open spec fn color_after(current: ColorMode) -> ColorMode {
    match current {
        ColorMode::TrueColor => ColorMode::Ansi256,
        ColorMode::Ansi256 => ColorMode::Ansi16,
        ColorMode::Ansi16 => ColorMode::Grayscale,
        ColorMode::Grayscale => ColorMode::Monochrome,
        ColorMode::Monochrome => ColorMode::TrueColor,
    }
}

/// The colour mode after `current`.
pub fn next_color_mode(current: ColorMode) -> (r: ColorMode)
    ensures
        r == color_after(current),
{
    match current {
        ColorMode::TrueColor => ColorMode::Ansi256,
        ColorMode::Ansi256 => ColorMode::Ansi16,
        ColorMode::Ansi16 => ColorMode::Grayscale,
        ColorMode::Grayscale => ColorMode::Monochrome,
        ColorMode::Monochrome => ColorMode::TrueColor,
    }
}

/// Cycle order for the camera presets.
pub open spec fn mode_after(current: CameraMode) -> CameraMode {
    match current {
        CameraMode::FirstPerson => CameraMode::ThirdPerson,
        CameraMode::ThirdPerson => CameraMode::Orbit,
        CameraMode::Orbit => CameraMode::FirstPerson,
    }
}

/// The preset after `current`: first person, third person, orbit.
pub fn next_mode(current: CameraMode) -> (r: CameraMode)
    ensures
        r == mode_after(current),
{
    match current {
        CameraMode::FirstPerson => CameraMode::ThirdPerson,
        CameraMode::ThirdPerson => CameraMode::Orbit,
        CameraMode::Orbit => CameraMode::FirstPerson,
    }
}

/// How far away the camera of a preset stands, and how high above what it looks
/// at, in tenths; first person has neither.
pub fn preset_offsets(mode: CameraMode) -> (r: Option<(u32, u32)>)
    ensures
        r == match mode {
            CameraMode::FirstPerson => None::<(u32, u32)>,
            CameraMode::ThirdPerson => Some((80u32, 20u32)),
            CameraMode::Orbit => Some((100u32, 0u32)),
        },
{
    match mode {
        CameraMode::FirstPerson => None,
        CameraMode::ThirdPerson => Some((80, 20)),
        CameraMode::Orbit => Some((100, 0)),
    }
}

/// Short label of a colour mode.
pub open spec fn color_label(mode: ColorMode) -> Seq<char> {
    match mode {
        ColorMode::TrueColor => "TRUE"@,
        ColorMode::Ansi256 => "256"@,
        ColorMode::Ansi16 => "16"@,
        ColorMode::Grayscale => "GRAY"@,
        ColorMode::Monochrome => "MONO"@,
    }
}

/// Short label of a colour mode, for the status display.
pub fn color_mode_label(mode: ColorMode) -> (r: &'static str)
    ensures
        r@ == color_label(mode),
{
    match mode {
        ColorMode::TrueColor => "TRUE",
        ColorMode::Ansi256 => "256",
        ColorMode::Ansi16 => "16",
        ColorMode::Grayscale => "GRAY",
        ColorMode::Monochrome => "MONO",
    }
}

/// The name of a colour mode.
pub open spec fn color_name(mode: ColorMode) -> Seq<char> {
    match mode {
        ColorMode::TrueColor => "TrueColor"@,
        ColorMode::Ansi256 => "Ansi256"@,
        ColorMode::Ansi16 => "Ansi16"@,
        ColorMode::Grayscale => "Grayscale"@,
        ColorMode::Monochrome => "Monochrome"@,
    }
}

/// The name of a colour mode, for messages.
pub fn color_mode_name(mode: ColorMode) -> (r: &'static str)
    ensures
        r@ == color_name(mode),
{
    match mode {
        ColorMode::TrueColor => "TrueColor",
        ColorMode::Ansi256 => "Ansi256",
        ColorMode::Ansi16 => "Ansi16",
        ColorMode::Grayscale => "Grayscale",
        ColorMode::Monochrome => "Monochrome",
    }
}

// --- laws --------------------------------------------------------------------

/// The colour modes cycle: five steps visit every mode once and come back.
pub proof fn law_color_modes_cycle(mode: ColorMode, other: ColorMode)
    ensures
        color_after(color_after(color_after(color_after(color_after(mode))))) == mode,
        other == mode || other == color_after(mode) || other == color_after(color_after(mode))
            || other == color_after(color_after(color_after(mode))) || other == color_after(
            color_after(color_after(color_after(mode))),
        ),
{
}

/// The camera presets cycle: three steps visit every preset once and come back.
pub proof fn law_camera_presets_cycle(mode: CameraMode, other: CameraMode)
    ensures
        mode_after(mode_after(mode_after(mode))) == mode,
        other == mode || other == mode_after(mode) || other == mode_after(mode_after(mode)),
{
}

/// Switching one ray feature leaves the others and the budget alone.
pub proof fn law_features_are_independent(s: TraceSettings, a: TraceFeature, b: TraceFeature, on: bool)
    ensures
        s.with_feature(a, on).feature(a) == on,
        a != b ==> s.with_feature(a, on).feature(b) == s.feature(b),
        s.with_feature(a, on).max_depth == s.max_depth,
        s.with_feature(a, on).shadow_samples == s.shadow_samples,
        s.with_feature(a, on).ao_samples == s.ao_samples,
{
}

} // verus!
