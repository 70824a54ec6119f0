use vstd::prelude::*;

verus! {

/// Recognition quality preset: trades detection resolution against speed.
#[derive(Debug, Clone, Copy, PartialEq, Eq, Hash, Structural)]
pub enum QualityPreset {
    /// Lower detection resolution, favours speed.
    Fast,
    /// Balance between speed and accuracy.
    Balanced,
    /// Higher detection resolution, favours accuracy (the default).
    High,
}

/// Chinese display name of a preset.
pub open spec fn preset_name(p: QualityPreset) -> Seq<char> {
    match p {
        QualityPreset::Fast => "快速"@,
        QualityPreset::Balanced => "均衡"@,
        QualityPreset::High => "高精度"@,
    }
}

impl QualityPreset {
    /// The preset that a fresh configuration uses.
    pub fn default_preset() -> (p: QualityPreset)
        ensures
            p == QualityPreset::High,
    {
        QualityPreset::High
    }

    /// Chinese display name of the preset.
    pub fn display_name(self) -> (name: &'static str)
        ensures
            name@ == preset_name(self),
    {
        match self {
            QualityPreset::Fast => "快速",
            QualityPreset::Balanced => "均衡",
            QualityPreset::High => "高精度",
        }
    }
}

/// Detection input size of the preset (longest side, in pixels).
pub open spec fn preset_long_side(p: QualityPreset) -> u32 {
    match p {
        QualityPreset::Fast => 960,
        QualityPreset::Balanced => 1280,
        QualityPreset::High => 1600,
    }
}

impl QualityPreset {
    /// Longest side of the detection input under this preset.
    pub fn det_long_side(self) -> (side: u32)
        ensures
            side == preset_long_side(self),
    {
        match self {
            QualityPreset::Fast => 960,
            QualityPreset::Balanced => 1280,
            QualityPreset::High => 1600,
        }
    }

    /// Whether the preset detects rotated boxes (only the high-accuracy one).
    pub fn rotated_boxes(self) -> (rotated: bool)
        ensures
            rotated == (self == QualityPreset::High),
    {
        match self {
            QualityPreset::High => true,
            _ => false,
        }
    }
}

/// Longest detection side of a configuration that does not set one.
pub fn default_det_long_side() -> (side: u32)
    ensures
        side == 1600,
{
    1600
}

/// How detection input is resized.
///
/// With `square_pad` the image is scaled and centred on a square canvas of
/// side `target_long_side`; without it the longest side is scaled to
/// `target_long_side` and each side is aligned up to a multiple of 32.
#[derive(Debug, Clone, Copy, PartialEq, Eq, Structural)]
pub struct DetectionResize {
    /// Target longest side, or the side of the square.
    pub target_long_side: u32,
    /// Whether the image is centred on a square canvas.
    pub square_pad: bool,
    /// Whether images smaller than the target are scaled up.
    pub allow_upscale: bool,
}

impl DetectionResize {
    /// Square, centred padding to `size` (may scale up).
    pub fn square(size: u32) -> (r: Self)
        ensures
            r == (DetectionResize { target_long_side: size, square_pad: true, allow_upscale: true }),
    {
        DetectionResize { target_long_side: size, square_pad: true, allow_upscale: true }
    }

    /// Aspect-preserving resize that limits the longest side.
    pub fn limit_side(target_long_side: u32, allow_upscale: bool) -> (r: Self)
        ensures
            r == (DetectionResize { target_long_side, square_pad: false, allow_upscale }),
    {
        DetectionResize { target_long_side, square_pad: false, allow_upscale }
    }
}

/// Shape of the detection boxes.
#[derive(Debug, Clone, Copy, PartialEq, Eq, Structural)]
pub enum DetectionBoxMode {
    /// Axis-aligned bounding rectangles.
    AxisAligned,
    /// Minimum-area rotated rectangles.
    MinAreaRect,
}

impl DetectionBoxMode {
    /// The box mode of a configuration that does or does not ask for rotated boxes.
    pub fn for_rotated(rotated: bool) -> (mode: DetectionBoxMode)
        ensures
            mode == (if rotated { DetectionBoxMode::MinAreaRect } else { DetectionBoxMode::AxisAligned }),
    {
        if rotated {
            DetectionBoxMode::MinAreaRect
        } else {
            DetectionBoxMode::AxisAligned
        }
    }
}

} // verus!
