//! The user's choices of look: the interface theme and the visual preset.
use vstd::prelude::*;

verus! {

/// The visual themes of the interface.
#[derive(Clone, Copy, Debug, PartialEq, Eq, Structural)]
pub enum Theme {
    Dark,
    Light,
    Aurora,
}

/// The visual presets.
#[derive(Clone, Copy, Debug, PartialEq, Eq, Structural)]
pub enum PresetKind {
    Aurora,
    Plasma,
    Feedback,
    Nebula,
    Vortex,
    Pulse,
    Prism,
}

/// Number of presets.
pub const PRESET_COUNT: u32 = 7;

impl Default for PresetKind {
    /// The preset a fresh configuration starts with: `Aurora`.
    fn default() -> (r: Self)
        ensures
            r == PresetKind::Aurora,
    {
        PresetKind::Aurora
    }
}

/// The position of a preset in the list of presets.
pub open spec fn preset_index_spec(kind: PresetKind) -> u32 {
    match kind {
        PresetKind::Aurora => 0,
        PresetKind::Plasma => 1,
        PresetKind::Feedback => 2,
        PresetKind::Nebula => 3,
        PresetKind::Vortex => 4,
        PresetKind::Pulse => 5,
        PresetKind::Prism => 6,
    }
}

impl PresetKind {
    /// The position of the preset in the list of presets, which the shaders
    /// receive to tell the presets apart.
    pub fn index(&self) -> (r: u32)
        ensures
            r == preset_index_spec(*self),
    {
        match self {
            PresetKind::Aurora => 0,
            PresetKind::Plasma => 1,
            PresetKind::Feedback => 2,
            PresetKind::Nebula => 3,
            PresetKind::Vortex => 4,
            PresetKind::Pulse => 5,
            PresetKind::Prism => 6,
        }
    }
}

/// Each preset has its own position, below the number of presets.
pub proof fn law_preset_index_distinct(a: PresetKind, b: PresetKind)
    ensures
        preset_index_spec(a) < PRESET_COUNT,
        preset_index_spec(a) == preset_index_spec(b) ==> a == b,
{
}

} // verus!
