use wstm::config::{PresetKind, Theme, PRESET_COUNT};

#[test]
fn default_preset_is_aurora() {
    assert_eq!(PresetKind::default(), PresetKind::Aurora);
}

#[test]
fn preset_indices_are_positions() {
    let all = [
        PresetKind::Aurora,
        PresetKind::Plasma,
        PresetKind::Feedback,
        PresetKind::Nebula,
        PresetKind::Vortex,
        PresetKind::Pulse,
        PresetKind::Prism,
    ];
    for (position, kind) in all.iter().enumerate() {
        assert_eq!(kind.index(), position as u32);
        assert!(kind.index() < PRESET_COUNT);
    }
}

#[test]
fn themes_compare_by_variant() {
    assert_eq!(Theme::Aurora, Theme::Aurora);
    assert_ne!(Theme::Dark, Theme::Light);
}
