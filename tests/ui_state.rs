use ptcowlage::ui_state::{
    key_info, piano_key_to_pxtone_key, piyo_pan_to_pxtone_pan, EffectsTab, EffectsUiState,
    KeyInfo, PlaybackUiState, Tab, UnitPopupTab,
};

#[test]
fn defaults() {
    assert_eq!(Tab::default(), Tab::Playback);
    assert_eq!(PlaybackUiState::default().unit_popup_tab, UnitPopupTab::Unit);
    assert_eq!(EffectsUiState::default().tab, EffectsTab::Delays);
}

#[test]
fn piano_keys_to_pitch() {
    assert_eq!(piano_key_to_pxtone_key(96), 24576);
    assert_eq!(piano_key_to_pxtone_key(-1), -256);
}

#[test]
fn key_positions() {
    assert_eq!(key_info(0, 0), KeyInfo { semitone: 0, c_scale_idx: 9, octave: -4 });
    assert_eq!(key_info(3, 0), KeyInfo { semitone: 3, c_scale_idx: 0, octave: -3 });
    assert_eq!(key_info(40, 8), KeyInfo { semitone: 48, c_scale_idx: 9, octave: 0 });
}

#[test]
fn piyo_pans() {
    assert_eq!(piyo_pan_to_pxtone_pan(0), 64);
    assert_eq!(piyo_pan_to_pxtone_pan(2560), 0);
    assert_eq!(piyo_pan_to_pxtone_pan(-1640), 128);
}
