//! Editor-side state and helpers that the library defines: which tab is
//! shown, and the mapping between piano keys, pitches and pans.

use vstd::prelude::*;

verus! {

/// The tabs of the main window.
#[derive(Clone, Copy, Debug, PartialEq, Eq, Structural)]
pub enum Tab {
    Playback,
    SongMap,
    PianoRoll,
    Voices,
    Unit,
    Effects,
    Events,
}

impl Default for Tab {
    fn default() -> (r: Self)
        ensures
            r == Tab::Playback,
    {
        Tab::Playback
    }
}

/// The tabs of a unit's popup.
#[derive(Clone, Copy, Debug, PartialEq, Eq, Structural)]
pub enum UnitPopupTab {
    Unit,
    Voice,
}

/// What the playback tab shows.
pub struct PlaybackUiState {
    pub unit_popup_tab: UnitPopupTab,
}

impl Default for PlaybackUiState {
    fn default() -> (r: Self)
        ensures
            r.unit_popup_tab == UnitPopupTab::Unit,
    {
        PlaybackUiState { unit_popup_tab: UnitPopupTab::Unit }
    }
}

/// The tabs of the effects view.
#[derive(Clone, Copy, Debug, PartialEq, Eq, Structural)]
pub enum EffectsTab {
    Delays,
    Overdrives,
}

/// What the effects tab shows.
pub struct EffectsUiState {
    pub tab: EffectsTab,
}

impl Default for EffectsUiState {
    fn default() -> (r: Self)
        ensures
            r.tab == EffectsTab::Delays,
    {
        EffectsUiState { tab: EffectsTab::Delays }
    }
}

/// Pitch units (1/256 of a semitone) per semitone.
pub const KEY_FACTOR: i32 = 256;

/// The pitch of piano key `key`, counted in semitones.
pub fn piano_key_to_pxtone_key(key: i32) -> (r: i32)
    requires
        i32::MIN <= 256 * key <= i32::MAX,
    ensures
        r == 256 * key,
{
    KEY_FACTOR * key
}

/// Where a key of the piano roll stands in the scale.
#[derive(Clone, Copy, Debug, PartialEq, Eq, Structural)]
pub struct KeyInfo {
    /// Semitones above the lowest key of the roll's range.
    pub semitone: u8,
    /// Position in the scale starting at C (0 is C, 9 is A).
    pub c_scale_idx: u16,
    /// Octave number, in scientific pitch notation.
    pub octave: i16,
}

/// Scale position and octave of the key `key` rows above `lowest_semitone`
/// (semitone 0 is an A).
pub fn key_info(lowest_semitone: u8, key: u8) -> (r: KeyInfo)
    requires
        lowest_semitone + key <= u8::MAX,
    ensures
        r.semitone == lowest_semitone + key,
        r.c_scale_idx == (lowest_semitone + key + 9) % 12,
        r.octave == (lowest_semitone + key + 9) / 12 - 4,
{
    let semitone = lowest_semitone + key;
    let name_offset: u16 = 9;
    let c_scale_idx = (semitone as u16 + name_offset) % 12;
    let octave = ((semitone as i16 + name_offset as i16) / 12) - 4;
    KeyInfo { semitone, c_scale_idx, octave }
}

/// The pan values that PiyoPiyo songs use, each with its pan on a 0..=128
/// scale (0 is left, 64 the middle).
pub open spec fn piyo_pan_table() -> Seq<(i16, u8)> {
    seq![
        (2560i16, 0u8),
        (1600i16, 18u8),
        (760i16, 36u8),
        (320i16, 54u8),
        (0i16, 64u8),
        (-320i16, 74u8),
        (-760i16, 92u8),
        (-1640i16, 128u8),
    ]
}

/// `piyo` is one of the pan values of PiyoPiyo songs.
pub open spec fn is_piyo_pan(piyo: i16) -> bool {
    exists|i: int| 0 <= i < piyo_pan_table().len() && #[trigger] piyo_pan_table()[i].0 == piyo
}

/// The pan (0..=128) of a PiyoPiyo pan value.
pub fn piyo_pan_to_pxtone_pan(piyo: i16) -> (r: u8)
    requires
        is_piyo_pan(piyo),
    ensures
        exists|i: int|
            0 <= i < piyo_pan_table().len() && #[trigger] piyo_pan_table()[i] == (piyo, r),
{
    let table: [(i16, u8); 8] = [
        (2560, 0),
        (1600, 18),
        (760, 36),
        (320, 54),
        (0, 64),
        (-320, 74),
        (-760, 92),
        (-1640, 128),
    ];
    assert(table@ == piyo_pan_table());
    let mut i: usize = 0;
    while i < 8
        invariant
            table@ == piyo_pan_table(),
            i <= 8,
            forall|k: int| 0 <= k < i ==> table@[k].0 != piyo,
        decreases 8 - i,
    {
        if table[i].0 == piyo {
            assert(piyo_pan_table()[i as int] == (piyo, table@[i as int].1));
            return table[i].1;
        }
        i = i + 1;
    }
    assert(false);
    0
}

} // verus!
