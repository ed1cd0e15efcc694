use ptcowlage::event::{Event, EventPayload, UnitIdx, VoiceIdx, DEFAULT_KEY};
use ptcowlage::migrate::CapacityError;
use ptcowlage::split::{first_tick, find_winning_key_ev, key_ev_offsets, next_on, split_unit_events_by_key, KeyEvOffsets};

fn ev(unit: u8, tick: u32, payload: EventPayload) -> Event {
    Event { payload, unit: UnitIdx(unit), tick }
}

fn on(unit: u8, tick: u32, duration: u32) -> Event {
    ev(unit, tick, EventPayload::On { duration })
}

fn song() -> Vec<Event> {
    vec![
        ev(0, 0, EventPayload::SetVoice(VoiceIdx(3))),
        ev(0, 0, EventPayload::Key(64 * 256)),
        on(0, 0, 10),
        ev(0, 10, EventPayload::Key(60 * 256)),
        on(0, 10, 10),
        ev(0, 20, EventPayload::Key(64 * 256)),
        on(0, 20, 10),
    ]
}

#[test]
fn offsets_pair_notes_with_keys() {
    let evs = song();
    assert_eq!(first_tick(&evs, 4), 2);
    assert_eq!(first_tick(&evs, 2), 0);
    assert_eq!(next_on(&evs, 3), Some(4));
    assert_eq!(next_on(&evs, 7), None);
    assert_eq!(find_winning_key_ev(&evs, 4, UnitIdx(0)), Some(3));
    assert_eq!(find_winning_key_ev(&evs, 4, UnitIdx(1)), None);
    assert_eq!(
        key_ev_offsets(&evs, UnitIdx(0)),
        vec![
            KeyEvOffsets { on: 2, key: 1 },
            KeyEvOffsets { on: 4, key: 3 },
            KeyEvOffsets { on: 6, key: 5 },
        ]
    );
}

#[test]
fn split_moves_higher_pitches_to_new_units() {
    let mut evs = song();
    let r = split_unit_events_by_key(&mut evs, 2, UnitIdx(0));
    assert_eq!(r, Ok(vec![60 * 256, 64 * 256]));
    assert_eq!(
        evs,
        vec![
            ev(2, 0, EventPayload::SetVoice(VoiceIdx(3))),
            ev(0, 0, EventPayload::SetVoice(VoiceIdx(3))),
            ev(2, 0, EventPayload::Key(DEFAULT_KEY)),
            on(2, 0, 10),
            ev(0, 10, EventPayload::Key(DEFAULT_KEY)),
            on(0, 10, 10),
            ev(2, 20, EventPayload::Key(DEFAULT_KEY)),
            on(2, 20, 10),
        ]
    );
}

#[test]
fn split_one_pitch_only_resets_keys() {
    let mut evs = vec![ev(1, 0, EventPayload::Key(5000)), on(1, 0, 4)];
    let r = split_unit_events_by_key(&mut evs, 50, UnitIdx(1));
    assert_eq!(r, Ok(vec![5000]));
    assert_eq!(evs, vec![ev(1, 0, EventPayload::Key(DEFAULT_KEY)), on(1, 0, 4)]);
}

#[test]
fn split_without_notes_changes_nothing() {
    let mut evs = vec![on(1, 0, 4), ev(0, 3, EventPayload::Volume(3))];
    let r = split_unit_events_by_key(&mut evs, 2, UnitIdx(0));
    assert_eq!(r, Ok(vec![]));
    assert_eq!(evs, vec![on(1, 0, 4), ev(0, 3, EventPayload::Volume(3))]);
}

#[test]
fn split_past_unit_cap_fails() {
    let mut evs = song();
    let r = split_unit_events_by_key(&mut evs, 50, UnitIdx(0));
    assert_eq!(r, Err(CapacityError::UnitCapReached));
    assert_eq!(evs, song());
}

#[test]
fn split_sorts_by_tick() {
    let mut evs = vec![
        ev(0, 30, EventPayload::Key(200)),
        on(0, 30, 5),
        ev(0, 10, EventPayload::Key(100)),
        on(0, 10, 5),
    ];
    let r = split_unit_events_by_key(&mut evs, 1, UnitIdx(0));
    assert_eq!(r, Ok(vec![100, 200]));
    assert_eq!(
        evs,
        vec![
            ev(1, 0, EventPayload::SetVoice(VoiceIdx(0))),
            ev(0, 10, EventPayload::Key(DEFAULT_KEY)),
            on(0, 10, 5),
            ev(1, 30, EventPayload::Key(DEFAULT_KEY)),
            on(1, 30, 5),
        ]
    );
}
