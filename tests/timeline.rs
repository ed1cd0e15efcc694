use ptcowlage::cleanup::clean_losing_events;
use ptcowlage::event::{ev_discr_name, Event, EventPayload, GroupIdx, PanTime, UnitIdx, VoiceIdx};
use ptcowlage::expansion::domain_expansion;
use ptcowlage::migrate::{auto_migrate, overlap, poly_migrate_single, poly_migrate_units, CapacityError};

fn ev(unit: u8, tick: u32, payload: EventPayload) -> Event {
    Event { payload, unit: UnitIdx(unit), tick }
}

fn on(unit: u8, tick: u32, duration: u32) -> Event {
    ev(unit, tick, EventPayload::On { duration })
}

#[test]
fn clean_keeps_last_of_adjacent_rivals() {
    let mut evs = vec![
        ev(0, 0, EventPayload::Velocity(10)),
        ev(0, 0, EventPayload::Velocity(20)),
        ev(0, 0, EventPayload::Velocity(30)),
        ev(1, 0, EventPayload::Velocity(40)),
        ev(0, 5, EventPayload::Velocity(50)),
    ];
    clean_losing_events(&mut evs);
    assert_eq!(
        evs,
        vec![
            ev(0, 0, EventPayload::Velocity(30)),
            ev(1, 0, EventPayload::Velocity(40)),
            ev(0, 5, EventPayload::Velocity(50)),
        ]
    );
}

#[test]
fn clean_is_idempotent() {
    let mut evs = vec![
        ev(0, 0, EventPayload::Key(1)),
        ev(0, 0, EventPayload::Key(2)),
        ev(0, 0, EventPayload::Volume(3)),
        ev(0, 0, EventPayload::Volume(4)),
        ev(0, 0, EventPayload::Key(5)),
    ];
    clean_losing_events(&mut evs);
    let once = evs.clone();
    clean_losing_events(&mut evs);
    assert_eq!(evs, once);
    assert_eq!(
        once,
        vec![
            ev(0, 0, EventPayload::Key(2)),
            ev(0, 0, EventPayload::Volume(4)),
            ev(0, 0, EventPayload::Key(5)),
        ]
    );
}

#[test]
fn clean_one_event_per_slot_when_grouped() {
    let mut evs = vec![
        ev(2, 7, EventPayload::SetVoice(VoiceIdx(1))),
        ev(2, 7, EventPayload::SetVoice(VoiceIdx(2))),
        ev(2, 7, EventPayload::SetGroup(GroupIdx(1))),
        ev(2, 7, EventPayload::PanTime(PanTime(3))),
        ev(2, 7, EventPayload::PanTime(PanTime(4))),
    ];
    clean_losing_events(&mut evs);
    assert_eq!(
        evs,
        vec![
            ev(2, 7, EventPayload::SetVoice(VoiceIdx(2))),
            ev(2, 7, EventPayload::SetGroup(GroupIdx(1))),
            ev(2, 7, EventPayload::PanTime(PanTime(4))),
        ]
    );
}

#[test]
fn clean_empty_timeline() {
    let mut evs: Vec<Event> = Vec::new();
    clean_losing_events(&mut evs);
    assert!(evs.is_empty());
}

#[test]
fn expansion_with_true_predicates_takes_all() {
    let data = [5, 6, 7, 8, 9];
    let mut got = domain_expansion(&data, 2, |_: &i32| true, |_: &i32| true);
    assert_eq!(got[0], 2);
    got.sort();
    assert_eq!(got, vec![0, 1, 2, 3, 4]);
}

#[test]
fn expansion_always_holds_center() {
    let data = [1, 2, 3];
    let got = domain_expansion(&data, 1, |_: &i32| false, |_: &i32| false);
    assert_eq!(got, vec![1]);
}

#[test]
fn expansion_stops_at_continue_failure_only() {
    // Events of one tick around index 3; collect the key events of unit 0.
    let evs = vec![
        ev(0, 0, EventPayload::Key(1)),
        ev(0, 10, EventPayload::Key(2)),
        ev(1, 10, EventPayload::Key(3)),
        on(0, 10, 5),
        ev(0, 10, EventPayload::Velocity(4)),
        ev(0, 10, EventPayload::Key(5)),
        ev(0, 20, EventPayload::Key(6)),
    ];
    let target = evs[3];
    let got = domain_expansion(
        &evs,
        3,
        |e: &Event| e.tick == target.tick,
        |e: &Event| e.unit == target.unit && matches!(e.payload, EventPayload::Key(_)),
    );
    assert_eq!(got, vec![3, 1, 5]);
}

#[test]
fn expansion_at_last_index() {
    let data = [1, 1, 1];
    let got = domain_expansion(&data, 2, |x: &i32| *x == 1, |_: &i32| true);
    assert_eq!(got, vec![2, 1, 0]);
}

#[test]
fn overlap_of_ranges() {
    assert!(overlap(0..10, 5..15));
    assert!(!overlap(0..5, 5..10));
    assert!(!overlap(0..5, 10..15));
}

#[test]
fn migrate_overlapping_note() {
    let mut evs = vec![on(0, 0, 10), on(0, 5, 10)];
    assert!(poly_migrate_units(UnitIdx(0), UnitIdx(1), &mut evs));
    assert_eq!(evs, vec![on(0, 0, 10), on(1, 5, 10)]);
}

#[test]
fn migrate_without_overlap_changes_nothing() {
    let mut evs = vec![on(0, 0, 5), on(0, 10, 5)];
    assert!(!poly_migrate_units(UnitIdx(0), UnitIdx(1), &mut evs));
    assert_eq!(evs, vec![on(0, 0, 5), on(0, 10, 5)]);
}

#[test]
fn migrate_takes_setup_events_along() {
    let mut evs = vec![
        ev(0, 0, EventPayload::Key(100)),
        on(0, 0, 10),
        ev(0, 4, EventPayload::Velocity(1)),
        ev(0, 5, EventPayload::Key(200)),
        ev(0, 5, EventPayload::Volume(2)),
        ev(0, 5, EventPayload::PanVol(3)),
        on(0, 5, 10),
    ];
    assert!(poly_migrate_units(UnitIdx(0), UnitIdx(3), &mut evs));
    assert_eq!(
        evs,
        vec![
            ev(0, 0, EventPayload::Key(100)),
            on(0, 0, 10),
            ev(0, 4, EventPayload::Velocity(1)),
            ev(3, 5, EventPayload::Key(200)),
            ev(3, 5, EventPayload::Volume(2)),
            ev(0, 5, EventPayload::PanVol(3)),
            on(3, 5, 10),
        ]
    );
}

#[test]
fn migrated_note_is_no_earlier_note() {
    // The third note overlaps only the second, which moves away first.
    let mut evs = vec![on(0, 0, 10), on(0, 5, 10), on(0, 12, 2)];
    assert!(poly_migrate_units(UnitIdx(0), UnitIdx(1), &mut evs));
    assert_eq!(evs, vec![on(0, 0, 10), on(1, 5, 10), on(0, 12, 2)]);
}

#[test]
fn migrate_single_copies_shared_settings() {
    let mut evs = vec![
        ev(0, 0, EventPayload::SetVoice(VoiceIdx(4))),
        on(0, 0, 10),
        on(0, 5, 10),
    ];
    let r = poly_migrate_single(&mut evs, 1, UnitIdx(0));
    assert_eq!(r, Ok(Some(UnitIdx(1))));
    assert_eq!(
        evs,
        vec![
            ev(0, 0, EventPayload::SetVoice(VoiceIdx(4))),
            ev(1, 0, EventPayload::SetVoice(VoiceIdx(4))),
            on(0, 0, 10),
            on(1, 5, 10),
        ]
    );
}

#[test]
fn migrate_single_without_overlap() {
    let mut evs = vec![on(0, 0, 5), on(0, 10, 5)];
    assert_eq!(poly_migrate_single(&mut evs, 1, UnitIdx(0)), Ok(None));
    assert_eq!(evs, vec![on(0, 0, 5), on(0, 10, 5)]);
}

#[test]
fn migrate_single_at_unit_cap() {
    let mut evs = vec![on(0, 0, 10), on(0, 5, 10)];
    let r = poly_migrate_single(&mut evs, 50, UnitIdx(0));
    assert_eq!(r, Err(CapacityError::UnitCapReached));
    assert_eq!(evs, vec![on(0, 0, 10), on(0, 5, 10)]);
    assert_eq!(CapacityError::UnitCapReached.message(), "Error: Cannot create more units than 50");
}

#[test]
fn auto_migrate_stops_at_unit_cap() {
    let mut evs: Vec<Event> = (0..60).map(|_| on(0, 0, 10)).collect();
    let r = auto_migrate(&mut evs, &vec![false]);
    assert!(r.cap_reached);
    assert_eq!(r.created_from.len(), 49);
    for (k, from) in r.created_from.iter().enumerate() {
        assert_eq!(from.0 as usize, k);
    }
    assert!(evs.iter().all(|e| (e.unit.0 as usize) < 50));
    assert_eq!(evs.iter().filter(|e| e.unit.0 == 49).count(), 11);
}

#[test]
fn auto_migrate_chains_new_units() {
    let mut evs = vec![
        ev(0, 0, EventPayload::SetVoice(VoiceIdx(2))),
        on(0, 0, 10),
        on(0, 2, 10),
        on(0, 4, 10),
        on(1, 0, 10),
    ];
    let r = auto_migrate(&mut evs, &vec![false, true]);
    assert!(!r.cap_reached);
    assert_eq!(r.created_from, vec![UnitIdx(0), UnitIdx(2)]);
    assert_eq!(
        evs,
        vec![
            ev(0, 0, EventPayload::SetVoice(VoiceIdx(2))),
            ev(2, 0, EventPayload::SetVoice(VoiceIdx(2))),
            ev(3, 0, EventPayload::SetVoice(VoiceIdx(2))),
            on(0, 0, 10),
            on(2, 2, 10),
            on(3, 4, 10),
            on(1, 0, 10),
        ]
    );
}

#[test]
fn auto_migrate_skips_muted_units() {
    let mut evs = vec![on(0, 0, 10), on(0, 5, 10)];
    let r = auto_migrate(&mut evs, &vec![true]);
    assert!(r.created_from.is_empty());
    assert!(!r.cap_reached);
    assert_eq!(evs, vec![on(0, 0, 10), on(0, 5, 10)]);
}

#[test]
fn payload_kind_names() {
    assert_eq!(EventPayload::On { duration: 3 }.kind(), 1);
    assert_eq!(EventPayload::PtcowDebug(0).kind(), 16);
    assert_eq!(ev_discr_name(1), "On");
    assert_eq!(ev_discr_name(12), "VoiceNo");
    assert_eq!(ev_discr_name(200), "Unknown");
}
