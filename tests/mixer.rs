use ptcowlage::mixer::{AuxMixer, AuxMsg, KeyCounter, SamplePlayer};

#[test]
fn looping_samples_wrap_every_buffer_length() {
    let mut mixer = AuxMixer::new();
    let mut out = vec![7, 7];
    mixer.render(
        Some(AuxMsg::PlaySamples16 { key: 1, sample_data: vec![100, -100, 100, -100] }),
        &mut out,
    );
    assert_eq!(out, vec![100, -100]);
    assert_eq!(mixer.cursor_of(1), Some(2));
    mixer.render(None, &mut out);
    assert_eq!(out, vec![100, -100]);
    assert_eq!(mixer.cursor_of(1), Some(0));
    mixer.render(None, &mut out);
    assert_eq!(out, vec![100, -100]);
    assert_eq!(mixer.cursor_of(1), Some(2));
    mixer.render(Some(AuxMsg::StopAudio { key: 1 }), &mut out);
    assert_eq!(out, vec![0, 0]);
    assert!(!mixer.is_playing(1));
}

#[test]
fn player_stops_at_buffer_end_within_a_block() {
    let mut mixer = AuxMixer::new();
    let mut out = vec![0; 3];
    mixer.render(Some(AuxMsg::PlaySamples16 { key: 0, sample_data: vec![1, 2, 3, 4] }), &mut out);
    assert_eq!(out, vec![1, 2, 3]);
    mixer.render(None, &mut out);
    assert_eq!(out, vec![4, 0, 0]);
    assert_eq!(mixer.cursor_of(0), Some(0));
}

#[test]
fn players_add_up() {
    let mut mixer = AuxMixer::new();
    let mut out = vec![0; 2];
    mixer.apply(AuxMsg::PlaySamples16 { key: 3, sample_data: vec![10, 20] });
    mixer.apply(AuxMsg::PlaySamples16 { key: 4, sample_data: vec![1, 2] });
    mixer.render(None, &mut out);
    assert_eq!(out, vec![11, 22]);
}

#[test]
fn block_is_silenced_before_mixing() {
    let mut mixer = AuxMixer::new();
    let mut out = vec![i32::MAX - 5];
    // The block is silenced first, so only the samples count.
    mixer.render(Some(AuxMsg::PlaySamples16 { key: 9, sample_data: vec![i16::MAX] }), &mut out);
    assert_eq!(out, vec![32767]);
}

#[test]
fn replacing_samples_keeps_position() {
    let mut mixer = AuxMixer::new();
    let mut out = vec![0; 1];
    mixer.render(Some(AuxMsg::PlaySamples16 { key: 5, sample_data: vec![1, 2, 3] }), &mut out);
    assert_eq!(mixer.cursor_of(5), Some(1));
    mixer.render(Some(AuxMsg::PlaySamples16 { key: 5, sample_data: vec![10, 20, 30] }), &mut out);
    assert_eq!(out, vec![20]);
    assert_eq!(mixer.cursor_of(5), Some(2));
    // A shorter buffer wraps the kept position.
    mixer.apply(AuxMsg::PlaySamples16 { key: 5, sample_data: vec![7, 8] });
    assert_eq!(mixer.cursor_of(5), Some(0));
}

#[test]
fn empty_player_is_skipped() {
    let mut mixer = AuxMixer::new();
    let mut out = vec![0; 2];
    mixer.apply(AuxMsg::PlaySamples16 { key: 1, sample_data: vec![] });
    mixer.apply(AuxMsg::PlaySamples16 { key: 2, sample_data: vec![5, 6] });
    mixer.render(None, &mut out);
    assert_eq!(out, vec![5, 6]);
    assert_eq!(mixer.cursor_of(1), Some(0));
}

#[test]
fn stop_all_clears_every_player() {
    let mut mixer = AuxMixer::new();
    let mut out = vec![0; 2];
    mixer.apply(AuxMsg::PlaySamples16 { key: 1, sample_data: vec![5, 6] });
    mixer.apply(AuxMsg::PlaySamples16 { key: 2, sample_data: vec![5, 6] });
    mixer.render(Some(AuxMsg::StopAll), &mut out);
    assert_eq!(out, vec![0, 0]);
    assert!(!mixer.is_playing(1));
    assert!(!mixer.is_playing(2));
    assert_eq!(mixer.cursor_of(2), None);
}

#[test]
fn new_player_starts_at_zero() {
    let p = SamplePlayer::new(vec![1, 2]);
    assert_eq!(p.cursor, 0);
    assert_eq!(p.samp_data, vec![1, 2]);
}

#[test]
fn keys_are_never_reused() {
    let mut c = KeyCounter::new();
    assert_eq!(c.next_key(), Some(0));
    assert_eq!(c.next_key(), Some(1));
    let mut last = KeyCounter { next: u64::MAX };
    assert_eq!(last.next_key(), None);
}
