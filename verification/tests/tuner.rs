use audio_plugins::ring_buffer::RingBuffer;
use audio_plugins::tuner::ANALYSIS_LEN;
use audio_plugins::tuner::{
    analysis_lag_range, detected_note_label, encode_detected_note, midi_to_note_name,
    AnalysisClock, ANALYSIS_INTERVAL, NO_DETECTION,
};

#[test]
fn test_note_names() {
    assert_eq!(midi_to_note_name(69), "A4");
    assert_eq!(midi_to_note_name(40), "E2");
    assert_eq!(midi_to_note_name(64), "E4");
    assert_eq!(midi_to_note_name(60), "C4");
    assert_eq!(midi_to_note_name(45), "A2");
    assert_eq!(midi_to_note_name(50), "D3");
    assert_eq!(midi_to_note_name(55), "G3");
    assert_eq!(midi_to_note_name(59), "B3");
}

#[test]
fn note_names_at_the_edges() {
    assert_eq!(midi_to_note_name(0), "C-1");
    assert_eq!(midi_to_note_name(11), "B-1");
    assert_eq!(midi_to_note_name(12), "C0");
    assert_eq!(midi_to_note_name(127), "G9");
    assert_eq!(midi_to_note_name(-1), "B-1");
    assert_eq!(midi_to_note_name(-13), "B-2");
    assert_eq!(midi_to_note_name(70), "A#4");
    assert_eq!(midi_to_note_name(1200), "C99");
    assert_eq!(midi_to_note_name(i32::MAX), format!("G{}", i32::MAX / 12 - 1));
    assert_eq!(midi_to_note_name(i32::MIN), format!("E{}", i32::MIN / 12 - 1));
}

#[test]
fn notes_an_octave_apart_share_their_name() {
    assert_eq!(midi_to_note_name(57), "A3");
    assert_eq!(midi_to_note_name(69), "A4");
    assert_eq!(midi_to_note_name(81), "A5");
}

#[test]
fn detection_codes() {
    assert_eq!(encode_detected_note(Some(69)), 69);
    assert_eq!(encode_detected_note(Some(-5)), 0);
    assert_eq!(encode_detected_note(Some(300)), 127);
    assert_eq!(encode_detected_note(None), NO_DETECTION);
    assert_eq!(detected_note_label(NO_DETECTION), "--");
    assert_eq!(detected_note_label(encode_detected_note(Some(40))), "E2");
    assert_eq!(detected_note_label(encode_detected_note(Some(1000))), "G9");
}

#[test]
fn lag_range_is_capped_and_rejects_narrow_ranges() {
    // 44100 Hz: shortest lag 36, longest 1764
    assert_eq!(analysis_lag_range(36, 1764), Some((36, 1764)));
    // a very high sample rate: the longest lag is capped at 2047
    assert_eq!(analysis_lag_range(160, 7680), Some((160, 2047)));
    // too few lags
    assert_eq!(analysis_lag_range(10, 11), None);
    assert_eq!(analysis_lag_range(10, 12), Some((10, 12)));
    assert_eq!(analysis_lag_range(3000, 5000), None);
    assert_eq!(analysis_lag_range(usize::MAX, usize::MAX), None);
}

#[test]
fn analysis_runs_once_every_interval() {
    let mut clock = AnalysisClock::new();
    let mut due_at = Vec::new();
    for k in 1..=(3 * ANALYSIS_INTERVAL) {
        if clock.tick() {
            due_at.push(k);
        }
    }
    assert_eq!(due_at, vec![512, 1024, 1536]);
    for _ in 0..100 {
        clock.tick();
    }
    assert_eq!(clock.samples_since_analysis(), 100);
    clock.reset();
    assert_eq!(clock.samples_since_analysis(), 0);
}

#[test]
fn analysis_window_is_the_last_samples_oldest_first() {
    let mut window: RingBuffer<f32> = RingBuffer::new(ANALYSIS_LEN, 0.0);
    for i in 0..(ANALYSIS_LEN + 10) {
        window.write_advance(i as f32);
    }
    let snapshot = window.to_vec();
    assert_eq!(snapshot.len(), ANALYSIS_LEN);
    assert_eq!(snapshot[0], 10.0);
    assert_eq!(snapshot[ANALYSIS_LEN - 1], (ANALYSIS_LEN + 9) as f32);
}
