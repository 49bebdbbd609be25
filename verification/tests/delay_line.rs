use audio_plugins::ring_buffer::RingBuffer;

/// One sample of a feedback delay: read the delayed sample, write the input plus
/// the fed-back delayed sample, and blend dry and delayed signal.
fn delay_process(line: &mut RingBuffer<f32>, input: f32, delay_samples: usize, feedback: f32, mix: f32) -> f32 {
    let delayed = line.read_delayed(delay_samples);
    line.write_advance(input + delayed * feedback);
    input * (1.0 - mix) + delayed * mix
}

fn make_delay(sample_rate: f32) -> RingBuffer<f32> {
    RingBuffer::new((sample_rate * 2.0) as usize, 0.0)
}

#[test]
fn test_output_delayed_by_correct_samples() {
    let mut d = make_delay(44100.0);
    let delay_samples = 10_usize;
    let pulse = 1.0_f32;

    let out0 = delay_process(&mut d, pulse, delay_samples, 0.0, 1.0);
    assert_eq!(out0, 0.0, "no delayed signal yet at t=0");

    for i in 1..delay_samples {
        let out = delay_process(&mut d, 0.0, delay_samples, 0.0, 1.0);
        assert_eq!(out, 0.0, "still no delayed signal at t={}", i);
    }

    let out_delayed = delay_process(&mut d, 0.0, delay_samples, 0.0, 1.0);
    assert!(
        (out_delayed - pulse).abs() < 1e-5,
        "pulse should appear after {} samples, got {}",
        delay_samples,
        out_delayed
    );
}

#[test]
fn test_dry_signal_passthrough() {
    let mut d = make_delay(44100.0);
    let input = 0.5_f32;
    let out = delay_process(&mut d, input, 100, 0.0, 0.0);
    assert!((out - input).abs() < 1e-6, "mix=0 should pass dry signal");
}

#[test]
fn test_wet_only() {
    let mut d = make_delay(44100.0);
    let delay_samples = 5_usize;
    let out_first = delay_process(&mut d, 1.0, delay_samples, 0.0, 1.0);
    assert_eq!(out_first, 0.0, "wet-only: first output should be silent");

    for _ in 1..delay_samples {
        delay_process(&mut d, 0.0, delay_samples, 0.0, 1.0);
    }
    let out_at_delay = delay_process(&mut d, 0.0, delay_samples, 0.0, 1.0);
    assert!(
        (out_at_delay - 1.0).abs() < 1e-5,
        "wet-only: pulse should appear at delay time"
    );
}

#[test]
fn test_feedback_causes_repetition() {
    let mut d = make_delay(44100.0);
    let delay_samples = 5_usize;
    let feedback = 0.5_f32;

    delay_process(&mut d, 1.0, delay_samples, feedback, 1.0);
    for _ in 1..delay_samples {
        delay_process(&mut d, 0.0, delay_samples, feedback, 1.0);
    }
    let echo1 = delay_process(&mut d, 0.0, delay_samples, feedback, 1.0);
    assert!(echo1 > 0.0, "first echo should be non-zero");

    for _ in 1..delay_samples {
        delay_process(&mut d, 0.0, delay_samples, feedback, 1.0);
    }
    let echo2 = delay_process(&mut d, 0.0, delay_samples, feedback, 1.0);
    assert!(echo2 > 0.0, "second echo (feedback) should be non-zero");
    assert!(echo2 < echo1, "second echo should be quieter due to feedback < 1");
}

#[test]
fn test_zero_feedback_no_repetition() {
    let mut d = make_delay(44100.0);
    let delay_samples = 5_usize;

    delay_process(&mut d, 1.0, delay_samples, 0.0, 1.0);
    for _ in 1..delay_samples {
        delay_process(&mut d, 0.0, delay_samples, 0.0, 1.0);
    }
    let echo1 = delay_process(&mut d, 0.0, delay_samples, 0.0, 1.0);
    assert!(echo1 > 0.0, "first echo still appears");

    for _ in 1..delay_samples {
        delay_process(&mut d, 0.0, delay_samples, 0.0, 1.0);
    }
    let echo2 = delay_process(&mut d, 0.0, delay_samples, 0.0, 1.0);
    assert_eq!(echo2, 0.0, "no second echo when feedback=0");
}

#[test]
fn delayed_sample_reappears_at_its_delay() {
    let mut line: RingBuffer<u32> = RingBuffer::new(8, 0);
    line.write_advance(42);
    for v in 1..3u32 {
        line.write_advance(v);
    }
    assert_eq!(line.read_delayed(3), 42);
    assert_eq!(line.read_delayed(1), 2);
    assert_eq!(line.read_delayed(2), 1);
}

#[test]
fn delay_is_clamped_to_length_minus_one() {
    let mut line: RingBuffer<u32> = RingBuffer::new(4, 0);
    for v in 1..=6u32 {
        line.write_advance(v);
    }
    // history oldest first: 3, 4, 5, 6
    assert_eq!(line.to_vec(), vec![3, 4, 5, 6]);
    assert_eq!(line.read_delayed(3), 4);
    assert_eq!(line.read_delayed(100), 4);
    assert_eq!(line.read_delayed(0), 3);
    assert_eq!(line.read_oldest(), 3);
}

#[test]
fn single_slot_line_always_reads_its_one_sample() {
    let mut line: RingBuffer<u32> = RingBuffer::new(1, 0);
    line.write_advance(9);
    assert_eq!(line.read_delayed(0), 9);
    assert_eq!(line.read_delayed(1), 9);
    assert_eq!(line.read_delayed(7), 9);
    assert_eq!(line.write_pos(), 0);
}

#[test]
fn oldest_sample_was_written_length_samples_ago() {
    let mut line: RingBuffer<i32> = RingBuffer::new(5, 0);
    line.write_advance(-7);
    for v in 0..4 {
        line.write_advance(v);
    }
    assert_eq!(line.read_oldest(), -7);
    line.write_advance(100);
    assert_eq!(line.read_oldest(), 0);
}

#[test]
fn full_refill_replaces_history() {
    let mut line: RingBuffer<u8> = RingBuffer::new(4, 1);
    line.write_advance(50);
    let fresh = [10u8, 20, 30, 40];
    for v in fresh {
        line.write_advance(v);
    }
    assert_eq!(line.to_vec(), vec![10, 20, 30, 40]);
}

#[test]
fn reset_silences_every_delay() {
    let mut line: RingBuffer<i32> = RingBuffer::new(6, 0);
    for v in 1..10 {
        line.write_advance(v);
    }
    line.reset(0);
    assert_eq!(line.write_pos(), 0);
    for d in 0..8 {
        assert_eq!(line.read_delayed(d), 0);
    }
}

#[test]
fn write_position_wraps_around() {
    let mut line: RingBuffer<u16> = RingBuffer::new(3, 0);
    assert_eq!(line.write_pos(), 0);
    line.write_advance(1);
    line.write_advance(2);
    assert_eq!(line.write_pos(), 2);
    line.write_advance(3);
    assert_eq!(line.write_pos(), 0);
    assert_eq!(line.len(), 3);
    assert!(!line.is_empty());
}

#[test]
fn resize_rewind_keeps_leading_slots_and_restarts() {
    let mut line: RingBuffer<u32> = RingBuffer::new(3, 0);
    line.write_advance(1);
    line.write_advance(2);
    line.resize_rewind(5, 9);
    assert_eq!(line.len(), 5);
    assert_eq!(line.write_pos(), 0);
    assert_eq!(line.to_vec(), vec![1, 2, 0, 9, 9]);
    line.resize_rewind(2, 9);
    assert_eq!(line.to_vec(), vec![1, 2]);
}

#[test]
fn resize_clamp_keeps_position_where_it_fits() {
    let mut line: RingBuffer<u32> = RingBuffer::new(6, 0);
    for v in 1..=4u32 {
        line.write_advance(v);
    }
    assert_eq!(line.write_pos(), 4);
    line.resize_clamp(10, 0);
    assert_eq!(line.write_pos(), 4);
    line.resize_clamp(3, 0);
    assert_eq!(line.write_pos(), 2);
    assert_eq!(line.len(), 3);
    line.resize_clamp(0, 0);
    assert_eq!(line.write_pos(), 0);
    assert!(line.is_empty());
}
