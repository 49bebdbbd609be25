use audio_plugins::reverb_tuning::{
    allpass_base_length, comb_base_length, filter_length, longest_comb_length, COMB_R_OFFSET,
    NUM_ALLPASSES, NUM_COMBS,
};

#[test]
fn comb_lengths_of_both_channels() {
    let left: Vec<usize> = (0..NUM_COMBS).map(|i| comb_base_length(i, false)).collect();
    assert_eq!(left, vec![1116, 1188, 1277, 1356, 1422, 1491, 1557, 1617]);
    for i in 0..NUM_COMBS {
        assert_eq!(comb_base_length(i, true), comb_base_length(i, false) + COMB_R_OFFSET);
    }
}

#[test]
fn allpass_lengths() {
    let lens: Vec<usize> = (0..NUM_ALLPASSES).map(allpass_base_length).collect();
    assert_eq!(lens, vec![556, 441, 341, 225]);
}

#[test]
fn longest_comb_sets_the_tail() {
    assert_eq!(longest_comb_length(), 1640);
}

#[test]
fn filter_lengths_are_never_empty() {
    assert_eq!(filter_length(0), 1);
    assert_eq!(filter_length(1), 1);
    assert_eq!(filter_length(1215), 1215);
    // 1116 at 48000 Hz
    let scaled = (1116.0_f32 * 48000.0 / 44100.0).round() as usize;
    assert_eq!(filter_length(scaled), 1215);
}
