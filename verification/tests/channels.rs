use audio_plugins::channels::{grow_channel_values, grow_channels, stereo_channel};

#[test]
fn channels_past_the_first_share_the_right_state() {
    assert_eq!(stereo_channel(0), 0);
    assert_eq!(stereo_channel(1), 1);
    assert_eq!(stereo_channel(2), 1);
    assert_eq!(stereo_channel(usize::MAX), 1);
}

#[test]
fn growing_channel_states_keeps_existing_ones() {
    let mut states = vec![String::from("left"), String::from("right")];
    grow_channels(&mut states, 2, || String::from("new"));
    assert_eq!(states, vec!["left", "right"]);
    grow_channels(&mut states, 4, || String::from("new"));
    assert_eq!(states, vec!["left", "right", "new", "new"]);
    grow_channels(&mut states, 1, || String::from("new"));
    assert_eq!(states.len(), 4);
}

#[test]
fn growing_channel_values_fills_new_ones() {
    let mut envs = vec![0.5_f32];
    grow_channel_values(&mut envs, 3, 0.0);
    assert_eq!(envs, vec![0.5, 0.0, 0.0]);
    grow_channel_values(&mut envs, 2, 9.0);
    assert_eq!(envs, vec![0.5, 0.0, 0.0]);
}
