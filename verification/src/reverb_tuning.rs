use vstd::prelude::*;

verus! {

/// Number of parallel comb filters per channel.
pub const NUM_COMBS: usize = 8;

/// Number of series allpass filters per channel.
pub const NUM_ALLPASSES: usize = 4;

/// Extra comb length, in samples at 44100 Hz, of the right channel, which
/// decorrelates it from the left.
pub const COMB_R_OFFSET: usize = 23;

/// Comb filter lengths of the left channel, in samples at 44100 Hz.
pub open spec fn comb_tuning_l(i: int) -> nat {
    if i == 0 {
        1116
    } else if i == 1 {
        1188
    } else if i == 2 {
        1277
    } else if i == 3 {
        1356
    } else if i == 4 {
        1422
    } else if i == 5 {
        1491
    } else if i == 6 {
        1557
    } else {
        1617
    }
}

/// Allpass filter lengths, in samples at 44100 Hz.
pub open spec fn allpass_tuning(i: int) -> nat {
    if i == 0 {
        556
    } else if i == 1 {
        441
    } else if i == 2 {
        341
    } else {
        225
    }
}

/// Length at 44100 Hz of comb filter `i` of the left or the right channel.
pub open spec fn comb_base_len(i: int, right_channel: bool) -> nat {
    comb_tuning_l(i) + if right_channel {
        COMB_R_OFFSET as nat
    } else {
        0
    }
}

/// Length at 44100 Hz of comb filter `i` of the left or the right channel.
pub fn comb_base_length(i: usize, right_channel: bool) -> (len: usize)
    requires
        i < NUM_COMBS,
    ensures
        len == comb_base_len(i as int, right_channel),
{
    let base: usize = if i == 0 {
        1116
    } else if i == 1 {
        1188
    } else if i == 2 {
        1277
    } else if i == 3 {
        1356
    } else if i == 4 {
        1422
    } else if i == 5 {
        1491
    } else if i == 6 {
        1557
    } else {
        1617
    };
    let offset: usize = if right_channel {
        COMB_R_OFFSET
    } else {
        0
    };
    base + offset
}

/// Length at 44100 Hz of allpass filter `i`.
pub fn allpass_base_length(i: usize) -> (len: usize)
    requires
        i < NUM_ALLPASSES,
    ensures
        len == allpass_tuning(i as int),
{
    if i == 0 {
        556
    } else if i == 1 {
        441
    } else if i == 2 {
        341
    } else {
        225
    }
}

/// The longest comb filter of either channel, in samples at 44100 Hz, from
/// which the length of the reverb tail is reckoned.
pub fn longest_comb_length() -> (len: usize)
    ensures
        len == comb_base_len(7, true),
        forall|i: int, right: bool| 0 <= i < NUM_COMBS ==> comb_base_len(i, right) <= len,
{
    comb_base_length(7, true)
}

/// A filter length scaled to the sample rate, never below one sample so that
/// no filter buffer is empty.
pub fn filter_length(scaled: usize) -> (len: usize)
    ensures
        len == if scaled < 1 {
            1
        } else {
            scaled
        },
        len >= 1,
{
    if scaled < 1 {
        1
    } else {
        scaled
    }
}

} // verus!
