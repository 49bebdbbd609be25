//! Sample-index logic of a set of guitar effect processors: circular delay
//! lines, tuner note naming and scheduling, reverb filter tunings and the
//! hop bookkeeping of a phase-vocoder pitch shifter.

pub mod ring_buffer;
pub mod tuner;
pub mod reverb_tuning;
pub mod phase_vocoder;
pub mod channels;
