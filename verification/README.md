# audio_plugins

Guitar effects (delay, reverb, tuner, pitch shifter, noise gate, overdrive,
presence EQ) whose integer and sample-index logic is verified.

- `src/` is the Verus library: the circular delay line shared by the delay,
  the reverb filters and the tuner (`ring_buffer`); the tuner's note naming,
  note codes, lag range and analysis schedule (`tuner`); the reverb filter
  tunings (`reverb_tuning`); the input FIFO / overlap-add bookkeeping, its
  latency and the phase unwrapping of the pitch shifter (`phase_vocoder`);
  and the per-channel state bookkeeping of the effects' loops (`channels`).
- `app/` holds the floating-point signal processing of every effect, built
  on the library. The noise gate, overdrive and presence EQ are floating
  point throughout; of them only the channel bookkeeping is verified. `app/`
  is ordinary Rust and uses `realfft`/`rustfft` for the pitch shifter, which
  is why they are dependencies of the package.
- `tests/` exercises the library.
