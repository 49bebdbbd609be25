use vstd::prelude::*;
use vstd::arithmetic::div_mod::lemma_fundamental_div_mod_converse;
use vstd::string::StringExecFns;

verus! {

/// Number of samples the pitch detector analyses at a time.
pub const ANALYSIS_LEN: usize = 4096;

/// Number of samples between two analyses.
pub const ANALYSIS_INTERVAL: usize = 512;

/// The detected-note code meaning that no pitch was detected.
pub const NO_DETECTION: u8 = 255;

/// The decimal digit `d`, `0 <= d < 10`, as a character.
pub open spec fn digit_char(d: int) -> char {
    if d == 0 {
        '0'
    } else if d == 1 {
        '1'
    } else if d == 2 {
        '2'
    } else if d == 3 {
        '3'
    } else if d == 4 {
        '4'
    } else if d == 5 {
        '5'
    } else if d == 6 {
        '6'
    } else if d == 7 {
        '7'
    } else if d == 8 {
        '8'
    } else {
        '9'
    }
}

/// The decimal digits of `n`, most significant first, without leading zeros.
pub open spec fn decimal_digits(n: nat) -> Seq<char>
    decreases n,
{
    if n < 10 {
        seq![digit_char(n as int)]
    } else {
        decimal_digits(n / 10).push(digit_char((n % 10) as int))
    }
}

/// `n` written in decimal, with a leading minus sign when negative.
pub open spec fn decimal(n: int) -> Seq<char> {
    if n < 0 {
        seq!['-'] + decimal_digits((-n) as nat)
    } else {
        decimal_digits(n as nat)
    }
}

/// Division rounding towards zero, as Rust's `/` on signed integers does.
pub open spec fn trunc_div(a: int, b: int) -> int
    recommends
        b > 0,
{
    if a >= 0 {
        a / b
    } else {
        -((-a) / b)
    }
}

/// The name of the pitch class `pc`, `0 <= pc < 12`, counted from C in sharps.
pub open spec fn pitch_class_name(pc: int) -> Seq<char> {
    if pc == 0 {
        seq!['C']
    } else if pc == 1 {
        seq!['C', '#']
    } else if pc == 2 {
        seq!['D']
    } else if pc == 3 {
        seq!['D', '#']
    } else if pc == 4 {
        seq!['E']
    } else if pc == 5 {
        seq!['F']
    } else if pc == 6 {
        seq!['F', '#']
    } else if pc == 7 {
        seq!['G']
    } else if pc == 8 {
        seq!['G', '#']
    } else if pc == 9 {
        seq!['A']
    } else if pc == 10 {
        seq!['A', '#']
    } else {
        seq!['B']
    }
}

/// The scientific-pitch name of MIDI note `midi`: its pitch class (`midi`
/// modulo 12, counted from C) followed by its octave, where note 60 is C4.
/// The octave is `midi / 12 - 1` with the division rounding towards zero.
pub open spec fn note_name(midi: int) -> Seq<char> {
    pitch_class_name(midi % 12) + decimal(trunc_div(midi, 12) - 1)
}

fn digit_str(d: u32) -> (s: &'static str)
    requires
        d < 10,
    ensures
        s@ == seq![digit_char(d as int)],
{
    proof {
        reveal_strlit("0");
        reveal_strlit("1");
        reveal_strlit("2");
        reveal_strlit("3");
        reveal_strlit("4");
        reveal_strlit("5");
        reveal_strlit("6");
        reveal_strlit("7");
        reveal_strlit("8");
        reveal_strlit("9");
    }
    if d == 0 {
        "0"
    } else if d == 1 {
        "1"
    } else if d == 2 {
        "2"
    } else if d == 3 {
        "3"
    } else if d == 4 {
        "4"
    } else if d == 5 {
        "5"
    } else if d == 6 {
        "6"
    } else if d == 7 {
        "7"
    } else if d == 8 {
        "8"
    } else {
        "9"
    }
}

fn append_decimal_digits(s: &mut String, n: u32)
    ensures
        final(s)@ == old(s)@ + decimal_digits(n as nat),
    decreases n,
{
    if n >= 10 {
        append_decimal_digits(s, n / 10);
    }
    s.append(digit_str(n % 10));
    proof {
        if n >= 10 {
            assert(decimal_digits(n as nat) == decimal_digits((n / 10) as nat).push(
                digit_char((n % 10) as int),
            ));
        }
    }
    assert(s@ =~= old(s)@ + decimal_digits(n as nat));
}

fn pitch_class_str(pc: usize) -> (s: &'static str)
    requires
        pc < 12,
    ensures
        s@ == pitch_class_name(pc as int),
{
    proof {
        reveal_strlit("C");
        reveal_strlit("C#");
        reveal_strlit("D");
        reveal_strlit("D#");
        reveal_strlit("E");
        reveal_strlit("F");
        reveal_strlit("F#");
        reveal_strlit("G");
        reveal_strlit("G#");
        reveal_strlit("A");
        reveal_strlit("A#");
        reveal_strlit("B");
    }
    if pc == 0 {
        "C"
    } else if pc == 1 {
        "C#"
    } else if pc == 2 {
        "D"
    } else if pc == 3 {
        "D#"
    } else if pc == 4 {
        "E"
    } else if pc == 5 {
        "F"
    } else if pc == 6 {
        "F#"
    } else if pc == 7 {
        "G"
    } else if pc == 8 {
        "G#"
    } else if pc == 9 {
        "A"
    } else if pc == 10 {
        "A#"
    } else {
        "B"
    }
}

/// The note name of MIDI note `midi`, such as "A4" for 69 and "E2" for 40.
pub fn midi_to_note_name(midi: i32) -> (name: String)
    ensures
        name@ == note_name(midi as int),
{
    let quotient: i32 = midi / 12;
    let remainder: i32 = midi % 12;
    let octave: i32 = quotient - 1;
    let pc: usize = (remainder + 12) as usize % 12;
    proof {
        let r = remainder as int;
        let q = quotient as int;
        let m = midi as int;
        assert(m == 12 * q + r);
        assert(-12 < r < 12);
        assert(m < 0 ==> r <= 0);
        assert(m >= 0 ==> r >= 0);
        if m >= 0 {
            lemma_fundamental_div_mod_converse(m, 12, q, r);
        } else if r == 0 {
            lemma_fundamental_div_mod_converse(m, 12, q, 0);
            lemma_fundamental_div_mod_converse(-m, 12, -q, 0);
        } else {
            assert(m == (q - 1) * 12 + (r + 12));
            lemma_fundamental_div_mod_converse(m, 12, q - 1, r + 12);
            lemma_fundamental_div_mod_converse(-m, 12, -q, -r);
        }
        assert(pc as int == m % 12);
        assert(octave as int == trunc_div(m, 12) - 1);
    }
    let mut name = String::from_str(pitch_class_str(pc));
    if octave < 0 {
        proof {
            reveal_strlit("-");
        }
        name.append("-");
        let magnitude: u32 = (-(octave as i64)) as u32;
        append_decimal_digits(&mut name, magnitude);
    } else {
        append_decimal_digits(&mut name, octave as u32);
    }
    assert(name@ =~= note_name(midi as int));
    name
}

/// The code under which a detection is shared with the display: the MIDI note
/// clamped to `0..=127`, or `NO_DETECTION` when nothing was detected.
pub open spec fn note_code(detection: Option<i32>) -> u8 {
    match detection {
        Some(m) => if m < 0 {
            0u8
        } else if m > 127 {
            127u8
        } else {
            m as u8
        },
        None => NO_DETECTION,
    }
}

/// Encodes the outcome of an analysis for the display.
pub fn encode_detected_note(detection: Option<i32>) -> (code: u8)
    ensures
        code == note_code(detection),
{
    match detection {
        Some(m) => {
            let clamped: i32 = if m < 0 {
                0
            } else if m > 127 {
                127
            } else {
                m
            };
            clamped as u8
        },
        None => NO_DETECTION,
    }
}

/// The text the display shows for a note code: "--" when nothing was detected,
/// and otherwise the note's name.
pub open spec fn note_label(code: u8) -> Seq<char> {
    if code == NO_DETECTION {
        seq!['-', '-']
    } else {
        note_name(code as int)
    }
}

/// The text the display shows for a note code.
pub fn detected_note_label(code: u8) -> (label: String)
    ensures
        label@ == note_label(code),
{
    if code == NO_DETECTION {
        proof {
            reveal_strlit("--");
        }
        String::from_str("--")
    } else {
        midi_to_note_name(code as i32)
    }
}

/// The range of autocorrelation lags searched for a period, or `None` when it
/// holds fewer than three lags. `min_lag` is the shortest lag; the longest is
/// `max_lag_unclamped`, capped at half the analysis window minus one.
pub open spec fn lag_range(min_lag: nat, max_lag_unclamped: nat) -> Option<(nat, nat)> {
    let cap = (ANALYSIS_LEN / 2 - 1) as nat;
    let max_lag = if max_lag_unclamped < cap {
        max_lag_unclamped
    } else {
        cap
    };
    if min_lag + 1 >= max_lag {
        None
    } else {
        Some((min_lag, max_lag))
    }
}

/// Computes the range of lags to search, see `lag_range`.
pub fn analysis_lag_range(min_lag: usize, max_lag_unclamped: usize) -> (r: Option<(usize, usize)>)
    ensures
        r matches Some((lo, hi)) ==> lag_range(min_lag as nat, max_lag_unclamped as nat) == Some(
            (lo as nat, hi as nat),
        ),
        r is None <==> lag_range(min_lag as nat, max_lag_unclamped as nat) is None,
        r matches Some((lo, hi)) ==> {
            &&& lo == min_lag
            &&& hi <= ANALYSIS_LEN / 2 - 1
            &&& hi <= max_lag_unclamped
            &&& (hi == max_lag_unclamped || hi == ANALYSIS_LEN / 2 - 1)
            &&& lo + 2 <= hi
        },
        r is None <==> min_lag + 1 >= (if max_lag_unclamped < ANALYSIS_LEN / 2 - 1 {
            max_lag_unclamped as int
        } else {
            ANALYSIS_LEN / 2 - 1
        }),
{
    let cap: usize = ANALYSIS_LEN / 2 - 1;
    let max_lag = if max_lag_unclamped < cap {
        max_lag_unclamped
    } else {
        cap
    };
    if max_lag <= min_lag || max_lag - min_lag <= 1 {
        None
    } else {
        Some((min_lag, max_lag))
    }
}

/// The count of samples since the last analysis after one more sample.
pub open spec fn clock_step(count: nat) -> nat {
    if count + 1 >= ANALYSIS_INTERVAL {
        0
    } else {
        count + 1
    }
}

/// The count of samples since the last analysis after `k` samples from a reset.
pub open spec fn clock_after(k: nat) -> nat
    decreases k,
{
    if k == 0 {
        0
    } else {
        clock_step(clock_after((k - 1) as nat))
    }
}

/// Counts incoming samples and says when the next analysis is due.
pub struct AnalysisClock {
    samples_since_analysis: usize,
}

impl AnalysisClock {
    /// Samples counted since the last analysis.
    pub closed spec fn count(&self) -> nat {
        self.samples_since_analysis as nat
    }

    /// The count stays below the analysis interval.
    pub open spec fn wf(&self) -> bool {
        self.count() < ANALYSIS_INTERVAL
    }

    /// A clock that has counted nothing.
    pub fn new() -> (c: Self)
        ensures
            c.wf(),
            c.count() == 0,
    {
        AnalysisClock { samples_since_analysis: 0 }
    }

    /// Forgets the samples counted so far.
    pub fn reset(&mut self)
        ensures
            final(self).wf(),
            final(self).count() == 0,
    {
        self.samples_since_analysis = 0;
    }

    /// Samples counted since the last analysis.
    pub fn samples_since_analysis(&self) -> (n: usize)
        ensures
            n == self.count(),
    {
        self.samples_since_analysis
    }

    /// Counts one sample; returns whether an analysis is due now, in which case
    /// the count starts again from zero.
    pub fn tick(&mut self) -> (due: bool)
        requires
            old(self).wf(),
        ensures
            final(self).wf(),
            due == (old(self).count() + 1 >= ANALYSIS_INTERVAL),
            final(self).count() == clock_step(old(self).count()),
    {
        self.samples_since_analysis = self.samples_since_analysis + 1;
        if self.samples_since_analysis >= ANALYSIS_INTERVAL {
            self.samples_since_analysis = 0;
            true
        } else {
            false
        }
    }
}

/// From a reset, the clock counts samples modulo the analysis interval, and the
/// `k`-th sample triggers an analysis exactly when `k` is a multiple of the
/// interval: one analysis every `ANALYSIS_INTERVAL` samples.
pub proof fn law_analysis_every_interval(k: nat)
    ensures
        clock_after(k) == k % (ANALYSIS_INTERVAL as nat),
        k > 0 ==> ((clock_after((k - 1) as nat) + 1 >= ANALYSIS_INTERVAL) <==> k % (
        ANALYSIS_INTERVAL as nat) == 0),
    decreases k,
{
    let n = ANALYSIS_INTERVAL as int;
    if k == 0 {
        lemma_fundamental_div_mod_converse(0, n, 0, 0);
    } else {
        law_analysis_every_interval((k - 1) as nat);
        let prev = clock_after((k - 1) as nat) as int;
        let q = (k - 1) as int / n;
        assert((k - 1) as int == q * n + prev) by {
            vstd::arithmetic::div_mod::lemma_fundamental_div_mod((k - 1) as int, n);
            vstd::arithmetic::mul::lemma_mul_is_commutative(q, n);
        }
        if prev + 1 >= n {
            assert(k as int == (q + 1) * n + 0) by {
                vstd::arithmetic::mul::lemma_mul_is_distributive_add_other_way(n, q, 1);
            }
            lemma_fundamental_div_mod_converse(k as int, n, q + 1, 0);
        } else {
            lemma_fundamental_div_mod_converse(k as int, n, q, prev + 1);
        }
    }
}

/// Notes twelve semitones apart share their pitch-class name, and the octave
/// number of the higher one is one greater.
pub proof fn law_octave_repeats(midi: int)
    requires
        midi >= 0,
    ensures
        note_name(midi + 12) == pitch_class_name(midi % 12) + decimal(trunc_div(midi, 12)),
{
    let q = midi / 12;
    let r = midi % 12;
    assert(midi == q * 12 + r) by {
        vstd::arithmetic::div_mod::lemma_fundamental_div_mod(midi, 12);
    }
    lemma_fundamental_div_mod_converse(midi + 12, 12, q + 1, r);
}

/// A detected note is shown under its own name, clamped to the MIDI range, and
/// never as the absence of a detection.
pub proof fn law_detected_note_is_shown(m: i32)
    ensures
        note_code(Some(m)) != NO_DETECTION,
        note_code(Some(m)) <= 127,
        0 <= m <= 127 ==> note_code(Some(m)) == m,
        m < 0 ==> note_code(Some(m)) == 0,
        m > 127 ==> note_code(Some(m)) == 127,
        note_label(note_code(Some(m))) == note_name(note_code(Some(m)) as int),
        note_label(note_code(None)) == seq!['-', '-'],
{
}

/// The searched lags start at the shortest lag, never reach half the analysis
/// window, and end at the longest lag asked for unless that is cut to
/// `ANALYSIS_LEN / 2 - 1`; no range of fewer than three lags is searched, and a
/// range is refused only when the capped longest lag leaves fewer than three.
pub proof fn law_lag_range_bounds(min_lag: nat, max_lag_unclamped: nat)
    ensures
        lag_range(min_lag, max_lag_unclamped) matches Some((lo, hi)) ==> {
            &&& lo == min_lag
            &&& hi <= ANALYSIS_LEN / 2 - 1
            &&& hi <= max_lag_unclamped
            &&& (hi == max_lag_unclamped || hi == ANALYSIS_LEN / 2 - 1)
            &&& (max_lag_unclamped <= ANALYSIS_LEN / 2 - 1 ==> hi == max_lag_unclamped)
            &&& lo + 2 <= hi
        },
        lag_range(min_lag, max_lag_unclamped) is None <==> min_lag + 1 >= (
        if max_lag_unclamped < ANALYSIS_LEN / 2 - 1 {
            max_lag_unclamped as int
        } else {
            ANALYSIS_LEN / 2 - 1
        }),
{
}

/// The pitch classes are named in sharps from C: the seven natural notes are
/// single letters, pitch class 9 is A (the reference note) and 11 is B, the
/// letters of C, D, E, F, G follow one another in the alphabet, every other
/// pitch class is the natural below it followed by '#', all letters lie in
/// A..G, and no two pitch classes share a name.
pub proof fn law_pitch_class_names()
    ensures
        forall|pc: int|
            #![trigger pitch_class_name(pc)]
            0 <= pc < 12 ==> {
                let name = pitch_class_name(pc);
                &&& 'A' as int <= name[0] as int <= 'G' as int
                &&& (pc == 0 || pc == 2 || pc == 4 || pc == 5 || pc == 7 || pc == 9 || pc == 11)
                    ==> name.len() == 1
                &&& (pc == 1 || pc == 3 || pc == 6 || pc == 8 || pc == 10) ==> name == pitch_class_name(
                    pc - 1,
                ).push('#')
            },
        pitch_class_name(9) == seq!['A'],
        pitch_class_name(11) == seq!['B'],
        pitch_class_name(2)[0] as int == pitch_class_name(0)[0] as int + 1,
        pitch_class_name(4)[0] as int == pitch_class_name(2)[0] as int + 1,
        pitch_class_name(5)[0] as int == pitch_class_name(4)[0] as int + 1,
        pitch_class_name(7)[0] as int == pitch_class_name(5)[0] as int + 1,
        forall|a: int, b: int|
            0 <= a < 12 && 0 <= b < 12 && a != b ==> pitch_class_name(a) != pitch_class_name(b),
{
    assert forall|a: int, b: int|
        0 <= a < 12 && 0 <= b < 12 && a != b implies pitch_class_name(a) != pitch_class_name(b) by {
        let na = pitch_class_name(a);
        let nb = pitch_class_name(b);
        if na.len() == nb.len() {
            assert(na[0] != nb[0] || na[na.len() - 1] != nb[nb.len() - 1]
                || (na.len() == 2 && na[0] != nb[0]));
        }
    }
}

/// Two notes of the same octave with different pitch classes get different
/// names, and every name starts with the name of its pitch class.
pub proof fn law_note_names_distinct_in_octave(m1: int, m2: int)
    requires
        trunc_div(m1, 12) == trunc_div(m2, 12),
        m1 % 12 != m2 % 12,
    ensures
        note_name(m1) != note_name(m2),
        note_name(m1).subrange(0, pitch_class_name(m1 % 12).len() as int) == pitch_class_name(
            m1 % 12,
        ),
{
    law_pitch_class_names();
    let p1 = pitch_class_name(m1 % 12);
    let p2 = pitch_class_name(m2 % 12);
    let d = decimal(trunc_div(m1, 12) - 1);
    assert(p1 != p2);
    assert((p1 + d).subrange(0, p1.len() as int) =~= p1);
    if p1.len() == p2.len() {
        if p1 + d == p2 + d {
            assert(p1 =~= (p1 + d).subrange(0, p1.len() as int));
            assert(p2 =~= (p2 + d).subrange(0, p2.len() as int));
        }
    } else {
        assert((p1 + d).len() != (p2 + d).len());
    }
}

/// The number a string of decimal digits stands for.
pub open spec fn digits_value(s: Seq<char>) -> int
    decreases s.len(),
{
    if s.len() == 0 {
        0
    } else {
        digits_value(s.drop_last()) * 10 + (s.last() as int - '0' as int)
    }
}

/// Octave numbers are written in plain decimal: every character is a digit
/// '0'..'9', the digits stand for the number, and there is no leading zero.
pub proof fn law_decimal_digits(n: nat)
    ensures
        forall|i: int|
            0 <= i < decimal_digits(n).len() ==> '0' as int <= #[trigger] decimal_digits(n)[i] as int
                <= '9' as int,
        digits_value(decimal_digits(n)) == n,
        decimal_digits(n).len() >= 1,
        n >= 10 ==> decimal_digits(n)[0] != '0',
    decreases n,
{
    assert forall|d: int| 0 <= d < 10 implies #[trigger] digit_char(d) as int == '0' as int + d by {
    }
    if n >= 10 {
        law_decimal_digits(n / 10);
        let s = decimal_digits(n);
        assert(s.drop_last() =~= decimal_digits(n / 10));
        assert(s.last() == digit_char((n % 10) as int));
        assert(s.last() as int - '0' as int == n % 10);
        assert(n == (n / 10) * 10 + n % 10) by {
            vstd::arithmetic::div_mod::lemma_fundamental_div_mod(n as int, 10);
        }
        assert(digits_value(s) == digits_value(s.drop_last()) * 10 + (s.last() as int - '0' as int));
        if n / 10 >= 10 {
            assert(s[0] == decimal_digits(n / 10)[0]);
        } else {
            assert(s[0] == digit_char((n / 10) as int));
        }
    } else {
        let s = decimal_digits(n);
        assert(s.drop_last() =~= Seq::<char>::empty());
        assert(s.last() as int - '0' as int == n);
        assert(digits_value(s) == digits_value(s.drop_last()) * 10 + (s.last() as int - '0' as int));
    }
}

} // verus!
