use vstd::prelude::*;

verus! {

/// The state index that audio channel `ch` uses when only a left (0) and a
/// right (1) state exist: every channel past the first shares the right one.
pub fn stereo_channel(ch: usize) -> (idx: usize)
    ensures
        idx == if ch < 1 {
            ch
        } else {
            1
        },
{
    if ch < 1 {
        ch
    } else {
        1
    }
}

/// Appends states made by `make` until there are at least `count` of them;
/// existing states are kept as they are.
pub fn grow_channels<T, F: Fn() -> T>(states: &mut Vec<T>, count: usize, make: F)
    requires
        call_requires(make, ()),
    ensures
        final(states)@.len() == if old(states)@.len() < count {
            count as nat
        } else {
            old(states)@.len()
        },
        final(states)@.subrange(0, old(states)@.len() as int) == old(states)@,
        forall|i: int|
            old(states)@.len() <= i < final(states)@.len() ==> call_ensures(make, (), #[trigger] final(states)@[i]),
{
    let ghost orig = states@;
    while states.len() < count
        invariant
            call_requires(make, ()),
            orig.len() <= states@.len(),
            orig.len() < count ==> states@.len() <= count,
            orig.len() >= count ==> states@.len() == orig.len(),
            states@.subrange(0, orig.len() as int) == orig,
            forall|i: int|
                orig.len() <= i < states@.len() ==> call_ensures(make, (), #[trigger] states@[i]),
        decreases count - states@.len(),
    {
        let s = make();
        states.push(s);
        assert(states@.subrange(0, orig.len() as int) =~= orig);
    }
}

/// Grows a vector of plain per-channel values with copies of `fill` until it
/// holds at least `count` of them; existing values are kept.
pub fn grow_channel_values<T: Copy>(values: &mut Vec<T>, count: usize, fill: T)
    ensures
        final(values)@ == if old(values)@.len() < count {
            old(values)@ + Seq::new((count - old(values)@.len()) as nat, |i: int| fill)
        } else {
            old(values)@
        },
{
    let ghost orig = values@;
    let n = values.len();
    let mut i = n;
    while i < count
        invariant
            n == orig.len(),
            n <= i,
            i <= count || i == n,
            values@ == orig + Seq::new((i - n) as nat, |j: int| fill),
        decreases count - i,
    {
        values.push(fill);
        i = i + 1;
        assert(values@ =~= orig + Seq::new((i - n) as nat, |j: int| fill));
    }
    assert(n >= count ==> values@ =~= orig);
}

} // verus!
