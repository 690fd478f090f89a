//! A fixed delay line: each sample comes out `N` samples after it went in.
use vstd::arithmetic::div_mod::{
    lemma_fundamental_div_mod, lemma_mod_bound, lemma_mod_multiples_basic, lemma_mod_multiples_vanish,
    lemma_small_mod,
};
use vstd::prelude::*;

verus! {

/// The samples of a delay line from oldest to newest; the oldest is the one
/// under the cursor `pos`, next to come out.
pub open spec fn delay_contents(line: Seq<i16>, pos: int) -> Seq<i16> {
    line.subrange(pos, line.len() as int) + line.subrange(0, pos)
}

/// Moving a cursor one slot on, wrapping at `d`, follows the count modulo `d`.
proof fn lemma_cursor_step(k: int, d: int)
    requires
        k >= 0,
        d > 0,
    ensures
        (k + 1) % d == if k % d + 1 == d { 0 } else { k % d + 1 },
{
    lemma_fundamental_div_mod(k, d);
    lemma_mod_bound(k, d);
    let q = k / d;
    if k % d + 1 == d {
        lemma_mod_multiples_basic(q + 1, d);
        assert(k + 1 == (q + 1) * d) by (nonlinear_arith)
            requires
                k == d * q + k % d,
                k % d + 1 == d,
        ;
    } else {
        lemma_mod_multiples_vanish(q, k % d + 1, d);
        lemma_small_mod((k % d + 1) as nat, d as nat);
        assert(k + 1 == d * q + (k % d + 1));
    }
}

/// Feeds `input` through the delay line, writing what comes out into the
/// first `input.len()` slots of `output`. The line's contents followed by the
/// input form one stream: the output is its head, and the line keeps its
/// last `N` samples.
pub fn process_delay(
    input: &[i16],
    output: &mut [i16],
    delay_line: &mut [i16],
    delay_pos: &mut usize,
)
    requires
        old(delay_line)@.len() > 0,
        *old(delay_pos) < old(delay_line)@.len(),
        old(output)@.len() >= input@.len(),
    ensures
        final(delay_line)@.len() == old(delay_line)@.len(),
        *final(delay_pos) < final(delay_line)@.len(),
        *final(delay_pos) == (*old(delay_pos) + input@.len()) % (old(delay_line)@.len() as int),
        final(output)@ == (delay_contents(old(delay_line)@, *old(delay_pos) as int) + input@).take(
            input@.len() as int,
        ) + old(output)@.skip(input@.len() as int),
        delay_contents(final(delay_line)@, *final(delay_pos) as int) == (delay_contents(
            old(delay_line)@,
            *old(delay_pos) as int,
        ) + input@).subrange(input@.len() as int, (input@.len() + old(delay_line)@.len()) as int),
{
    let ghost stream = delay_contents(delay_line@, *delay_pos as int) + input@;
    let ghost out0 = output@;
    let ghost d = delay_line@.len() as int;
    let n = input.len();
    let mut i: usize = 0;
    proof {
        lemma_small_mod(*delay_pos as nat, d as nat);
    }
    assert(delay_contents(delay_line@, *delay_pos as int) =~= stream.subrange(0, d));
    assert(output@ =~= stream.take(0) + out0.skip(0));
    while i < n
        invariant
            n == input@.len(),
            i <= n,
            delay_line@.len() == d,
            d > 0,
            *delay_pos < d,
            *delay_pos == (*old(delay_pos) + i) % d,
            stream == delay_contents(old(delay_line)@, *old(delay_pos) as int) + input@,
            stream.len() == d + n,
            out0 == old(output)@,
            out0.len() >= n,
            delay_contents(delay_line@, *delay_pos as int) == stream.subrange(i as int, i + d),
            output@ == stream.take(i as int) + out0.skip(i as int),
        decreases n - i,
    {
        let ghost before = delay_line@;
        let ghost p = *delay_pos as int;
        let sample = input[i];
        let delayed = delay_line[*delay_pos];
        assert(delayed == delay_contents(before, p)[0]);
        delay_line[*delay_pos] = sample;
        *delay_pos = *delay_pos + 1;
        if *delay_pos == delay_line.len() {
            *delay_pos = 0;
        }
        output[i] = delayed;
        proof {
            lemma_cursor_step(*old(delay_pos) as int + i, d);
        }
        assert(delay_contents(delay_line@, *delay_pos as int) =~= delay_contents(before, p).skip(
            1,
        ).push(sample));
        assert(stream[i + d] == sample);
        assert(delay_contents(delay_line@, *delay_pos as int) =~= stream.subrange(
            i + 1,
            i + 1 + d,
        ));
        assert(output@ =~= stream.take(i + 1) + out0.skip(i + 1));
        i = i + 1;
    }
}

} // verus!
