//! The descriptor as plain data, and the sums that are derived from it.

use vstd::prelude::*;

verus! {

/// One input field of a fuzzing cycle. The order of the fields is the order
/// in which their bits are packed.
#[derive(Clone, Debug)]
pub struct Input {
    pub name: String,
    pub width: u32,
}

/// One coverage counter, with the place in the source that it stands for.
#[derive(Clone, Debug)]
pub struct Coverage {
    pub name: String,
    pub inverted: bool,
    pub index: i32,
    pub counterbits: i32,
    pub filename: String,
    pub line: i32,
    pub column: i32,
    pub human: String,
}

/// What the descriptor says about the instrumented module as a whole.
#[derive(Clone, Debug)]
pub struct General {
    pub filename: String,
    pub instrumented: String,
    pub module: String,
    pub timestamp: String,
}

/// A parsed descriptor.
#[derive(Clone, Debug)]
pub struct ConfigData {
    pub general: General,
    pub coverage: Vec<Coverage>,
    pub input: Vec<Input>,
}

/// The number of bytes of the input of one cycle, and of the coverage buffer.
#[derive(Clone, Copy, Debug, PartialEq, Eq, Structural)]
pub struct TestSize {
    pub input: usize,
    pub coverage: usize,
}

/// The sum of the widths of `inputs`.
pub open spec fn total_width(inputs: Seq<Input>) -> nat
    decreases inputs.len(),
{
    if inputs.len() == 0 {
        0
    } else {
        total_width(inputs.drop_last()) + inputs.last().width as nat
    }
}

/// The sum of the counter widths of `counters`. A descriptor can declare a
/// negative width, so the sum is an integer.
pub open spec fn total_counter_bits(counters: Seq<Coverage>) -> int
    decreases counters.len(),
{
    if counters.len() == 0 {
        0
    } else {
        total_counter_bits(counters.drop_last()) + counters.last().counterbits as int
    }
}

/// The sum of the widths of the first `n` fields grows with `n`, and a field
/// ends where the next one starts.
pub proof fn lemma_total_width_take(inputs: Seq<Input>, n: int)
    requires
        0 <= n < inputs.len(),
    ensures
        total_width(inputs.take(n + 1)) == total_width(inputs.take(n)) + inputs[n].width,
        total_width(inputs.take(n + 1)) <= total_width(inputs),
    decreases inputs.len() - n,
{
    assert(inputs.take(n + 1).drop_last() =~= inputs.take(n));
    if n + 1 == inputs.len() {
        assert(inputs.take(n + 1) =~= inputs);
    } else {
        lemma_total_width_take(inputs, n + 1);
    }
}

impl ConfigData {
    /// The number of input bits of one cycle.
    pub open spec fn spec_input_bits(&self) -> nat {
        total_width(self.input@)
    }

    /// The number of coverage bits that the descriptor declares.
    pub open spec fn spec_coverage_bits(&self) -> int {
        total_counter_bits(self.coverage@)
    }

    /// The number of input bits of one cycle: the sum of the field widths.
    pub fn input_bits(&self) -> (bits: u128)
        ensures
            bits == self.spec_input_bits(),
    {
        let mut bits: u128 = 0;
        let mut i: usize = 0;
        while i < self.input.len()
            invariant
                i <= self.input.len(),
                bits == total_width(self.input@.take(i as int)),
                bits <= i * 0xffff_ffff,
            decreases self.input.len() - i,
        {
            proof {
                lemma_total_width_take(self.input@, i as int);
            }
            bits = bits + self.input[i].width as u128;
            i = i + 1;
        }
        assert(self.input@.take(i as int) =~= self.input@);
        bits
    }

    /// The number of coverage bits: the sum of the counter widths.
    pub fn coverage_bits(&self) -> (bits: i128)
        ensures
            bits == self.spec_coverage_bits(),
    {
        let mut bits: i128 = 0;
        let mut i: usize = 0;
        while i < self.coverage.len()
            invariant
                i <= self.coverage.len(),
                bits == total_counter_bits(self.coverage@.take(i as int)),
                -(i * 0x8000_0000) <= bits <= i * 0x8000_0000,
            decreases self.coverage.len() - i,
        {
            assert(self.coverage@.take(i + 1).drop_last() =~= self.coverage@.take(i as int));
            bits = bits + self.coverage[i].counterbits as i128;
            i = i + 1;
        }
        assert(self.coverage@.take(i as int) =~= self.coverage@);
        bits
    }
}

} // verus!
