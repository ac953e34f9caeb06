//! Single bits in packed buffers. The bits of a byte are counted from the
//! most significant one, which is bit 0, to the least significant, bit 7.

use vstd::prelude::*;
use vstd::arithmetic::div_mod::lemma_fundamental_div_mod;
use vstd::arithmetic::mul::{lemma_mul_inequality, lemma_mul_is_distributive_add_other_way};
use crate::error::ConfigError;
use crate::model::{Coverage, TestSize};

verus! {

/// The byte in which only bit `i` is set.
pub open spec fn mask(i: u8) -> u8 {
    0x80u8 >> i
}

/// Whether bit `i` of `byte` is set.
pub open spec fn bit_of(byte: u8, i: u8) -> bool {
    byte & mask(i) != 0
}

/// Bit `i` from the most significant end is bit `7 - i` from the least
/// significant end: the mask is a one shifted there, and the bit is set where
/// the byte shifted back ends in a one.
pub proof fn lemma_bit_of(byte: u8, i: u8)
    requires
        i < 8,
    ensures
        mask(i) == 1u8 << ((7 - i) as u8),
        bit_of(byte, i) == ((byte >> ((7 - i) as u8)) & 1 == 1),
{
    let low: u8 = (7 - i) as u8;
    assert(0x80u8 >> i == 1u8 << low) by (bit_vector)
        requires
            i < 8,
            low == 7 - i,
    ;
    assert((byte & (0x80u8 >> i) != 0) == ((byte >> low) & 1 == 1)) by (bit_vector)
        requires
            i < 8,
            low == 7 - i,
    ;
}

/// `byte` with bit `i` set to `value`.
pub open spec fn with_bit(byte: u8, i: u8, value: bool) -> u8 {
    if value {
        byte | mask(i)
    } else {
        byte & !mask(i)
    }
}

/// A bit that was written is read back, and writing a bit changes no other
/// bit of the byte.
pub proof fn lemma_with_bit(byte: u8, i: u8, value: bool, j: u8)
    requires
        i < 8,
        j < 8,
    ensures
        bit_of(with_bit(byte, i, value), j) == if i == j {
            value
        } else {
            bit_of(byte, j)
        },
{
    assert((byte | (0x80u8 >> i)) & (0x80u8 >> i) != 0) by (bit_vector)
        requires
            i < 8,
    ;
    assert((byte & !(0x80u8 >> i)) & (0x80u8 >> i) == 0) by (bit_vector)
        requires
            i < 8,
    ;
    assert(i != j ==> (byte | (0x80u8 >> i)) & (0x80u8 >> j) == byte & (0x80u8 >> j))
        by (bit_vector)
        requires
            i < 8,
            j < 8,
    ;
    assert(i != j ==> (byte & !(0x80u8 >> i)) & (0x80u8 >> j) == byte & (0x80u8 >> j))
        by (bit_vector)
        requires
            i < 8,
            j < 8,
    ;
}

/// Whether bit `bit` of the byte at `index` is set.
pub fn bit_at(buffer: &[u8], index: usize, bit: u8) -> (set: bool)
    requires
        index < buffer@.len(),
        bit < 8,
    ensures
        set == bit_of(buffer@[index as int], bit),
{
    (buffer[index] & (0x80u8 >> bit)) != 0
}

/// Whether a buffer of `len` bytes is a whole number of cycles of
/// `cycle_bytes` bytes each. Only the empty buffer is made of cycles of no
/// bytes.
pub open spec fn whole_cycles(len: nat, cycle_bytes: nat) -> bool {
    if cycle_bytes == 0 {
        len == 0
    } else {
        len % cycle_bytes == 0
    }
}

/// The number of cycles in a buffer of `len` bytes.
pub open spec fn cycle_count(len: nat, cycle_bytes: nat) -> nat {
    if cycle_bytes == 0 {
        0
    } else {
        len / cycle_bytes
    }
}

/// Whether the bit at `offset` of cycle `cycle` lies in a buffer of `len`
/// bytes.
pub open spec fn in_cycles(len: nat, cycle_bytes: nat, cycle: nat, offset: nat) -> bool {
    cycle < cycle_count(len, cycle_bytes) && offset < 8 * cycle_bytes
}

/// The index of the byte that holds the bit at `offset` of cycle `cycle`.
pub open spec fn input_byte_index(cycle_bytes: nat, cycle: nat, offset: nat) -> int {
    (cycle * cycle_bytes + offset / 8) as int
}

/// The bit at `offset` of cycle `cycle`.
pub open spec fn input_bit(buffer: Seq<u8>, cycle_bytes: nat, cycle: nat, offset: nat) -> bool {
    bit_of(buffer[input_byte_index(cycle_bytes, cycle, offset)], (offset % 8) as u8)
}

/// `buffer` with the bit at `offset` of cycle `cycle` set to `value`.
pub open spec fn with_input_bit(
    buffer: Seq<u8>,
    cycle_bytes: nat,
    cycle: nat,
    offset: nat,
    value: bool,
) -> Seq<u8> {
    buffer.update(
        input_byte_index(cycle_bytes, cycle, offset),
        with_bit(
            buffer[input_byte_index(cycle_bytes, cycle, offset)],
            (offset % 8) as u8,
            value,
        ),
    )
}

/// A bit that lies in the buffer has its byte among the bytes of its cycle,
/// and the cycle lies in the buffer.
pub proof fn lemma_input_byte_index(len: nat, cycle_bytes: nat, cycle: nat, offset: nat)
    requires
        whole_cycles(len, cycle_bytes),
        in_cycles(len, cycle_bytes, cycle, offset),
    ensures
        cycle * cycle_bytes <= input_byte_index(cycle_bytes, cycle, offset) < (cycle + 1)
            * cycle_bytes <= len,
{
    lemma_fundamental_div_mod(len as int, cycle_bytes as int);
    lemma_mul_inequality(cycle as int + 1, len as int / cycle_bytes as int, cycle_bytes as int);
    lemma_mul_is_distributive_add_other_way(cycle_bytes as int, cycle as int, 1);
    assert(len == (len / cycle_bytes) * cycle_bytes) by (nonlinear_arith)
        requires
            len == cycle_bytes * (len / cycle_bytes) + len % cycle_bytes,
            len % cycle_bytes == 0,
    ;
}

/// Writing a bit and reading it back gives the bit that was written, and
/// every other bit of the buffer reads as before.
pub proof fn lemma_write_then_read(
    buffer: Seq<u8>,
    cycle_bytes: nat,
    cycle: nat,
    offset: nat,
    value: bool,
    other_cycle: nat,
    other_offset: nat,
)
    requires
        whole_cycles(buffer.len(), cycle_bytes),
        in_cycles(buffer.len(), cycle_bytes, cycle, offset),
        in_cycles(buffer.len(), cycle_bytes, other_cycle, other_offset),
    ensures
        with_input_bit(buffer, cycle_bytes, cycle, offset, value).len() == buffer.len(),
        input_bit(
            with_input_bit(buffer, cycle_bytes, cycle, offset, value),
            cycle_bytes,
            other_cycle,
            other_offset,
        ) == if other_cycle == cycle && other_offset == offset {
            value
        } else {
            input_bit(buffer, cycle_bytes, other_cycle, other_offset)
        },
{
    let at = input_byte_index(cycle_bytes, cycle, offset);
    let other_at = input_byte_index(cycle_bytes, other_cycle, other_offset);
    lemma_input_byte_index(buffer.len(), cycle_bytes, cycle, offset);
    lemma_input_byte_index(buffer.len(), cycle_bytes, other_cycle, other_offset);
    lemma_with_bit(buffer[at], (offset % 8) as u8, value, (other_offset % 8) as u8);
    if at == other_at {
        if cycle < other_cycle {
            lemma_mul_inequality(cycle as int + 1, other_cycle as int, cycle_bytes as int);
        }
        if other_cycle < cycle {
            lemma_mul_inequality(other_cycle as int + 1, cycle as int, cycle_bytes as int);
        }
        assert(cycle == other_cycle);
    }
}

/// The number of cycles in `buffer`, or the complaint that it is not a whole
/// number of them.
pub fn count_cycles(buffer: &[u8], size: TestSize) -> (counted: Result<usize, ConfigError>)
    ensures
        counted == if whole_cycles(buffer@.len(), size.input as nat) {
            Ok::<usize, ConfigError>(cycle_count(buffer@.len(), size.input as nat) as usize)
        } else {
            Err::<usize, ConfigError>(
                ConfigError::InputBufferSizeMismatch {
                    cycle_bytes: size.input,
                    actual: buffer.len(),
                },
            )
        },
{
    let mismatch = Err(
        ConfigError::InputBufferSizeMismatch { cycle_bytes: size.input, actual: buffer.len() },
    );
    if size.input == 0 {
        if buffer.len() == 0 {
            Ok(0)
        } else {
            mismatch
        }
    } else if buffer.len() % size.input == 0 {
        Ok(buffer.len() / size.input)
    } else {
        mismatch
    }
}

/// Reads the bit at `bit_offset` of cycle `cycle` out of a buffer of whole
/// cycles; a buffer that is none is rejected.
pub fn read_input_bit(buffer: &[u8], size: TestSize, cycle: usize, bit_offset: usize) -> (read:
    Result<bool, ConfigError>)
    requires
        whole_cycles(buffer@.len(), size.input as nat) ==> in_cycles(
            buffer@.len(),
            size.input as nat,
            cycle as nat,
            bit_offset as nat,
        ),
    ensures
        read == if whole_cycles(buffer@.len(), size.input as nat) {
            Ok::<bool, ConfigError>(
                input_bit(buffer@, size.input as nat, cycle as nat, bit_offset as nat),
            )
        } else {
            Err::<bool, ConfigError>(
                ConfigError::InputBufferSizeMismatch {
                    cycle_bytes: size.input,
                    actual: buffer.len(),
                },
            )
        },
{
    match count_cycles(buffer, size) {
        Err(e) => Err(e),
        Ok(_) => {
            proof {
                lemma_input_byte_index(
                    buffer@.len(),
                    size.input as nat,
                    cycle as nat,
                    bit_offset as nat,
                );
            }
            assert(cycle * size.input + bit_offset / 8 == input_byte_index(
                size.input as nat,
                cycle as nat,
                bit_offset as nat,
            ));
            assert(0 <= cycle * size.input <= cycle * size.input + bit_offset / 8);
            let index = cycle * size.input + bit_offset / 8;
            Ok(bit_at(buffer, index, (bit_offset % 8) as u8))
        },
    }
}

/// Sets the bit at `bit_offset` of cycle `cycle` in a buffer of whole cycles
/// to `value`; a buffer that is none is rejected and left as it is.
pub fn write_input_bit(
    buffer: &mut Vec<u8>,
    size: TestSize,
    cycle: usize,
    bit_offset: usize,
    value: bool,
) -> (written: Result<(), ConfigError>)
    requires
        whole_cycles(old(buffer)@.len(), size.input as nat) ==> in_cycles(
            old(buffer)@.len(),
            size.input as nat,
            cycle as nat,
            bit_offset as nat,
        ),
    ensures
        whole_cycles(old(buffer)@.len(), size.input as nat) ==> written is Ok && final(buffer)@
            == with_input_bit(
            old(buffer)@,
            size.input as nat,
            cycle as nat,
            bit_offset as nat,
            value,
        ),
        !whole_cycles(old(buffer)@.len(), size.input as nat) ==> final(buffer)@ == old(buffer)@
            && written == Err::<(), ConfigError>(
            ConfigError::InputBufferSizeMismatch {
                cycle_bytes: size.input,
                actual: old(buffer).len(),
            },
        ),
{
    match count_cycles(buffer.as_slice(), size) {
        Err(e) => Err(e),
        Ok(_) => {
            proof {
                lemma_input_byte_index(
                    buffer@.len(),
                    size.input as nat,
                    cycle as nat,
                    bit_offset as nat,
                );
            }
            assert(cycle * size.input + bit_offset / 8 == input_byte_index(
                size.input as nat,
                cycle as nat,
                bit_offset as nat,
            ));
            assert(0 <= cycle * size.input <= cycle * size.input + bit_offset / 8);
            let index = cycle * size.input + bit_offset / 8;
            let bit: u8 = (bit_offset % 8) as u8;
            let byte = buffer[index];
            let changed: u8 = if value {
                byte | (0x80u8 >> bit)
            } else {
                byte & !(0x80u8 >> bit)
            };
            buffer.set(index, changed);
            Ok(())
        },
    }
}

/// The byte as it is decoded: complemented where the caller asks for the
/// inverted view.
pub open spec fn shown(byte: u8, invert: bool) -> u8 {
    if invert {
        !byte
    } else {
        byte
    }
}

/// Whether a counter with this index, and its twin in the bit behind it, lie
/// in one byte of a coverage buffer of `coverage_bytes` bytes.
pub open spec fn addressable(index: int, coverage_bytes: nat) -> bool {
    &&& 0 <= index
    &&& index / 8 < coverage_bytes
    &&& index % 8 != 7
}

/// Whether the counter at bit `index` was seen true, and whether it was seen
/// false: the bit at `index`, and the bit behind it in the same byte.
pub open spec fn coverage_pair(buffer: Seq<u8>, index: int, invert: bool) -> (bool, bool) {
    (
        bit_of(shown(buffer[index / 8], invert), (index % 8) as u8),
        bit_of(shown(buffer[index / 8], invert), (index % 8 + 1) as u8),
    )
}

/// The inverted view shows every bit of a pair flipped.
pub proof fn lemma_coverage_pair_inverted(buffer: Seq<u8>, index: int)
    requires
        addressable(index, buffer.len()),
    ensures
        coverage_pair(buffer, index, true).0 == !coverage_pair(buffer, index, false).0,
        coverage_pair(buffer, index, true).1 == !coverage_pair(buffer, index, false).1,
{
    let byte = buffer[index / 8];
    let bit = (index % 8) as u8;
    assert(((!byte) & (0x80u8 >> bit) != 0) == !(byte & (0x80u8 >> bit) != 0)) by (bit_vector)
        requires
            bit < 8,
    ;
    let next = (index % 8 + 1) as u8;
    assert(((!byte) & (0x80u8 >> next) != 0) == !(byte & (0x80u8 >> next) != 0))
        by (bit_vector)
        requires
            next < 8,
    ;
}

/// The second bit of a pair is the bit at the index behind that of the
/// counter: where its twin has that index, it is the twin's own bit.
pub proof fn lemma_twin_bit(buffer: Seq<u8>, index: int, invert: bool)
    requires
        addressable(index, buffer.len()),
    ensures
        (index + 1) / 8 == index / 8,
        coverage_pair(buffer, index, invert).1 == bit_of(
            shown(buffer[(index + 1) / 8], invert),
            ((index + 1) % 8) as u8,
        ),
{
}

/// Whether `counter` and its twin can be read from a coverage buffer of the
/// layout `size`.
pub fn is_addressable(counter: &Coverage, size: TestSize) -> (fine: bool)
    ensures
        fine == addressable(counter.index as int, size.coverage as nat),
{
    counter.index >= 0 && counter.index % 8 != 7 && ((counter.index / 8) as usize) < size.coverage
}

/// Reads from a coverage buffer whether the counter `normal` was seen true
/// and whether it was seen false. With `invert` the buffer is read in its
/// complement. A buffer that has not the size of the layout is rejected.
pub fn read_coverage_pair(buffer: &[u8], size: TestSize, normal: &Coverage, invert: bool) -> (read:
    Result<(bool, bool), ConfigError>)
    requires
        buffer.len() == size.coverage ==> addressable(normal.index as int, size.coverage as nat),
    ensures
        read == if buffer.len() == size.coverage {
            Ok::<(bool, bool), ConfigError>(coverage_pair(buffer@, normal.index as int, invert))
        } else {
            Err::<(bool, bool), ConfigError>(
                ConfigError::CoverageBufferSizeMismatch {
                    expected: size.coverage,
                    actual: buffer.len(),
                },
            )
        },
{
    if buffer.len() != size.coverage {
        return Err(
            ConfigError::CoverageBufferSizeMismatch {
                expected: size.coverage,
                actual: buffer.len(),
            },
        );
    }
    let index = (normal.index / 8) as usize;
    let bit: u8 = (normal.index % 8) as u8;
    let byte: u8 = if invert {
        !buffer[index]
    } else {
        buffer[index]
    };
    let covered_true = (byte & (0x80u8 >> bit)) != 0;
    let covered_false = (byte & (0x80u8 >> (bit + 1))) != 0;
    Ok((covered_true, covered_false))
}

} // verus!
