//! The tables that report what a buffer holds, as rows of text cells.

use vstd::prelude::*;
use vstd::string::StringExecFns;
use vstd::arithmetic::mul::lemma_mul_is_distributive_add_other_way;
use crate::bits::{
    addressable, bit_at, bit_of, count_cycles, coverage_pair, cycle_count, input_bit,
    input_byte_index, is_addressable, lemma_input_byte_index, read_coverage_pair, whole_cycles,
};
use crate::error::ConfigError;
use crate::model::{ConfigData, Coverage, Input, TestSize, lemma_total_width_take, total_width};
use crate::text::{
    decimal, decimal_text, push_decimal, push_signed_decimal, signed_decimal_text,
};

verus! {

/// What a row of cells says, cell by cell.
pub open spec fn row_text(row: Vec<String>) -> Seq<Seq<char>> {
    Seq::new(row@.len(), |j: int| row@[j]@)
}

/// What a table of cells says, row by row.
pub open spec fn cells_of(rows: Vec<Vec<String>>) -> Seq<Seq<Seq<char>>> {
    Seq::new(rows@.len(), |i: int| row_text(rows@[i]))
}

/// The character that shows a bit.
pub open spec fn bit_char(set: bool) -> char {
    if set {
        '1'
    } else {
        '0'
    }
}

/// The bit at which field `field` starts within a cycle: the sum of the
/// widths of the fields before it.
pub open spec fn field_start(inputs: Seq<Input>, field: int) -> nat {
    total_width(inputs.take(field))
}

/// The `width` bits from bit `start` of cycle `cycle` on, as a text of zeros
/// and ones.
pub open spec fn field_text(
    buffer: Seq<u8>,
    cycle_bytes: nat,
    cycle: nat,
    start: nat,
    width: nat,
) -> Seq<char> {
    Seq::new(width, |k: int| bit_char(input_bit(buffer, cycle_bytes, cycle, (start + k) as nat)))
}

/// The head of the input table: a column for the cycle, then one for each
/// field.
pub open spec fn input_head(inputs: Seq<Input>) -> Seq<Seq<char>> {
    seq!["C"@] + Seq::new(inputs.len(), |f: int| inputs[f].name@)
}

/// The row of cycle `cycle` in the input table: the number of the cycle, then
/// the bits of each field.
pub open spec fn input_row(inputs: Seq<Input>, buffer: Seq<u8>, cycle_bytes: nat, cycle: nat) -> Seq<
    Seq<char>,
> {
    seq![decimal_text(cycle)] + Seq::new(
        inputs.len(),
        |f: int|
            field_text(buffer, cycle_bytes, cycle, field_start(inputs, f), inputs[f].width as nat),
    )
}

/// The input table: the head, then one row for each cycle in the buffer.
pub open spec fn input_table(inputs: Seq<Input>, buffer: Seq<u8>, cycle_bytes: nat) -> Seq<
    Seq<Seq<char>>,
> {
    seq![input_head(inputs)] + Seq::new(
        cycle_count(buffer.len(), cycle_bytes),
        |c: int| input_row(inputs, buffer, cycle_bytes, c as nat),
    )
}

/// A place in a buffer: a byte and a bit in it.
struct Cursor {
    byte: usize,
    bit: u8,
}

impl Cursor {
    /// The number of bits before this place.
    spec fn position(&self) -> nat {
        (self.byte * 8 + self.bit) as nat
    }
}

/// Reads `width` bits from the cursor on as a text of zeros and ones, and
/// moves the cursor behind them.
fn read_bits(buffer: &[u8], cursor: &mut Cursor, width: u32) -> (text: String)
    requires
        old(cursor).bit < 8,
        old(cursor).position() + width <= 8 * buffer@.len(),
    ensures
        final(cursor).bit < 8,
        final(cursor).position() == old(cursor).position() + width,
        text@.len() == width,
        forall|k: int|
            0 <= k < width ==> #[trigger] text@[k] == bit_char(
                bit_of(
                    buffer@[(old(cursor).position() + k) / 8],
                    ((old(cursor).position() + k) % 8) as u8,
                ),
            ),
{
    let mut text = String::new();
    let mut k: u32 = 0;
    let len = buffer.len();
    proof {
        reveal_strlit("0");
        reveal_strlit("1");
    }
    while k < width
        invariant
            k <= width,
            cursor.bit < 8,
            cursor.position() == old(cursor).position() + k,
            old(cursor).position() + width <= 8 * buffer@.len(),
            text@.len() == k,
            len == buffer@.len(),
            "0"@ == seq!['0'],
            "1"@ == seq!['1'],
            forall|j: int|
                0 <= j < k ==> #[trigger] text@[j] == bit_char(
                    bit_of(
                        buffer@[(old(cursor).position() + j) / 8],
                        ((old(cursor).position() + j) % 8) as u8,
                    ),
                ),
        decreases width - k,
    {
        let ghost before = text@;
        assert(cursor.byte < len);
        let set = bit_at(buffer, cursor.byte, cursor.bit);
        if set {
            text.append("1");
        } else {
            text.append("0");
        }
        assert(text@ =~= before.push(bit_char(set)));
        if cursor.bit == 7 {
            cursor.bit = 0;
            cursor.byte = cursor.byte + 1;
        } else {
            cursor.bit = cursor.bit + 1;
        }
        k = k + 1;
    }
    text
}

/// The head of the input table.
fn input_head_row(data: &ConfigData) -> (row: Vec<String>)
    ensures
        row_text(row) == input_head(data.input@),
{
    let mut row: Vec<String> = Vec::new();
    row.push(String::from_str("C"));
    let mut f: usize = 0;
    while f < data.input.len()
        invariant
            f <= data.input.len(),
            row@.len() == f + 1,
            row@[0]@ == "C"@,
            forall|j: int| 1 <= j <= f ==> (#[trigger] row@[j])@ == data.input@[j - 1].name@,
        decreases data.input.len() - f,
    {
        row.push(data.input[f].name.clone());
        f = f + 1;
    }
    assert(row_text(row) =~= input_head(data.input@));
    row
}

/// The row of cycle `cycle` in the input table.
fn input_cycle_row(data: &ConfigData, size: TestSize, buffer: &[u8], cycle: usize) -> (row: Vec<
    String,
>)
    requires
        data.spec_input_bits() <= size.input * 8,
        whole_cycles(buffer@.len(), size.input as nat),
        cycle < cycle_count(buffer@.len(), size.input as nat),
    ensures
        row_text(row) == input_row(data.input@, buffer@, size.input as nat, cycle as nat),
{
    let ghost inputs = data.input@;
    let ghost cycle_bytes = size.input as nat;
    let len = buffer.len();
    proof {
        lemma_input_byte_index(buffer@.len(), cycle_bytes, cycle as nat, 0);
        assert(0 <= cycle * size.input <= len);
    }
    let mut row: Vec<String> = Vec::new();
    row.push(decimal(cycle as u128));
    let mut cursor = Cursor { byte: cycle * size.input, bit: 0 };
    let mut f: usize = 0;
    while f < data.input.len()
        invariant
            inputs == data.input@,
            cycle_bytes == size.input,
            f <= inputs.len(),
            total_width(inputs) <= cycle_bytes * 8,
            (cycle + 1) * cycle_bytes <= buffer@.len(),
            cursor.bit < 8,
            cursor.position() == cycle * cycle_bytes * 8 + field_start(inputs, f as int),
            field_start(inputs, f as int) <= total_width(inputs),
            row@.len() == f + 1,
            row@[0]@ == decimal_text(cycle as nat),
            forall|j: int|
                1 <= j <= f ==> (#[trigger] row@[j])@ == field_text(
                    buffer@,
                    cycle_bytes,
                    cycle as nat,
                    field_start(inputs, j - 1),
                    inputs[j - 1].width as nat,
                ),
        decreases inputs.len() - f,
    {
        let ghost start = field_start(inputs, f as int);
        let width = data.input[f].width;
        proof {
            lemma_total_width_take(inputs, f as int);
            lemma_mul_is_distributive_add_other_way(cycle_bytes as int, cycle as int, 1);
            assert(cycle * cycle_bytes * 8 + start + width <= 8 * buffer@.len()) by (nonlinear_arith)
                requires
                    (cycle + 1) * cycle_bytes <= buffer@.len(),
                    (cycle + 1) * cycle_bytes == cycle * cycle_bytes + cycle_bytes,
                    start + width <= cycle_bytes * 8,
            ;
        }
        let text = read_bits(buffer, &mut cursor, width);
        proof {
            assert forall|k: int| 0 <= k < width implies #[trigger] text@[k] == bit_char(
                input_bit(buffer@, cycle_bytes, cycle as nat, (start + k) as nat),
            ) by {
                let at = cycle * cycle_bytes * 8 + start + k;
                assert(at / 8 == input_byte_index(cycle_bytes, cycle as nat, (start + k) as nat)
                    && at % 8 == (start + k) % 8) by (nonlinear_arith)
                    requires
                        at == cycle * cycle_bytes * 8 + start + k,
                        input_byte_index(cycle_bytes, cycle as nat, (start + k) as nat) == cycle
                            * cycle_bytes + (start + k) / 8,
                        0 <= start + k,
                ;
            }
            assert(text@ =~= field_text(
                buffer@,
                cycle_bytes,
                cycle as nat,
                start,
                width as nat,
            ));
        }
        row.push(text);
        f = f + 1;
    }
    assert(row_text(row) =~= input_row(inputs, buffer@, cycle_bytes, cycle as nat));
    row
}

/// The table of the inputs in `buffer`: a head, then a row for each cycle
/// with the bits of each field. A buffer that is not a whole number of
/// cycles is rejected.
pub fn input_rows(data: &ConfigData, size: TestSize, buffer: &[u8]) -> (table: Result<
    Vec<Vec<String>>,
    ConfigError,
>)
    requires
        data.spec_input_bits() <= size.input * 8,
    ensures
        match table {
            Ok(rows) => whole_cycles(buffer@.len(), size.input as nat) && cells_of(rows)
                == input_table(data.input@, buffer@, size.input as nat),
            Err(e) => !whole_cycles(buffer@.len(), size.input as nat) && e
                == (ConfigError::InputBufferSizeMismatch {
                cycle_bytes: size.input,
                actual: buffer.len(),
            }),
        },
{
    let cycles = match count_cycles(buffer, size) {
        Ok(cycles) => cycles,
        Err(e) => {
            return Err(e);
        },
    };
    let mut rows: Vec<Vec<String>> = Vec::new();
    rows.push(input_head_row(data));
    let mut cycle: usize = 0;
    while cycle < cycles
        invariant
            cycle <= cycles,
            cycles == cycle_count(buffer@.len(), size.input as nat),
            whole_cycles(buffer@.len(), size.input as nat),
            data.spec_input_bits() <= size.input * 8,
            rows@.len() == cycle + 1,
            row_text(rows@[0]) == input_head(data.input@),
            forall|c: int|
                1 <= c <= cycle ==> row_text(#[trigger] rows@[c]) == input_row(
                    data.input@,
                    buffer@,
                    size.input as nat,
                    (c - 1) as nat,
                ),
        decreases cycles - cycle,
    {
        rows.push(input_cycle_row(data, size, buffer, cycle));
        cycle = cycle + 1;
    }
    assert(cells_of(rows) =~= input_table(data.input@, buffer@, size.input as nat));
    Ok(rows)
}

/// The cell that marks what holds: an `X`, or nothing.
pub open spec fn mark(holds: bool) -> Seq<char> {
    if holds {
        seq!['X']
    } else {
        Seq::empty()
    }
}

/// The place in the source that a counter stands for: the file, a colon and
/// the line.
pub open spec fn source_location(counter: Coverage) -> Seq<char> {
    counter.filename@ + seq![':'] + signed_decimal_text(counter.line as int)
}

/// The head of the coverage table.
pub open spec fn coverage_head() -> Seq<Seq<char>> {
    seq!["C?"@, "T?"@, "F?"@, "name"@, "expression"@, "source location"@]
}

/// The row of a counter in the coverage table: whether it was seen both
/// true and false, whether true, whether false, then its name, its
/// expression and its place in the source.
pub open spec fn coverage_row(counter: Coverage, seen: (bool, bool)) -> Seq<Seq<char>> {
    seq![
        mark(seen.0 && seen.1),
        mark(seen.0),
        mark(seen.1),
        counter.name@,
        counter.human@,
        source_location(counter),
    ]
}

/// The rows of the coverage table: one for each counter that is not
/// inverted, in the order of the descriptor.
pub open spec fn coverage_rows(counters: Seq<Coverage>, buffer: Seq<u8>, invert: bool) -> Seq<
    Seq<Seq<char>>,
>
    decreases counters.len(),
{
    if counters.len() == 0 {
        seq![]
    } else if counters.last().inverted {
        coverage_rows(counters.drop_last(), buffer, invert)
    } else {
        coverage_rows(counters.drop_last(), buffer, invert).push(
            coverage_row(
                counters.last(),
                coverage_pair(buffer, counters.last().index as int, invert),
            ),
        )
    }
}

/// The number of counters that are not inverted and were seen both true and
/// false.
pub open spec fn covered_count(counters: Seq<Coverage>, buffer: Seq<u8>, invert: bool) -> nat
    decreases counters.len(),
{
    if counters.len() == 0 {
        0
    } else {
        let seen = coverage_pair(buffer, counters.last().index as int, invert);
        covered_count(counters.drop_last(), buffer, invert) + if !counters.last().inverted
            && seen.0 && seen.1 {
            1nat
        } else {
            0nat
        }
    }
}

/// Whether every counter that is not inverted can be read, with its twin,
/// from a coverage buffer of `coverage_bytes` bytes.
pub open spec fn all_addressable(counters: Seq<Coverage>, coverage_bytes: nat) -> bool {
    forall|i: int|
        0 <= i < counters.len() && !(#[trigger] counters[i]).inverted ==> addressable(
            counters[i].index as int,
            coverage_bytes,
        )
}

/// The coverage table and the number of covered signals.
#[derive(Clone, Debug, PartialEq, Eq)]
pub struct CoverageTable {
    pub rows: Vec<Vec<String>>,
    pub covered: usize,
}

/// Whether every counter of `data` that is not inverted can be read, with
/// its twin, from a coverage buffer of the layout `size`.
pub fn coverage_addressable(data: &ConfigData, size: TestSize) -> (fine: bool)
    ensures
        fine == all_addressable(data.coverage@, size.coverage as nat),
{
    let mut i: usize = 0;
    while i < data.coverage.len()
        invariant
            i <= data.coverage.len(),
            all_addressable(data.coverage@.take(i as int), size.coverage as nat),
        decreases data.coverage.len() - i,
    {
        let counter = &data.coverage[i];
        if !counter.inverted && !is_addressable(counter, size) {
            return false;
        }
        assert forall|j: int|
            0 <= j < i + 1 && !(#[trigger] data.coverage@.take(i + 1)[j]).inverted implies addressable(
            data.coverage@.take(i + 1)[j].index as int,
            size.coverage as nat,
        ) by {
            if j < i {
                assert(data.coverage@.take(i as int)[j] == data.coverage@[j]);
            }
        }
        i = i + 1;
    }
    assert(data.coverage@.take(i as int) =~= data.coverage@);
    true
}

/// The cell that marks what holds.
fn mark_cell(holds: bool) -> (cell: String)
    ensures
        cell@ == mark(holds),
{
    proof {
        reveal_strlit("X");
    }
    let cell = if holds {
        String::from_str("X")
    } else {
        String::new()
    };
    assert(cell@ =~= mark(holds));
    cell
}

/// The head of the coverage table.
fn coverage_head_row() -> (row: Vec<String>)
    ensures
        row_text(row) == coverage_head(),
{
    let mut row: Vec<String> = Vec::new();
    row.push(String::from_str("C?"));
    row.push(String::from_str("T?"));
    row.push(String::from_str("F?"));
    row.push(String::from_str("name"));
    row.push(String::from_str("expression"));
    row.push(String::from_str("source location"));
    assert(row_text(row) =~= coverage_head());
    row
}

/// The row of a counter in the coverage table.
fn coverage_counter_row(counter: &Coverage, seen: (bool, bool)) -> (row: Vec<String>)
    ensures
        row_text(row) == coverage_row(*counter, seen),
{
    let mut location = counter.filename.clone();
    proof {
        reveal_strlit(":");
    }
    location.append(":");
    push_signed_decimal(&mut location, counter.line);
    assert(location@ =~= source_location(*counter));
    let mut row: Vec<String> = Vec::new();
    row.push(mark_cell(seen.0 && seen.1));
    row.push(mark_cell(seen.0));
    row.push(mark_cell(seen.1));
    row.push(counter.name.clone());
    row.push(counter.human.clone());
    row.push(location);
    assert(row_text(row) =~= coverage_row(*counter, seen));
    row
}

/// The table of the coverage in `buffer`: a head, then a row for each counter
/// that is not inverted, and with it the number of counters that were seen
/// both true and false. With `invert` the buffer is read in its complement.
/// A buffer that has not the size of the layout is rejected.
pub fn coverage_table(data: &ConfigData, size: TestSize, buffer: &[u8], invert: bool) -> (table:
    Result<CoverageTable, ConfigError>)
    requires
        buffer.len() == size.coverage ==> all_addressable(data.coverage@, size.coverage as nat),
    ensures
        match table {
            Ok(found) => buffer.len() == size.coverage && cells_of(found.rows) == seq![
                coverage_head(),
            ] + coverage_rows(data.coverage@, buffer@, invert) && found.covered == covered_count(
                data.coverage@,
                buffer@,
                invert,
            ),
            Err(e) => buffer.len() != size.coverage && e
                == (ConfigError::CoverageBufferSizeMismatch {
                expected: size.coverage,
                actual: buffer.len(),
            }),
        },
{
    if buffer.len() != size.coverage {
        return Err(
            ConfigError::CoverageBufferSizeMismatch {
                expected: size.coverage,
                actual: buffer.len(),
            },
        );
    }
    let mut rows: Vec<Vec<String>> = Vec::new();
    rows.push(coverage_head_row());
    let mut covered: usize = 0;
    let mut i: usize = 0;
    while i < data.coverage.len()
        invariant
            i <= data.coverage.len(),
            buffer.len() == size.coverage,
            all_addressable(data.coverage@, size.coverage as nat),
            covered == covered_count(data.coverage@.take(i as int), buffer@, invert),
            covered <= i,
            cells_of(rows) == seq![coverage_head()] + coverage_rows(
                data.coverage@.take(i as int),
                buffer@,
                invert,
            ),
        decreases data.coverage.len() - i,
    {
        let counter = &data.coverage[i];
        let ghost before = cells_of(rows);
        assert(data.coverage@.take(i + 1).drop_last() =~= data.coverage@.take(i as int));
        assert(data.coverage@.take(i + 1).last() == data.coverage@[i as int]);
        if !counter.inverted {
            let seen = match read_coverage_pair(buffer, size, counter, invert) {
                Ok(seen) => seen,
                Err(e) => {
                    return Err(e);
                },
            };
            rows.push(coverage_counter_row(counter, seen));
            if seen.0 && seen.1 {
                covered = covered + 1;
            }
            assert(cells_of(rows) =~= before.push(coverage_row(*counter, seen)));
        }
        i = i + 1;
    }
    assert(data.coverage@.take(i as int) =~= data.coverage@);
    Ok(CoverageTable { rows, covered })
}

/// The lines that sum up a descriptor and its layout, with `module` for the
/// name of the module as it is to be shown.
pub open spec fn header_lines(data: ConfigData, size: TestSize, module: Seq<char>) -> Seq<
    Seq<char>,
> {
    seq![
        "Fuzzing "@ + module,
        "Instrumented on:   "@ + data.general.timestamp@,
        "Coverage Signals:  "@ + decimal_text(data.coverage@.len() / 2),
        "Input Fields:      "@ + decimal_text(data.input@.len()),
        "Total Input Width: "@ + decimal_text(data.spec_input_bits()),
        "Allocated Bytes per Input:    "@ + decimal_text(size.input as nat),
        "Allocated Bytes for Coverage: "@ + decimal_text(size.coverage as nat),
    ]
}

/// A label with the number that it names.
fn numbered(label: &str, n: u128) -> (line: String)
    ensures
        line@ == label@ + decimal_text(n as nat),
{
    let mut line = String::from_str(label);
    push_decimal(&mut line, n);
    line
}

/// The lines that sum up a descriptor and its layout: the module, when it
/// was instrumented, the numbers of coverage signals and of input fields, the
/// input bits of a cycle, and the bytes of the two buffers. The module is
/// shown as `module`, which is its name in the style that the caller chose.
pub fn header(data: &ConfigData, size: TestSize, module: &str) -> (lines: Vec<String>)
    ensures
        row_text(lines) == header_lines(*data, size, module@),
{
    let mut lines: Vec<String> = Vec::new();
    lines.push(String::from_str("Fuzzing ").concat(module));
    lines.push(String::from_str("Instrumented on:   ").concat(data.general.timestamp.as_str()));
    lines.push(numbered("Coverage Signals:  ", (data.coverage.len() / 2) as u128));
    lines.push(numbered("Input Fields:      ", data.input.len() as u128));
    lines.push(numbered("Total Input Width: ", data.input_bits()));
    lines.push(numbered("Allocated Bytes per Input:    ", size.input as u128));
    lines.push(numbered("Allocated Bytes for Coverage: ", size.coverage as u128));
    assert(row_text(lines) =~= header_lines(*data, size, module@));
    lines
}

} // verus!
