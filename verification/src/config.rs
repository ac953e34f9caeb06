//! A descriptor together with its layout, checked once and then only read.

use vstd::prelude::*;
use crate::error::ConfigError;
use crate::layout::{aligned_bytes, lemma_aligned_bytes_least, to_bytes};
use crate::bits::whole_cycles;
use crate::model::{ConfigData, TestSize};
use crate::render::bold;
use crate::report::{
    CoverageTable, all_addressable, cells_of, coverage_addressable, coverage_head, coverage_rows,
    coverage_table, covered_count, header, header_lines, input_rows, input_table, row_text,
};
use crate::validate::{
    check_counter_widths, check_coverage_size, check_input_size, check_pairing,
    first_pairing_fault, first_width_fault, lemma_pairing_check, violations,
};

verus! {

/// A descriptor and a layout that passed every check.
#[derive(Debug)]
pub struct Config {
    size: TestSize,
    data: ConfigData,
}

/// Whether the layout of `data` for words of `word_size` bytes can be
/// addressed: the descriptor declares no negative number of coverage bits, and
/// both byte counts fit into a `usize`.
pub open spec fn layout_fits(word_size: nat, data: ConfigData) -> bool {
    &&& data.spec_coverage_bits() >= 0
    &&& aligned_bytes(word_size, data.spec_input_bits()) <= usize::MAX
    &&& aligned_bytes(word_size, data.spec_coverage_bits() as nat) <= usize::MAX
}

/// The layout of `data` for words of `word_size` bytes.
pub open spec fn layout_of(word_size: nat, data: ConfigData) -> TestSize {
    TestSize {
        input: aligned_bytes(word_size, data.spec_input_bits()) as usize,
        coverage: aligned_bytes(word_size, data.spec_coverage_bits() as nat) as usize,
    }
}

/// Why a descriptor cannot be loaded for words of `word_size` bytes: what its
/// counters or their pairing lack, or else that its layout cannot be
/// addressed.
pub open spec fn load_fault(word_size: nat, data: ConfigData) -> Option<ConfigError> {
    if first_width_fault(data.coverage@, data.coverage@.len()) is Some {
        first_width_fault(data.coverage@, data.coverage@.len())
    } else if first_pairing_fault(data.coverage@, data.coverage@.len()) is Some {
        first_pairing_fault(data.coverage@, data.coverage@.len())
    } else if !layout_fits(word_size, data) {
        Some(ConfigError::LayoutOverflow)
    } else {
        None
    }
}

/// The layout that is derived from a descriptor holds its bits: the size
/// checks never fail on it.
pub proof fn lemma_derived_layout_holds(word_size: nat, data: ConfigData)
    requires
        word_size >= 1,
        layout_fits(word_size, data),
    ensures
        data.spec_input_bits() <= layout_of(word_size, data).input * 8,
        data.spec_coverage_bits() <= layout_of(word_size, data).coverage * 8,
        layout_of(word_size, data).input as int % word_size as int == 0,
        layout_of(word_size, data).coverage as int % word_size as int == 0,
{
    lemma_aligned_bytes_least(word_size, data.spec_input_bits(), 0);
    lemma_aligned_bytes_least(word_size, data.spec_coverage_bits() as nat, 0);
}

impl Config {
    /// The descriptor.
    pub closed spec fn data(&self) -> ConfigData {
        self.data
    }

    /// The layout.
    pub closed spec fn size(&self) -> TestSize {
        self.size
    }

    /// What holds of every value of this type: no check has anything to
    /// complain about.
    #[verifier::type_invariant]
    pub open spec fn well_formed(&self) -> bool {
        violations(self.data(), self.size()).len() == 0
    }

    /// The layout of `data` for words of `word_size` bytes, where it can be
    /// addressed.
    pub fn determine_test_size(word_size: usize, data: &ConfigData) -> (size: Option<TestSize>)
        requires
            word_size >= 1,
        ensures
            size == if layout_fits(word_size as nat, *data) {
                Some(layout_of(word_size as nat, *data))
            } else {
                None
            },
    {
        let coverage_bits = data.coverage_bits();
        if coverage_bits < 0 {
            return None;
        }
        match (to_bytes(word_size, data.input_bits()), to_bytes(word_size, coverage_bits as u128)) {
            (Some(input), Some(coverage)) => Some(TestSize { input, coverage }),
            _ => None,
        }
    }

    /// Everything that is wrong with `data` and the layout `size`, in the
    /// order of the checks.
    pub fn violations(data: &ConfigData, size: TestSize) -> (found: Vec<ConfigError>)
        ensures
            found@ == violations(*data, size),
    {
        let mut found: Vec<ConfigError> = Vec::new();
        if let Some(e) = check_counter_widths(data) {
            found.push(e);
        }
        if let Some(e) = check_pairing(data) {
            found.push(e);
        }
        if let Some(e) = check_input_size(data, size) {
            found.push(e);
        }
        if let Some(e) = check_coverage_size(data, size) {
            found.push(e);
        }
        assert(found@ =~= violations(*data, size));
        found
    }

    /// Checks `data` against the layout `size`: the first complaint, if there
    /// is one.
    pub fn validate(data: &ConfigData, size: TestSize) -> (checked: Result<(), ConfigError>)
        ensures
            checked == if violations(*data, size).len() == 0 {
                Ok::<(), ConfigError>(())
            } else {
                Err::<(), ConfigError>(violations(*data, size)[0])
            },
    {
        if let Some(e) = check_counter_widths(data) {
            return Err(e);
        }
        if let Some(e) = check_pairing(data) {
            return Err(e);
        }
        if let Some(e) = check_input_size(data, size) {
            return Err(e);
        }
        if let Some(e) = check_coverage_size(data, size) {
            return Err(e);
        }
        Ok(())
    }

    /// A descriptor with a layout that was chosen by hand, if the two pass
    /// the checks.
    pub fn with_size(size: TestSize, data: ConfigData) -> (made: Result<Config, ConfigError>)
        ensures
            match made {
                Ok(config) => violations(data, size).len() == 0 && config.data() == data
                    && config.size() == size && config.well_formed(),
                Err(e) => violations(data, size).len() > 0 && e == violations(data, size)[0],
            },
    {
        match Config::validate(&data, size) {
            Ok(()) => Ok(Config { size, data }),
            Err(e) => Err(e),
        }
    }

    /// A descriptor with the layout that is derived from it for words of
    /// `word_size` bytes.
    pub fn from_file(word_size: usize, data: ConfigData) -> (made: Result<Config, ConfigError>)
        requires
            word_size >= 1,
        ensures
            match made {
                Ok(config) => load_fault(word_size as nat, data) is None && config.data() == data
                    && config.size() == layout_of(word_size as nat, data) && config.well_formed(),
                Err(e) => load_fault(word_size as nat, data) == Some(e),
            },
    {
        if let Some(e) = check_counter_widths(&data) {
            return Err(e);
        }
        if let Some(e) = check_pairing(&data) {
            return Err(e);
        }
        match Config::determine_test_size(word_size, &data) {
            Some(size) => {
                proof {
                    lemma_derived_layout_holds(word_size as nat, data);
                }
                Ok(Config { size, data })
            },
            None => Err(ConfigError::LayoutOverflow),
        }
    }

    /// The layout.
    pub fn get_test_size(&self) -> (size: TestSize)
        ensures
            size == self.size(),
            self.well_formed(),
    {
        proof {
            use_type_invariant(self);
        }
        self.size
    }

    /// The input fields in their order, each with its name and its width.
    pub fn get_inputs(&self) -> (fields: Vec<(String, u32)>)
        ensures
            fields@.len() == self.data().input@.len(),
            forall|i: int|
                0 <= i < fields@.len() ==> (#[trigger] fields@[i]).0@ == self.data().input@[i].name@
                    && fields@[i].1 == self.data().input@[i].width,
    {
        let mut fields: Vec<(String, u32)> = Vec::with_capacity(self.data.input.len());
        let mut i: usize = 0;
        while i < self.data.input.len()
            invariant
                i <= self.data.input.len(),
                fields@.len() == i,
                forall|j: int|
                    0 <= j < i ==> (#[trigger] fields@[j]).0@ == self.data.input@[j].name@
                        && fields@[j].1 == self.data.input@[j].width,
            decreases self.data.input.len() - i,
        {
            let field = &self.data.input[i];
            fields.push((field.name.clone(), field.width));
            i = i + 1;
        }
        fields
    }

    /// The number of coverage signals: each is a counter and its inverted
    /// twin.
    pub fn coverage_signal_count(&self) -> (count: usize)
        ensures
            count * 2 == self.data().coverage@.len(),
    {
        proof {
            use_type_invariant(self);
            lemma_pairing_check(self.data.coverage@);
        }
        self.data.coverage.len() / 2
    }
}

impl Config {
    /// The lines that sum up the descriptor and its layout, with the name
    /// of the module in bold, as far as the terminal shows that.
    pub fn print_header(&self) -> (lines: Vec<String>)
        ensures
            exists|module: Seq<char>|
                row_text(lines) == #[trigger] header_lines(self.data(), self.size(), module),
    {
        let module = bold(self.data.general.module.as_str());
        let lines = header(&self.data, self.size, module.as_str());
        assert(row_text(lines) == header_lines(self.data(), self.size(), module@));
        lines
    }

    /// The table of the inputs in `inputs`: a head, then a row for each
    /// cycle with the bits of each field. A buffer that is not a whole
    /// number of cycles is rejected.
    pub fn print_inputs(&self, inputs: &[u8]) -> (table: Result<Vec<Vec<String>>, ConfigError>)
        ensures
            match table {
                Ok(rows) => whole_cycles(inputs@.len(), self.size().input as nat) && cells_of(rows)
                    == input_table(self.data().input@, inputs@, self.size().input as nat),
                Err(e) => !whole_cycles(inputs@.len(), self.size().input as nat) && e
                    == (ConfigError::InputBufferSizeMismatch {
                    cycle_bytes: self.size().input,
                    actual: inputs.len(),
                }),
            },
    {
        proof {
            use_type_invariant(self);
        }
        input_rows(&self.data, self.size, inputs)
    }

    /// Whether every counter that is not inverted can be read, with its
    /// twin, from a coverage buffer of the layout.
    pub fn coverage_addressable(&self) -> (fine: bool)
        ensures
            fine == all_addressable(self.data().coverage@, self.size().coverage as nat),
    {
        coverage_addressable(&self.data, self.size)
    }

    /// The table of the coverage in `coverage`: a head, then a row for each
    /// counter that is not inverted, and the number of counters that were
    /// seen both true and false. With `inverted` the buffer is read in its
    /// complement. A buffer that has not the size of the layout is rejected.
    pub fn print_coverage(&self, coverage: &[u8], inverted: bool) -> (table: Result<
        CoverageTable,
        ConfigError,
    >)
        requires
            coverage.len() == self.size().coverage ==> all_addressable(
                self.data().coverage@,
                self.size().coverage as nat,
            ),
        ensures
            match table {
                Ok(found) => coverage.len() == self.size().coverage && cells_of(found.rows)
                    == seq![coverage_head()] + coverage_rows(
                    self.data().coverage@,
                    coverage@,
                    inverted,
                ) && found.covered == covered_count(self.data().coverage@, coverage@, inverted),
                Err(e) => coverage.len() != self.size().coverage && e
                    == (ConfigError::CoverageBufferSizeMismatch {
                    expected: self.size().coverage,
                    actual: coverage.len(),
                }),
            },
    {
        coverage_table(&self.data, self.size, coverage, inverted)
    }
}

} // verus!
