//! The checks that a descriptor and its layout have to pass.

use vstd::prelude::*;
use crate::error::{ConfigError, PairingFault};
use crate::model::{ConfigData, Coverage, TestSize};

verus! {

/// The first counter among the first `n` whose width is not one bit.
pub open spec fn first_width_fault(counters: Seq<Coverage>, n: nat) -> Option<ConfigError>
    decreases n,
{
    if n == 0 {
        None
    } else if first_width_fault(counters, (n - 1) as nat) is Some {
        first_width_fault(counters, (n - 1) as nat)
    } else if counters[n - 1].counterbits != 1 {
        Some(
            ConfigError::UnsupportedCounterWidth {
                position: (n - 1) as usize,
                counter_bits: counters[n - 1].counterbits,
            },
        )
    } else {
        None
    }
}

/// How the entry at position `i` breaks the pairing, if it does.
pub open spec fn pairing_fault_at(counters: Seq<Coverage>, i: int) -> Option<PairingFault> {
    if i % 2 == 0 {
        if counters[i].inverted {
            Some(PairingFault::UnexpectedInverted)
        } else if i + 1 == counters.len() {
            Some(PairingFault::Unpaired)
        } else {
            None
        }
    } else {
        if counters[i].name@ != counters[i - 1].name@ {
            Some(PairingFault::NameMismatch)
        } else if !counters[i].inverted {
            Some(PairingFault::MissingInverted)
        } else {
            None
        }
    }
}

/// The first entry among the first `n` that breaks the pairing.
pub open spec fn first_pairing_fault(counters: Seq<Coverage>, n: nat) -> Option<ConfigError>
    decreases n,
{
    if n == 0 {
        None
    } else if first_pairing_fault(counters, (n - 1) as nat) is Some {
        first_pairing_fault(counters, (n - 1) as nat)
    } else {
        match pairing_fault_at(counters, n - 1) {
            Some(fault) => Some(
                ConfigError::MalformedCoveragePairing { position: (n - 1) as usize, fault },
            ),
            None => None,
        }
    }
}

/// Every counter is one bit wide.
pub open spec fn one_bit_counters(counters: Seq<Coverage>) -> bool {
    forall|i: int| 0 <= i < counters.len() ==> (#[trigger] counters[i]).counterbits == 1
}

/// The list is made of pairs: a counter that is not inverted, then an
/// inverted one of the same name.
pub open spec fn well_paired(counters: Seq<Coverage>) -> bool {
    &&& counters.len() % 2 == 0
    &&& forall|k: int|
        0 <= k < counters.len() / 2 ==> {
            &&& !(#[trigger] counters[2 * k]).inverted
            &&& counters[2 * k + 1].inverted
            &&& counters[2 * k + 1].name@ == counters[2 * k].name@
        }
}

/// Each inverted counter has the index behind that of the counter before
/// it. No check asks for this; the coverage table relies on it.
pub open spec fn twins_adjacent(counters: Seq<Coverage>) -> bool {
    forall|k: int|
        0 <= k < counters.len() / 2 ==> (#[trigger] counters[2 * k + 1]).index == counters[2
            * k].index + 1
}

/// The complaint that the input fields do not fit into the layout.
pub open spec fn input_size_fault(data: ConfigData, size: TestSize) -> Option<ConfigError> {
    if data.spec_input_bits() <= size.input * 8 {
        None
    } else {
        Some(
            ConfigError::InputLayoutTooSmall {
                needed_bits: data.spec_input_bits() as u128,
                available_bits: (size.input * 8) as u128,
            },
        )
    }
}

/// The complaint that the coverage counters do not fit into the layout.
pub open spec fn coverage_size_fault(data: ConfigData, size: TestSize) -> Option<ConfigError> {
    if data.spec_coverage_bits() <= size.coverage * 8 {
        None
    } else {
        Some(
            ConfigError::CoverageLayoutTooSmall {
                needed_bits: data.spec_coverage_bits() as u128,
                available_bits: (size.coverage * 8) as u128,
            },
        )
    }
}

/// A complaint as a list of none or one.
pub open spec fn listed(fault: Option<ConfigError>) -> Seq<ConfigError> {
    match fault {
        Some(e) => seq![e],
        None => seq![],
    }
}

/// Everything that is wrong with a descriptor and its layout: at most one
/// complaint of each check, in the order of the checks.
pub open spec fn violations(data: ConfigData, size: TestSize) -> Seq<ConfigError> {
    listed(first_width_fault(data.coverage@, data.coverage@.len()))
        + listed(first_pairing_fault(data.coverage@, data.coverage@.len()))
        + listed(input_size_fault(data, size))
        + listed(coverage_size_fault(data, size))
}

/// The first counter whose width is not one bit.
pub fn check_counter_widths(data: &ConfigData) -> (fault: Option<ConfigError>)
    ensures
        fault == first_width_fault(data.coverage@, data.coverage@.len()),
{
    let mut i: usize = 0;
    while i < data.coverage.len()
        invariant
            i <= data.coverage.len(),
            first_width_fault(data.coverage@, i as nat) is None,
        decreases data.coverage.len() - i,
    {
        if data.coverage[i].counterbits != 1 {
            let fault = Some(
                ConfigError::UnsupportedCounterWidth {
                    position: i,
                    counter_bits: data.coverage[i].counterbits,
                },
            );
            proof {
                lemma_width_fault_stays(data.coverage@, (i + 1) as nat, data.coverage@.len());
            }
            return fault;
        }
        i = i + 1;
    }
    None
}

/// The first entry of the coverage list that breaks the pairing.
pub fn check_pairing(data: &ConfigData) -> (fault: Option<ConfigError>)
    ensures
        fault == first_pairing_fault(data.coverage@, data.coverage@.len()),
{
    let n = data.coverage.len();
    let mut i: usize = 0;
    while i < n
        invariant
            n == data.coverage.len(),
            i <= n,
            first_pairing_fault(data.coverage@, i as nat) is None,
        decreases n - i,
    {
        let entry = &data.coverage[i];
        let fault = if i % 2 == 0 {
            if entry.inverted {
                Some(PairingFault::UnexpectedInverted)
            } else if i + 1 == n {
                Some(PairingFault::Unpaired)
            } else {
                None
            }
        } else {
            if entry.name != data.coverage[i - 1].name {
                Some(PairingFault::NameMismatch)
            } else if !entry.inverted {
                Some(PairingFault::MissingInverted)
            } else {
                None
            }
        };
        assert(fault == pairing_fault_at(data.coverage@, i as int));
        if let Some(fault) = fault {
            proof {
                lemma_pairing_fault_stays(data.coverage@, (i + 1) as nat, data.coverage@.len());
            }
            return Some(ConfigError::MalformedCoveragePairing { position: i, fault });
        }
        i = i + 1;
    }
    None
}

/// Whether the input fields fit into the input bytes of the layout.
pub fn check_input_size(data: &ConfigData, size: TestSize) -> (fault: Option<ConfigError>)
    ensures
        fault == input_size_fault(*data, size),
{
    let needed_bits = data.input_bits();
    let available_bits: u128 = size.input as u128 * 8;
    if needed_bits <= available_bits {
        None
    } else {
        Some(ConfigError::InputLayoutTooSmall { needed_bits, available_bits })
    }
}

/// Whether the coverage counters fit into the coverage bytes of the layout.
pub fn check_coverage_size(data: &ConfigData, size: TestSize) -> (fault: Option<ConfigError>)
    ensures
        fault == coverage_size_fault(*data, size),
{
    let needed_bits = data.coverage_bits();
    let available_bits: u128 = size.coverage as u128 * 8;
    if needed_bits < 0 || needed_bits as u128 <= available_bits {
        None
    } else {
        Some(
            ConfigError::CoverageLayoutTooSmall {
                needed_bits: needed_bits as u128,
                available_bits,
            },
        )
    }
}

/// Whether each inverted counter has the index behind that of the counter
/// before it.
pub fn check_adjacency(data: &ConfigData) -> (fine: bool)
    ensures
        fine == twins_adjacent(data.coverage@),
{
    let n = data.coverage.len();
    let pairs = n / 2;
    let mut k: usize = 0;
    while k < pairs
        invariant
            k <= pairs,
            n == data.coverage@.len(),
            pairs == n / 2,
            forall|j: int|
                0 <= j < k ==> (#[trigger] data.coverage@[2 * j + 1]).index == data.coverage@[2
                    * j].index + 1,
        decreases pairs - k,
    {
        let normal = data.coverage[2 * k].index;
        let twin = data.coverage[2 * k + 1].index;
        if normal == i32::MAX || twin != normal + 1 {
            return false;
        }
        k = k + 1;
    }
    true
}

/// A width fault among the first `n` counters is the first one among the
/// first `m` too, for `m >= n`.
proof fn lemma_width_fault_stays(counters: Seq<Coverage>, n: nat, m: nat)
    requires
        n <= m,
        first_width_fault(counters, n) is Some,
    ensures
        first_width_fault(counters, m) == first_width_fault(counters, n),
    decreases m,
{
    if n < m {
        lemma_width_fault_stays(counters, n, (m - 1) as nat);
    }
}

/// A pairing fault among the first `n` entries is the first one among the
/// first `m` too, for `m >= n`.
proof fn lemma_pairing_fault_stays(counters: Seq<Coverage>, n: nat, m: nat)
    requires
        n <= m,
        first_pairing_fault(counters, n) is Some,
    ensures
        first_pairing_fault(counters, m) == first_pairing_fault(counters, n),
    decreases m,
{
    if n < m {
        lemma_pairing_fault_stays(counters, n, (m - 1) as nat);
    }
}

/// No counter among the first `n` is too wide exactly when the scan finds
/// none there.
proof fn lemma_no_width_fault(counters: Seq<Coverage>, n: nat)
    requires
        n <= counters.len(),
    ensures
        first_width_fault(counters, n) is None <==> forall|i: int|
            0 <= i < n ==> (#[trigger] counters[i]).counterbits == 1,
    decreases n,
{
    if n > 0 {
        lemma_no_width_fault(counters, (n - 1) as nat);
        if first_width_fault(counters, (n - 1) as nat) is None && counters[n - 1].counterbits
            == 1 {
            assert forall|i: int| 0 <= i < n implies (#[trigger] counters[i]).counterbits
                == 1 by {
                if i < n - 1 {
                }
            }
        }
    }
}

/// No entry among the first `n` breaks the pairing exactly when the scan
/// finds none there.
proof fn lemma_no_pairing_fault(counters: Seq<Coverage>, n: nat)
    requires
        n <= counters.len(),
    ensures
        first_pairing_fault(counters, n) is None <==> forall|i: int|
            0 <= i < n ==> (#[trigger] pairing_fault_at(counters, i)) is None,
    decreases n,
{
    if n > 0 {
        lemma_no_pairing_fault(counters, (n - 1) as nat);
        if first_pairing_fault(counters, (n - 1) as nat) is None && pairing_fault_at(
            counters,
            n - 1,
        ) is None {
            assert forall|i: int| 0 <= i < n implies (#[trigger] pairing_fault_at(
                counters,
                i,
            )) is None by {
                if i < n - 1 {
                }
            }
        }
    }
}

/// The width check passes exactly on the lists whose counters are all one
/// bit wide.
pub proof fn lemma_width_check(counters: Seq<Coverage>)
    ensures
        first_width_fault(counters, counters.len()) is None <==> one_bit_counters(counters),
{
    lemma_no_width_fault(counters, counters.len());
}

/// The pairing check passes exactly on the lists that are made of pairs. In
/// particular it fails on every list of odd length.
pub proof fn lemma_pairing_check(counters: Seq<Coverage>)
    ensures
        first_pairing_fault(counters, counters.len()) is None <==> well_paired(counters),
        counters.len() % 2 == 1 ==> first_pairing_fault(counters, counters.len()) is Some,
{
    let n = counters.len() as int;
    lemma_no_pairing_fault(counters, counters.len());
    if first_pairing_fault(counters, counters.len()) is None {
        if n % 2 == 1 {
            assert(pairing_fault_at(counters, n - 1) is None);
        }
        assert forall|k: int| 0 <= k < n / 2 implies {
            &&& !(#[trigger] counters[2 * k]).inverted
            &&& counters[2 * k + 1].inverted
            &&& counters[2 * k + 1].name@ == counters[2 * k].name@
        } by {
            assert(pairing_fault_at(counters, 2 * k) is None);
            assert(pairing_fault_at(counters, 2 * k + 1) is None);
        }
    }
    if well_paired(counters) {
        assert forall|i: int| 0 <= i < n implies (#[trigger] pairing_fault_at(
            counters,
            i,
        )) is None by {
            let k = i / 2;
            assert(!counters[2 * k].inverted);
            if i % 2 == 0 {
                assert(i == 2 * k);
            } else {
                assert(i == 2 * k + 1);
            }
        }
    }
}

/// A descriptor and a layout pass every check exactly when each counter is
/// one bit wide, the counters come in pairs, and the layout holds the input
/// bits and the coverage bits.
pub proof fn lemma_no_violations(data: ConfigData, size: TestSize)
    ensures
        violations(data, size).len() == 0 <==> {
            &&& one_bit_counters(data.coverage@)
            &&& well_paired(data.coverage@)
            &&& data.spec_input_bits() <= size.input * 8
            &&& data.spec_coverage_bits() <= size.coverage * 8
        },
{
    lemma_width_check(data.coverage@);
    lemma_pairing_check(data.coverage@);
}

/// The checks reject, whatever the layout, a coverage list of odd length, a
/// counter that is not one bit wide, and an entry at an odd position whose
/// name is not that of the entry before it.
pub proof fn lemma_checks_reject(data: ConfigData, size: TestSize, position: int)
    requires
        0 <= position < data.coverage@.len(),
    ensures
        data.coverage@.len() % 2 == 1 ==> violations(data, size).len() > 0,
        data.coverage@[position].counterbits != 1 ==> violations(data, size).len() > 0,
        position % 2 == 1 && data.coverage@[position].name@ != data.coverage@[position - 1].name@
            ==> violations(data, size).len() > 0,
{
    lemma_no_violations(data, size);
    if position % 2 == 1 && well_paired(data.coverage@) {
        let k = position / 2;
        assert(data.coverage@[2 * k + 1].name@ == data.coverage@[2 * k].name@);
    }
}

} // verus!
