use fuzz_config::config::Config;
use fuzz_config::error::{ConfigError, PairingFault};
use fuzz_config::model::{ConfigData, Coverage, General, Input, TestSize};
use fuzz_config::validate::{
    check_adjacency, check_counter_widths, check_coverage_size, check_input_size, check_pairing,
};

fn about() -> General {
    General {
        filename: String::from("gcd.fir"),
        instrumented: String::from("gcd.lo.fir"),
        module: String::from("gcd"),
        timestamp: String::from("2018-06-01T10:00:00Z"),
    }
}

fn entry(name: &str, inverted: bool, index: i32, counterbits: i32) -> Coverage {
    Coverage {
        name: String::from(name),
        inverted,
        index,
        counterbits,
        filename: String::from("gcd.scala"),
        line: 12,
        column: 3,
        human: String::from("x > y"),
    }
}

fn descriptor(coverage: Vec<Coverage>, widths: &[u32]) -> ConfigData {
    let mut input = Vec::new();
    for (k, width) in widths.iter().enumerate() {
        input.push(Input { name: format!("f{}", k), width: *width });
    }
    ConfigData { general: about(), coverage, input }
}

const ROOMY: TestSize = TestSize { input: 64, coverage: 64 };

#[test]
fn accepts_one_pair() {
    let data = descriptor(vec![entry("a", false, 0, 1), entry("a", true, 1, 1)], &[10]);
    assert_eq!(Config::validate(&data, TestSize { input: 4, coverage: 4 }), Ok(()));
    assert!(Config::violations(&data, TestSize { input: 4, coverage: 4 }).is_empty());
    assert!(Config::from_file(4, data).is_ok());
}

#[test]
fn accepts_an_empty_descriptor() {
    let data = descriptor(vec![], &[]);
    assert_eq!(Config::validate(&data, TestSize { input: 0, coverage: 0 }), Ok(()));
    let config = Config::from_file(4, data).unwrap();
    assert_eq!(config.coverage_signal_count(), 0);
}

#[test]
fn rejects_an_odd_number_of_entries() {
    let data = descriptor(
        vec![entry("a", false, 0, 1), entry("a", true, 1, 1), entry("b", false, 2, 1)],
        &[10],
    );
    let fault = ConfigError::MalformedCoveragePairing {
        position: 2,
        fault: PairingFault::Unpaired,
    };
    assert_eq!(Config::validate(&data, ROOMY), Err(fault));
    assert_eq!(Config::from_file(4, data).err(), Some(fault));
}

#[test]
fn rejects_a_single_entry() {
    let data = descriptor(vec![entry("a", false, 0, 1)], &[]);
    assert_eq!(
        Config::validate(&data, ROOMY),
        Err(ConfigError::MalformedCoveragePairing { position: 0, fault: PairingFault::Unpaired })
    );
}

#[test]
fn rejects_a_counter_of_two_bits() {
    let data = descriptor(vec![entry("a", false, 0, 1), entry("a", true, 1, 2)], &[10]);
    let fault = ConfigError::UnsupportedCounterWidth { position: 1, counter_bits: 2 };
    assert_eq!(Config::validate(&data, ROOMY), Err(fault));
    assert_eq!(Config::from_file(4, data).err(), Some(fault));
}

#[test]
fn reports_the_first_counter_that_is_too_wide() {
    let data = descriptor(
        vec![
            entry("a", false, 0, 1),
            entry("a", true, 1, 0),
            entry("b", false, 2, 7),
            entry("b", true, 3, 1),
        ],
        &[],
    );
    assert_eq!(
        Config::validate(&data, ROOMY),
        Err(ConfigError::UnsupportedCounterWidth { position: 1, counter_bits: 0 })
    );
}

#[test]
fn rejects_a_twin_of_another_name() {
    let data = descriptor(vec![entry("a", false, 0, 1), entry("b", true, 1, 1)], &[10]);
    let fault = ConfigError::MalformedCoveragePairing {
        position: 1,
        fault: PairingFault::NameMismatch,
    };
    assert_eq!(Config::validate(&data, ROOMY), Err(fault));
    assert_eq!(Config::from_file(4, data).err(), Some(fault));
}

#[test]
fn rejects_a_twin_that_is_not_inverted() {
    let data = descriptor(vec![entry("a", false, 0, 1), entry("a", false, 1, 1)], &[]);
    assert_eq!(
        Config::validate(&data, ROOMY),
        Err(ConfigError::MalformedCoveragePairing {
            position: 1,
            fault: PairingFault::MissingInverted,
        })
    );
}

#[test]
fn rejects_an_inverted_counter_out_of_sequence() {
    let data = descriptor(
        vec![
            entry("a", false, 0, 1),
            entry("a", true, 1, 1),
            entry("b", true, 2, 1),
            entry("b", false, 3, 1),
        ],
        &[],
    );
    assert_eq!(
        Config::validate(&data, ROOMY),
        Err(ConfigError::MalformedCoveragePairing {
            position: 2,
            fault: PairingFault::UnexpectedInverted,
        })
    );
}

#[test]
fn a_name_mismatch_comes_before_a_missing_mark() {
    let data = descriptor(vec![entry("a", false, 0, 1), entry("b", false, 1, 1)], &[]);
    assert_eq!(
        Config::validate(&data, ROOMY),
        Err(ConfigError::MalformedCoveragePairing {
            position: 1,
            fault: PairingFault::NameMismatch,
        })
    );
}

#[test]
fn rejects_an_input_layout_that_is_too_small() {
    let data = descriptor(vec![entry("a", false, 0, 1), entry("a", true, 1, 1)], &[10, 7]);
    let size = TestSize { input: 2, coverage: 4 };
    let fault = ConfigError::InputLayoutTooSmall { needed_bits: 17, available_bits: 16 };
    assert_eq!(Config::validate(&data, size), Err(fault));
    assert_eq!(Config::with_size(size, data).err(), Some(fault));
}

#[test]
fn accepts_an_input_layout_that_is_just_large_enough() {
    let data = descriptor(vec![], &[10, 6]);
    assert_eq!(Config::validate(&data, TestSize { input: 2, coverage: 0 }), Ok(()));
}

#[test]
fn rejects_a_coverage_layout_that_is_too_small() {
    let mut coverage = Vec::new();
    for k in 0..5 {
        coverage.push(entry("c", false, 2 * k, 1));
        coverage.push(entry("c", true, 2 * k + 1, 1));
    }
    let data = descriptor(coverage, &[8]);
    let size = TestSize { input: 1, coverage: 1 };
    assert_eq!(
        Config::validate(&data, size),
        Err(ConfigError::CoverageLayoutTooSmall { needed_bits: 10, available_bits: 8 })
    );
}

#[test]
fn collects_one_complaint_of_each_check() {
    let data = descriptor(
        vec![entry("a", false, 0, 1), entry("b", true, 1, 9), entry("c", false, 2, 1)],
        &[9],
    );
    let size = TestSize { input: 1, coverage: 1 };
    assert_eq!(
        Config::violations(&data, size),
        vec![
            ConfigError::UnsupportedCounterWidth { position: 1, counter_bits: 9 },
            ConfigError::MalformedCoveragePairing {
                position: 1,
                fault: PairingFault::NameMismatch,
            },
            ConfigError::InputLayoutTooSmall { needed_bits: 9, available_bits: 8 },
            ConfigError::CoverageLayoutTooSmall { needed_bits: 11, available_bits: 8 },
        ]
    );
    assert_eq!(
        Config::validate(&data, size),
        Err(ConfigError::UnsupportedCounterWidth { position: 1, counter_bits: 9 })
    );
}

#[test]
fn a_layout_chosen_by_hand_is_kept() {
    let data = descriptor(vec![entry("a", false, 0, 1), entry("a", true, 1, 1)], &[3]);
    let size = TestSize { input: 5, coverage: 7 };
    let config = Config::with_size(size, data).unwrap();
    assert_eq!(config.get_test_size(), size);
    assert_eq!(config.coverage_signal_count(), 1);
    assert_eq!(config.get_inputs(), vec![(String::from("f0"), 3)]);
}

#[test]
fn signals_are_counted_in_pairs() {
    let mut coverage = Vec::new();
    for k in 0..3 {
        coverage.push(entry("c", false, 2 * k, 1));
        coverage.push(entry("c", true, 2 * k + 1, 1));
    }
    let config = Config::from_file(4, descriptor(coverage, &[1, 2, 3])).unwrap();
    assert_eq!(config.coverage_signal_count(), 3);
    assert_eq!(
        config.get_inputs(),
        vec![(String::from("f0"), 1), (String::from("f1"), 2), (String::from("f2"), 3)]
    );
}

#[test]
fn each_check_answers_for_itself() {
    let data = descriptor(vec![entry("a", false, 0, 1), entry("a", true, 1, 1)], &[12]);
    assert_eq!(check_counter_widths(&data), None);
    assert_eq!(check_pairing(&data), None);
    assert_eq!(check_input_size(&data, TestSize { input: 2, coverage: 0 }), None);
    assert_eq!(
        check_input_size(&data, TestSize { input: 1, coverage: 0 }),
        Some(ConfigError::InputLayoutTooSmall { needed_bits: 12, available_bits: 8 })
    );
    assert_eq!(check_coverage_size(&data, TestSize { input: 0, coverage: 1 }), None);
    assert_eq!(
        check_coverage_size(&data, TestSize { input: 0, coverage: 0 }),
        Some(ConfigError::CoverageLayoutTooSmall { needed_bits: 2, available_bits: 0 })
    );
}

#[test]
fn negative_coverage_bits_fit_into_any_layout() {
    let data = descriptor(vec![entry("a", false, 0, -5), entry("a", true, 1, 1)], &[]);
    assert_eq!(check_coverage_size(&data, TestSize { input: 0, coverage: 0 }), None);
    assert_eq!(
        Config::from_file(4, data).err(),
        Some(ConfigError::UnsupportedCounterWidth { position: 0, counter_bits: -5 })
    );
}

#[test]
fn twins_stand_behind_their_counters() {
    let near = descriptor(
        vec![
            entry("a", false, 0, 1),
            entry("a", true, 1, 1),
            entry("b", false, 4, 1),
            entry("b", true, 5, 1),
        ],
        &[],
    );
    assert!(check_adjacency(&near));
    let far = descriptor(
        vec![
            entry("a", false, 0, 1),
            entry("a", true, 1, 1),
            entry("b", false, 4, 1),
            entry("b", true, 3, 1),
        ],
        &[],
    );
    assert!(!check_adjacency(&far));
    let last = descriptor(vec![entry("a", false, i32::MAX, 1), entry("a", true, 0, 1)], &[]);
    assert!(!check_adjacency(&last));
    assert!(check_adjacency(&descriptor(vec![entry("a", false, 9, 1)], &[])));
}
