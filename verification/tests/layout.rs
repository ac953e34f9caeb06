use fuzz_config::config::Config;
use fuzz_config::layout::to_bytes;
use fuzz_config::model::{ConfigData, Coverage, General, Input, TestSize};

fn general() -> General {
    General {
        filename: String::from("gcd.fir"),
        instrumented: String::from("gcd.lo.fir"),
        module: String::from("gcd"),
        timestamp: String::from("2018-06-01T10:00:00Z"),
    }
}

fn counter(name: &str, inverted: bool, index: i32) -> Coverage {
    Coverage {
        name: String::from(name),
        inverted,
        index,
        counterbits: 1,
        filename: String::from("gcd.scala"),
        line: 12,
        column: 3,
        human: String::from("x > y"),
    }
}

fn pairs(n: usize) -> Vec<Coverage> {
    let mut all = Vec::new();
    for k in 0..n {
        let name = format!("c{}", k);
        all.push(counter(&name, false, (2 * k) as i32));
        all.push(counter(&name, true, (2 * k + 1) as i32));
    }
    all
}

fn field(name: &str, width: u32) -> Input {
    Input { name: String::from(name), width }
}

#[test]
fn no_bits_need_no_bytes() {
    assert_eq!(to_bytes(4, 0), Some(0));
    assert_eq!(to_bytes(1, 0), Some(0));
}

#[test]
fn bits_round_up_to_bytes_then_to_words() {
    assert_eq!(to_bytes(1, 1), Some(1));
    assert_eq!(to_bytes(1, 8), Some(1));
    assert_eq!(to_bytes(1, 9), Some(2));
    assert_eq!(to_bytes(4, 10), Some(4));
    assert_eq!(to_bytes(4, 32), Some(4));
    assert_eq!(to_bytes(4, 33), Some(8));
    assert_eq!(to_bytes(8, 64), Some(8));
    assert_eq!(to_bytes(8, 65), Some(16));
    assert_eq!(to_bytes(3, 25), Some(6));
}

#[test]
fn bytes_are_the_least_multiple_of_the_word() {
    for word in 1usize..9 {
        for bits in 0u128..200 {
            let bytes = to_bytes(word, bits).unwrap();
            let filled = ((bits + 7) / 8) as usize;
            assert_eq!(bytes % word, 0);
            assert!(bytes >= filled);
            assert!(bytes < filled + word);
            assert!((bytes as u128) * 8 >= bits);
        }
    }
}

#[test]
fn bytes_never_shrink_as_bits_grow() {
    for word in 1usize..9 {
        let mut before = 0usize;
        for bits in 0u128..200 {
            let bytes = to_bytes(word, bits).unwrap();
            assert!(before <= bytes);
            before = bytes;
        }
    }
}

#[test]
fn bytes_beyond_the_address_space_are_none() {
    assert_eq!(to_bytes(1, u128::MAX), None);
    assert_eq!(to_bytes(usize::MAX, (usize::MAX as u128) * 8 + 1), None);
    assert_eq!(to_bytes(usize::MAX, (usize::MAX as u128) * 8), Some(usize::MAX));
}

#[test]
fn layout_of_one_field_and_one_pair() {
    let data = ConfigData {
        general: general(),
        coverage: pairs(1),
        input: vec![field("io_a", 10)],
    };
    let size = Config::determine_test_size(4, &data);
    assert_eq!(size, Some(TestSize { input: 4, coverage: 4 }));
    let config = Config::from_file(4, data).unwrap();
    assert_eq!(config.get_test_size(), TestSize { input: 4, coverage: 4 });
}

#[test]
fn layout_sums_the_fields() {
    let data = ConfigData {
        general: general(),
        coverage: pairs(9),
        input: vec![field("io_a", 32), field("io_b", 32), field("io_e", 1)],
    };
    assert_eq!(data.input_bits(), 65);
    assert_eq!(data.coverage_bits(), 18);
    assert_eq!(Config::determine_test_size(8, &data), Some(TestSize { input: 16, coverage: 8 }));
    assert_eq!(Config::determine_test_size(1, &data), Some(TestSize { input: 9, coverage: 3 }));
}

#[test]
fn layout_of_an_empty_descriptor_is_empty() {
    let data = ConfigData { general: general(), coverage: vec![], input: vec![] };
    assert_eq!(Config::determine_test_size(4, &data), Some(TestSize { input: 0, coverage: 0 }));
}

#[test]
fn negative_coverage_bits_have_no_layout() {
    let mut lone = counter("a", false, 0);
    lone.counterbits = -3;
    let data = ConfigData { general: general(), coverage: vec![lone], input: vec![] };
    assert_eq!(data.coverage_bits(), -3);
    assert_eq!(Config::determine_test_size(4, &data), None);
}
