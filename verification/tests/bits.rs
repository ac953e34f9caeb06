use fuzz_config::bits::{
    bit_at, count_cycles, is_addressable, read_coverage_pair, read_input_bit, write_input_bit,
};
use fuzz_config::error::ConfigError;
use fuzz_config::model::{Coverage, TestSize};

fn normal(index: i32) -> Coverage {
    Coverage {
        name: String::from("a"),
        inverted: false,
        index,
        counterbits: 1,
        filename: String::from("gcd.scala"),
        line: 12,
        column: 3,
        human: String::from("x > y"),
    }
}

#[test]
fn bit_zero_is_the_most_significant() {
    let buffer = [0b1000_0000u8, 0b0000_0001, 0b0010_0000];
    assert!(bit_at(&buffer, 0, 0));
    assert!(!bit_at(&buffer, 0, 1));
    assert!(!bit_at(&buffer, 0, 7));
    assert!(bit_at(&buffer, 1, 7));
    assert!(!bit_at(&buffer, 1, 0));
    assert!(bit_at(&buffer, 2, 2));
}

#[test]
fn input_bits_are_found_by_cycle_and_offset() {
    let size = TestSize { input: 2, coverage: 0 };
    let buffer = [0b1010_0000u8, 0b0000_0001, 0b0100_0000, 0b1000_0000];
    assert_eq!(read_input_bit(&buffer, size, 0, 0), Ok(true));
    assert_eq!(read_input_bit(&buffer, size, 0, 1), Ok(false));
    assert_eq!(read_input_bit(&buffer, size, 0, 2), Ok(true));
    assert_eq!(read_input_bit(&buffer, size, 0, 14), Ok(false));
    assert_eq!(read_input_bit(&buffer, size, 0, 15), Ok(true));
    assert_eq!(read_input_bit(&buffer, size, 1, 0), Ok(false));
    assert_eq!(read_input_bit(&buffer, size, 1, 1), Ok(true));
    assert_eq!(read_input_bit(&buffer, size, 1, 8), Ok(true));
    assert_eq!(read_input_bit(&buffer, size, 1, 9), Ok(false));
}

#[test]
fn cycles_are_counted() {
    let size = TestSize { input: 4, coverage: 0 };
    assert_eq!(count_cycles(&[], size), Ok(0));
    assert_eq!(count_cycles(&[0; 4], size), Ok(1));
    assert_eq!(count_cycles(&[0; 12], size), Ok(3));
}

#[test]
fn input_buffer_of_broken_cycles_is_rejected() {
    let size = TestSize { input: 4, coverage: 0 };
    let mismatch = ConfigError::InputBufferSizeMismatch { cycle_bytes: 4, actual: 6 };
    assert_eq!(count_cycles(&[0; 6], size), Err(mismatch));
    assert_eq!(read_input_bit(&[0; 6], size, 0, 0), Err(mismatch));
    let mut buffer = vec![0xffu8; 6];
    assert_eq!(write_input_bit(&mut buffer, size, 0, 0, false), Err(mismatch));
    assert_eq!(buffer, vec![0xffu8; 6]);
}

#[test]
fn only_the_empty_buffer_is_made_of_empty_cycles() {
    let size = TestSize { input: 0, coverage: 0 };
    assert_eq!(count_cycles(&[], size), Ok(0));
    assert_eq!(
        count_cycles(&[1, 2], size),
        Err(ConfigError::InputBufferSizeMismatch { cycle_bytes: 0, actual: 2 })
    );
}

#[test]
fn written_bits_are_read_back() {
    let size = TestSize { input: 3, coverage: 0 };
    let cycles = 4;
    let pattern = |cycle: usize, offset: usize| (cycle * 7 + offset * 5) % 3 == 0;
    let mut buffer = vec![0u8; 3 * cycles];
    for cycle in 0..cycles {
        for offset in 0..24 {
            assert_eq!(
                write_input_bit(&mut buffer, size, cycle, offset, pattern(cycle, offset)),
                Ok(())
            );
        }
    }
    for cycle in 0..cycles {
        for offset in 0..24 {
            assert_eq!(
                read_input_bit(&buffer, size, cycle, offset),
                Ok(pattern(cycle, offset))
            );
        }
    }
}

#[test]
fn writing_a_bit_leaves_the_others() {
    let size = TestSize { input: 2, coverage: 0 };
    let mut buffer = vec![0xffu8, 0x00, 0xff, 0x00];
    assert_eq!(write_input_bit(&mut buffer, size, 0, 3, false), Ok(()));
    assert_eq!(buffer, vec![0b1110_1111, 0x00, 0xff, 0x00]);
    assert_eq!(write_input_bit(&mut buffer, size, 1, 15, true), Ok(()));
    assert_eq!(buffer, vec![0b1110_1111, 0x00, 0xff, 0x01]);
    assert_eq!(write_input_bit(&mut buffer, size, 1, 15, true), Ok(()));
    assert_eq!(buffer, vec![0b1110_1111, 0x00, 0xff, 0x01]);
}

#[test]
fn coverage_pair_is_read_from_adjacent_bits() {
    let size = TestSize { input: 0, coverage: 4 };
    let buffer = [0b0100_0000u8, 0, 0, 0];
    assert_eq!(read_coverage_pair(&buffer, size, &normal(0), false), Ok((false, true)));
    assert_eq!(read_coverage_pair(&buffer, size, &normal(0), true), Ok((true, false)));
}

#[test]
fn coverage_pair_in_a_later_byte() {
    let size = TestSize { input: 0, coverage: 2 };
    let buffer = [0u8, 0b0000_1100];
    assert_eq!(read_coverage_pair(&buffer, size, &normal(12), false), Ok((true, true)));
    assert_eq!(read_coverage_pair(&buffer, size, &normal(10), false), Ok((false, false)));
    assert_eq!(read_coverage_pair(&buffer, size, &normal(14), false), Ok((false, false)));
    assert_eq!(read_coverage_pair(&buffer, size, &normal(12), true), Ok((false, false)));
    assert_eq!(read_coverage_pair(&buffer, size, &normal(14), true), Ok((true, true)));
}

#[test]
fn coverage_buffer_of_another_size_is_rejected() {
    let size = TestSize { input: 0, coverage: 4 };
    assert_eq!(
        read_coverage_pair(&[0; 3], size, &normal(0), false),
        Err(ConfigError::CoverageBufferSizeMismatch { expected: 4, actual: 3 })
    );
    assert_eq!(
        read_coverage_pair(&[0; 8], size, &normal(0), true),
        Err(ConfigError::CoverageBufferSizeMismatch { expected: 4, actual: 8 })
    );
}

#[test]
fn a_pair_must_lie_in_one_byte_of_the_buffer() {
    let size = TestSize { input: 0, coverage: 2 };
    assert!(is_addressable(&normal(0), size));
    assert!(is_addressable(&normal(6), size));
    assert!(!is_addressable(&normal(7), size));
    assert!(is_addressable(&normal(14), size));
    assert!(!is_addressable(&normal(15), size));
    assert!(!is_addressable(&normal(16), size));
    assert!(!is_addressable(&normal(-1), size));
}
