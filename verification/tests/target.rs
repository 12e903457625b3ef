use ember_cpu_miner::target::{hash_meets_target, parse_target_bytes};

const LARGEST: &str =
    "115792089237316195423570985008687907853269984665640564039457584007913129639935";
const TOO_LARGE: &str =
    "115792089237316195423570985008687907853269984665640564039457584007913129639936";

fn with_byte(at: usize, byte: u8) -> [u8; 32] {
    let mut bytes = [0u8; 32];
    bytes[at] = byte;
    bytes
}

#[test]
fn targets_are_read_as_big_endian_numbers() {
    assert_eq!(parse_target_bytes("1").unwrap(), with_byte(31, 1));
    assert_eq!(parse_target_bytes("255").unwrap(), with_byte(31, 255));
    assert_eq!(parse_target_bytes("256").unwrap(), with_byte(30, 1));
    assert_eq!(parse_target_bytes("000256").unwrap(), with_byte(30, 1));
    assert_eq!(parse_target_bytes("18446744073709551616").unwrap(), with_byte(23, 1));
    assert_eq!(parse_target_bytes(LARGEST).unwrap(), [0xff; 32]);
    let mut bytes = [0u8; 32];
    bytes[28..].copy_from_slice(&32_416_993u32.to_be_bytes());
    assert_eq!(parse_target_bytes("32416993").unwrap(), bytes);
}

#[test]
fn targets_that_are_no_positive_decimal_are_refused() {
    for text in ["", "0", "000", "-1", "+1", "0x10", " 1", "1.5", "12\u{663}", "12a99999999999"] {
        assert_eq!(parse_target_bytes(text).unwrap_err(), format!("invalid decimal target: {text}"));
    }
}

#[test]
fn targets_over_256_bits_are_refused() {
    for text in [TOO_LARGE.to_string(), format!("{LARGEST}0"), format!("{TOO_LARGE}x")] {
        assert_eq!(
            parse_target_bytes(&text).unwrap_err(),
            format!("target does not fit in 256 bits: {text}")
        );
    }
    let text = format!("{LARGEST}x");
    assert_eq!(parse_target_bytes(&text).unwrap_err(), format!("invalid decimal target: {text}"));
}

#[test]
fn a_hash_meets_a_target_that_is_not_smaller() {
    let zero = [0u8; 32];
    let one = with_byte(31, 1);
    let high = with_byte(0, 1);
    let max = [0xffu8; 32];
    assert!(hash_meets_target(&zero, &zero));
    assert!(hash_meets_target(&zero, &one));
    assert!(!hash_meets_target(&one, &zero));
    assert!(hash_meets_target(&one, &one));
    assert!(hash_meets_target(&one, &high));
    assert!(!hash_meets_target(&high, &with_byte(1, 255)));
    assert!(hash_meets_target(&max, &max));
    assert!(!hash_meets_target(&max, &high));
    for a in [zero, one, high, max, with_byte(15, 7), with_byte(16, 200)] {
        for b in [zero, one, high, max, with_byte(15, 7), with_byte(16, 200)] {
            assert_eq!(hash_meets_target(&a, &b), a <= b);
        }
    }
}
