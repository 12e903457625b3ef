use ember_cpu_miner::dashboard::format_duration;
use ember_cpu_miner::numbers::{read_i32, read_u64, read_usize};
use ember_cpu_miner::text::{
    abbreviate, abbreviates, chars_of, compact_status, decimal_text, in_column, same_text,
    signed_decimal_text, strip_trailing, trim, truncate_for_table, truncates, white_space,
};

#[test]
fn decimal_numerals_are_those_of_std() {
    let numbers = [0u64, 1, 9, 10, 99, 100, 12345, 67_108_864, u64::MAX - 1, u64::MAX];
    for n in numbers {
        assert_eq!(decimal_text(n), n.to_string());
    }
    for i in [0i32, 7, -7, 10, -10, i32::MAX, i32::MIN] {
        assert_eq!(signed_decimal_text(i), i.to_string());
    }
}

#[test]
fn white_space_is_that_of_std_for_every_character() {
    for code in 0..=0x10ffffu32 {
        if let Some(c) = char::from_u32(code) {
            assert_eq!(white_space(c), c.is_whitespace(), "U+{:04X}", code);
        }
    }
}

#[test]
fn unsigned_integers_are_read_as_by_std() {
    let inputs = [
        "", "0", "+0", "-0", "-1", "+", "-", "++1", "1", "007", "18446744073709551615",
        "18446744073709551616", "99999999999999999999999", " 1", "1 ", "1_000", "1a", "+12", "\u{663}",
    ];
    for input in inputs {
        assert_eq!(read_u64(input), input.parse::<u64>().ok(), "{:?}", input);
        assert_eq!(read_usize(input), input.parse::<usize>().ok(), "{:?}", input);
    }
}

#[test]
fn signed_integers_are_read_as_by_std() {
    let inputs = [
        "", "0", "+0", "-0", "-1", "+", "-", "--1", "+-1", "2147483647", "2147483648",
        "-2147483648", "-2147483649", "0000000000000000000000001", " 1", "1.0", "9999999999999999999999",
    ];
    for input in inputs {
        assert_eq!(read_i32(&chars_of(input)), input.parse::<i32>().ok(), "{:?}", input);
    }
}

#[test]
fn a_status_is_put_on_one_line() {
    assert_eq!(compact_status("  {\n  \"ok\": true\r\n}\t"), "{ \"ok\": true }");
    assert_eq!(compact_status(""), "");
    assert_eq!(compact_status(" \n\u{3000}"), "");
    assert_eq!(compact_status("one"), "one");
    assert_eq!(compact_status("a\u{a0}b"), "a b");
}

#[test]
fn compacting_twice_changes_nothing_more() {
    let once = compact_status(" a  b\n\nc ");
    assert_eq!(once, "a b c");
    assert_eq!(compact_status(&once), once);
}

#[test]
fn addresses_are_abbreviated_in_the_middle() {
    let miner = "0xe0124ead86bdc20cc675317bef95533020a6165f";
    assert_eq!(abbreviate(miner, 12, 8), "0xe0124ead86...20a6165f");
    assert_eq!(abbreviate("short", 12, 8), "short");
    assert_eq!(abbreviate("12345678901234567890123", 12, 8), "12345678901234567890123");
    assert_eq!(abbreviate("123456789012345678901234", 12, 8), "123456789012...78901234");
    assert_eq!(abbreviate("abcdef", 1, 1), "a...f");
    assert_eq!(abbreviate("abcdef", 0, 0), "...");
    assert_eq!(abbreviate("abcde", 1, 1), "abcde");
}

#[test]
fn texts_are_abbreviated_by_bytes() {
    let text = "\u{e9}\u{e9}\u{e9}\u{e9}\u{e9}";
    assert!(abbreviates(text, 2, 2));
    assert_eq!(abbreviate(text, 2, 2), "\u{e9}...\u{e9}");
    assert!(!abbreviates(text, 1, 2));
    assert!(!abbreviates(text, 2, 1));
    assert!(abbreviates(text, 3, 4));
}

#[test]
fn texts_are_truncated_to_their_column() {
    assert_eq!(truncate_for_table("https://emberchain.org", 18), "https://emberch...");
    assert_eq!(truncate_for_table("123456789012345678", 18), "123456789012345678");
    assert_eq!(truncate_for_table("", 0), "");
    assert_eq!(truncate_for_table("abcd", 3), "abc");
    assert_eq!(truncate_for_table("abcdef", 4), "a...");
    assert_eq!(truncate_for_table("abcdef", 0), "");
    assert!(!truncates("\u{20ac}\u{20ac}", 5));
    assert!(truncates("\u{20ac}\u{20ac}", 3));
    assert!(truncates("\u{20ac}\u{20ac}", 6));
    assert_eq!(truncate_for_table("\u{20ac}\u{20ac}", 3), "\u{20ac}");
}

#[test]
fn columns_are_filled_with_spaces() {
    assert_eq!(in_column("ab", 5), format!("{:<5}", "ab"));
    assert_eq!(in_column("\u{20ac}", 3), format!("{:<3}", "\u{20ac}"));
    assert_eq!(in_column("abcdef", 5), "abcdef");
    assert_eq!(in_column("", 0), "");
}

#[test]
fn white_space_around_a_part_is_trimmed() {
    for input in ["", " ", " a ", "\u{2003}a b\n", "ab", "a ", " b"] {
        assert_eq!(trim(&chars_of(input)), chars_of(input.trim()));
    }
}

#[test]
fn trailing_characters_are_stripped() {
    for input in ["", "/", "///", "a//", "a/b", "/a"] {
        assert_eq!(strip_trailing(input, '/'), input.trim_end_matches('/'));
    }
}

#[test]
fn equal_texts_are_the_same() {
    assert!(same_text("--cuda", "--cuda"));
    assert!(!same_text("--cuda", "--cuda-device"));
    assert!(!same_text("", "a"));
}

#[test]
fn durations_are_written_as_a_clock() {
    assert_eq!(format_duration(0), "00:00:00");
    assert_eq!(format_duration(59), "00:00:59");
    assert_eq!(format_duration(3661), "01:01:01");
    assert_eq!(format_duration(86_399), "23:59:59");
    assert_eq!(format_duration(360_000), "100:00:00");
    assert_eq!(format_duration(u64::MAX), "5124095576030431:00:15");
}
