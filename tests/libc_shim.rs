use kernel::libc::{
    abs, atoi, cycles_to_us, putchar_code, strcasecmp, strchr, strcmp, strdup, strncasecmp,
    strrchr, toupper,
};

#[test]
fn strchr_finds_first_occurrence() {
    assert_eq!(strchr(b"hello", b'l' as i32), Some(2));
    assert_eq!(strchr(b"hello", b'h' as i32), Some(0));
}

#[test]
fn strchr_finds_terminator() {
    assert_eq!(strchr(b"hello", 0), Some(5));
    assert_eq!(strchr(b"", 0), Some(0));
}

#[test]
fn strchr_missing_byte_is_null() {
    assert_eq!(strchr(b"hello", b'z' as i32), None);
    assert_eq!(strchr(b"", b'a' as i32), None);
}

#[test]
fn strchr_truncates_the_character_to_a_byte() {
    assert_eq!(strchr(b"abc", 0x100 + b'b' as i32), Some(1));
}

#[test]
fn strrchr_finds_last_occurrence() {
    assert_eq!(strrchr(b"hello", b'l' as i32), Some(3));
    assert_eq!(strrchr(b"hello", 0), Some(5));
    assert_eq!(strrchr(b"hello", b'q' as i32), None);
}

#[test]
fn strdup_copies_with_terminator() {
    assert_eq!(strdup(b"abc"), vec![b'a', b'b', b'c', 0]);
    assert_eq!(strdup(b""), vec![0]);
}

#[test]
fn strcmp_examples() {
    assert_eq!(strcmp(b"abc", b"abc"), 0);
    assert!(strcmp(b"abc", b"abd") < 0);
    assert!(strcmp(b"abd", b"abc") > 0);
    assert_eq!(strcmp(b"ab", b"abc"), -1);
    assert_eq!(strcmp(b"abc", b"ab"), 1);
    assert_eq!(strcmp(b"", b""), 0);
    assert_eq!(strcmp(b"ABC", b"abc"), -1);
}

#[test]
fn strcasecmp_ignores_case() {
    assert_eq!(strcasecmp(b"ABC", b"abc"), 0);
    assert_eq!(strcasecmp(b"abC", b"ABD"), -1);
    assert_eq!(strcasecmp(b"Zeta", b"alpha"), 1);
}

#[test]
fn strncasecmp_compares_exactly_n_bytes() {
    assert_eq!(strncasecmp(b"HELLOx", b"helloy", 5), 0);
    assert_eq!(strncasecmp(b"HELLOx", b"helloy", 6), -1);
    assert_eq!(strncasecmp(b"abc", b"xyz", 0), 0);
}

#[test]
fn atoi_examples() {
    assert_eq!(atoi(b"42"), 42);
    assert_eq!(atoi(b"not-a-number"), 0);
    assert_eq!(atoi(b"-17"), -17);
    assert_eq!(atoi(b"+8"), 8);
    assert_eq!(atoi(b""), 0);
    assert_eq!(atoi(b"-"), 0);
    assert_eq!(atoi(b"12a"), 0);
    assert_eq!(atoi(b" 12"), 0);
}

#[test]
fn atoi_range_edges() {
    assert_eq!(atoi(b"2147483647"), i32::MAX);
    assert_eq!(atoi(b"-2147483648"), i32::MIN);
    assert_eq!(atoi(b"2147483648"), 0);
    assert_eq!(atoi(b"99999999999999999999999"), 0);
    assert_eq!(atoi(b"99999999999999999999999x"), 0);
}

#[test]
fn abs_examples() {
    assert_eq!(abs(-5), 5);
    assert_eq!(abs(7), 7);
    assert_eq!(abs(0), 0);
    assert_eq!(abs(i32::MIN), i32::MIN);
}

#[test]
fn toupper_examples() {
    assert_eq!(toupper(b'a' as i32), b'A' as i32);
    assert_eq!(toupper(b'z' as i32), b'Z' as i32);
    assert_eq!(toupper(b'Q' as i32), b'Q' as i32);
    assert_eq!(toupper(b'1' as i32), b'1' as i32);
    assert_eq!(toupper(-1), -1);
}

#[test]
fn putchar_code_examples() {
    assert_eq!(putchar_code(b'x' as i32), b'x' as u32);
    assert_eq!(putchar_code(0x1F600), 0x1F600);
    assert_eq!(putchar_code(0xD800), b'#' as u32);
    assert_eq!(putchar_code(-1), b'#' as u32);
    assert_eq!(putchar_code(0x110000), b'#' as u32);
}

#[test]
fn cycles_to_us_divides() {
    assert_eq!(cycles_to_us(0), 0);
    assert_eq!(cycles_to_us(49_999), 0);
    assert_eq!(cycles_to_us(150_000), 3);
}
