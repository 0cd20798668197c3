use herdr::clock::{Duration, Instant, MAX_DURATION_NANOS};
use herdr::text::{chars_of, decimal_text, parse_number, same_text, zero_padded_text};

fn parse(text: &str, radix: u32, max: u64) -> Option<u64> {
    parse_number(&chars_of(text), radix, max)
}

#[test]
fn spans_convert_and_compare() {
    assert_eq!(Duration::from_millis(1_500).nanos, 1_500_000_000);
    assert_eq!(Duration::from_secs(2).nanos, 2_000_000_000);
    assert_eq!(Duration::from_millis(1_999).as_secs(), 1);
    assert_eq!(Duration::from_secs(u64::MAX).as_secs(), u64::MAX);
    assert!(Duration::zero().is_zero());
    assert!(!Duration::from_millis(1).is_zero());
    assert_eq!(Duration::from_secs(2).min(Duration::from_secs(1)), Duration::from_secs(1));
    assert_eq!(
        Duration::from_secs(1).saturating_add(Duration::from_millis(5)),
        Duration::from_millis(1_005)
    );
    let longest = Duration { nanos: MAX_DURATION_NANOS };
    assert_eq!(longest.saturating_add(Duration::from_millis(1)), longest);
}

#[test]
fn points_in_time_are_counted() {
    let early = Instant { nanos: 10 };
    let late = early.plus(Duration { nanos: 32 });
    assert_eq!(late, Instant { nanos: 42 });
    assert_eq!(late.saturating_duration_since(early), Duration { nanos: 32 });
    assert_eq!(early.saturating_duration_since(late), Duration { nanos: 0 });
    assert_eq!(early.max(late), late);
    assert_eq!(late.max(early), late);
}

#[test]
fn numbers_are_read_like_settings() {
    assert_eq!(parse("60", 10, u64::MAX), Some(60));
    assert_eq!(parse("+7", 10, u64::MAX), Some(7));
    assert_eq!(parse("007", 10, u64::MAX), Some(7));
    assert_eq!(parse("18446744073709551615", 10, u64::MAX), Some(u64::MAX));
    assert_eq!(parse("18446744073709551616", 10, u64::MAX), None);
    for bad in ["", "+", "-1", "1 ", " 1", "1.0", "++1", "0x1", "１"] {
        assert_eq!(parse(bad, 10, u64::MAX), None, "{bad:?}");
    }
    assert_eq!(parse("BC3f", 16, 0xffff), Some(0xbc3f));
    assert_eq!(parse("10000", 16, 0xffff), None);
    assert_eq!(parse("g", 16, 0xffff), None);
}

#[test]
fn numbers_are_read_as_the_standard_library_reads_them() {
    for text in ["", "0", "9", "+", "+0", "-0", "65535", "65536", "0000000", "a", "1a", "99999999"] {
        assert_eq!(
            parse(text, 10, u16::MAX as u64),
            text.parse::<u16>().ok().map(u64::from),
            "{text:?}"
        );
        assert_eq!(
            parse(text, 16, u16::MAX as u64),
            u16::from_str_radix(text, 16).ok().map(u64::from),
            "{text:?}"
        );
    }
}

#[test]
fn numbers_are_written_in_decimal() {
    assert_eq!(decimal_text(0), "0");
    assert_eq!(decimal_text(9), "9");
    assert_eq!(decimal_text(10), "10");
    assert_eq!(decimal_text(u128::MAX), u128::MAX.to_string());
    assert_eq!(zero_padded_text(42, 5), "00042");
    assert_eq!(zero_padded_text(123_456, 5), "123456");
    assert_eq!(zero_padded_text(7, 0), "7");
}

#[test]
fn written_numbers_read_back() {
    for number in [0u64, 1, 9, 10, 99, 100, 12_345, 999_999, u64::MAX] {
        assert_eq!(parse(&decimal_text(number as u128), 10, u64::MAX), Some(number));
        assert_eq!(parse(&zero_padded_text(number as u128, 8), 10, u64::MAX), Some(number));
    }
}

#[test]
fn texts_are_the_same_if_they_read_the_same() {
    assert!(same_text("reconnect-fast", "reconnect-fast"));
    assert!(!same_text("reconnect-fast", "reconnect-Fast"));
    assert!(!same_text("a", ""));
    assert_eq!(chars_of("aé\u{1f600}"), vec!['a', 'é', '\u{1f600}']);
}
