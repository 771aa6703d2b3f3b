use audio_helper::seconds::{micros_of_value, read_seconds, SecondsValue, EXPONENT_LIMIT};
use audio_helper::session::ffmpeg_status;
use audio_helper::split::chunk_plan;
use audio_helper::text::{
    equals_ignore_ascii_case, joined_path, millis_string, parse_u32, round_micros_to_millis,
    seconds_string, u64_text, without_leading_dots,
};
use audio_helper::silence::samples_for;
use audio_helper::AudioHelperError;

#[test]
fn integers_are_written_in_decimal() {
    assert_eq!(u64_text(0), "0");
    assert_eq!(u64_text(44_100), "44100");
    assert_eq!(u64_text(u64::MAX), "18446744073709551615");
}

#[test]
fn u32_text_parses_like_std() {
    assert_eq!(parse_u32("16000"), Some(16_000));
    assert_eq!(parse_u32("+7"), Some(7));
    assert_eq!(parse_u32("4294967295"), Some(u32::MAX));
    assert_eq!(parse_u32("4294967296"), None);
    assert_eq!(parse_u32(""), None);
    assert_eq!(parse_u32("+"), None);
    assert_eq!(parse_u32("-1"), None);
    assert_eq!(parse_u32("12a"), None);
}

fn finite(negative: bool, significand: u128, exponent: i128) -> Option<SecondsValue> {
    Some(SecondsValue::Finite { negative, significand, exponent })
}

fn micros_read(text: &str) -> Option<u64> {
    micros_of_value(read_seconds(text).expect("a number"))
}

#[test]
fn seconds_text_reads_as_its_number() {
    assert_eq!(read_seconds("1.000000"), finite(false, 1_000_000, -6));
    assert_eq!(read_seconds("3.5"), finite(false, 35, -1));
    assert_eq!(read_seconds(".25"), finite(false, 25, -2));
    assert_eq!(read_seconds("2."), finite(false, 2, 0));
    assert_eq!(read_seconds("+2"), finite(false, 2, 0));
    assert_eq!(read_seconds("0.0000019"), finite(false, 19, -7));
    assert_eq!(read_seconds("1.0000005"), finite(false, 10_000_005, -7));
    assert_eq!(read_seconds("99999999999999999999"), finite(false, 99_999_999_999_999_999_999, 0));
    assert_eq!(
        read_seconds("1234567890123456789012345678901234567890123"),
        finite(false, 123_456_789_012_345_678_901_234_567_890_123_456_789, 4)
    );
    assert_eq!(read_seconds("N/A"), None);
    assert_eq!(read_seconds("."), None);
    assert_eq!(read_seconds(""), None);
    assert_eq!(read_seconds("1.2.3"), None);
    assert_eq!(read_seconds(" 1"), None);
}

#[test]
fn seconds_text_reads_every_float_form() {
    assert_eq!(read_seconds("1e2"), finite(false, 1, 2));
    assert_eq!(read_seconds("1E2"), finite(false, 1, 2));
    assert_eq!(read_seconds("2.5e-3"), finite(false, 25, -4));
    assert_eq!(read_seconds("25e+0"), finite(false, 25, 0));
    assert_eq!(read_seconds(".5E1"), finite(false, 5, 0));
    assert_eq!(
        read_seconds("123456789012345678901234567890e-29"),
        finite(false, 123_456_789_012_345_678_901_234_567_890, -29)
    );
    assert_eq!(read_seconds("1e-999999999999999999999999999999999999"), finite(false, 1, -EXPONENT_LIMIT));
    assert_eq!(read_seconds("1e99999999999999999999999999999999999"), finite(false, 1, EXPONENT_LIMIT));
    assert_eq!(read_seconds("-0"), finite(true, 0, 0));
    assert_eq!(read_seconds("-0.0e5"), finite(true, 0, 4));
    assert_eq!(read_seconds("-1.5"), finite(true, 15, -1));
    assert_eq!(read_seconds("inf"), Some(SecondsValue::Infinite { negative: false }));
    assert_eq!(read_seconds("-Infinity"), Some(SecondsValue::Infinite { negative: true }));
    assert_eq!(read_seconds("NaN"), Some(SecondsValue::NotANumber));
    assert_eq!(read_seconds("-nan"), Some(SecondsValue::NotANumber));
    assert_eq!(read_seconds("1e"), None);
    assert_eq!(read_seconds("e5"), None);
    assert_eq!(read_seconds("1e+"), None);
    assert_eq!(read_seconds("1e2.5"), None);
    assert_eq!(read_seconds("infin"), None);
    assert_eq!(read_seconds("--1"), None);
}

#[test]
fn readings_give_whole_microseconds_rounded_down() {
    assert_eq!(micros_read("1.000000"), Some(1_000_000));
    assert_eq!(micros_read("0.0000019"), Some(1));
    assert_eq!(micros_read("1e2"), Some(100_000_000));
    assert_eq!(micros_read("2.5e-3"), Some(2_500));
    assert_eq!(micros_read("123456789012345678901234567890e-29"), Some(1_234_567));
    assert_eq!(micros_read("1e-7"), Some(0));
    assert_eq!(micros_read("-0"), Some(0));
    assert_eq!(micros_read("18446744073709.551615"), Some(u64::MAX));
    assert_eq!(micros_read("18446744073709.551616"), None);
    assert_eq!(micros_read("1e20"), None);
    assert_eq!(micros_read("99999999999999999999"), None);
    assert_eq!(micros_read("-1"), None);
    assert_eq!(micros_read("inf"), None);
    assert_eq!(micros_read("nan"), None);
}

#[test]
fn microseconds_are_written_as_short_seconds() {
    assert_eq!(seconds_string(0), "0");
    assert_eq!(seconds_string(500_000), "0.5");
    assert_eq!(seconds_string(1_000_000), "1");
    assert_eq!(seconds_string(1_234_560), "1.23456");
    assert_eq!(seconds_string(1), "0.000001");
    for us in [0u64, 7, 999_999, 1_000_001, 3_500_000] {
        assert_eq!(micros_read(&seconds_string(us)), Some(us));
    }
}

#[test]
fn milliseconds_round_half_to_even() {
    assert_eq!(round_micros_to_millis(1_500), 2);
    assert_eq!(round_micros_to_millis(2_500), 2);
    assert_eq!(round_micros_to_millis(2_501), 3);
    assert_eq!(millis_string(1_500), "1.500");
    assert_eq!(millis_string(13), "0.013");
}

#[test]
fn ascii_case_is_ignored_in_extensions() {
    assert!(equals_ignore_ascii_case("WaV", "wav"));
    assert!(!equals_ignore_ascii_case("wave", "wav"));
    assert!(!equals_ignore_ascii_case("wàv", "wav"));
}

#[test]
fn leading_dots_are_stripped() {
    assert_eq!(without_leading_dots("..wav"), "wav");
    assert_eq!(without_leading_dots("w.a"), "w.a");
    assert_eq!(without_leading_dots("..."), "");
}

#[test]
fn paths_join_like_unix_paths() {
    assert_eq!(joined_path("chunks", "a.wav"), "chunks/a.wav");
    assert_eq!(joined_path("chunks/", "a.wav"), "chunks/a.wav");
    assert_eq!(joined_path("", "a.wav"), "a.wav");
    assert_eq!(joined_path("chunks", "/abs.wav"), "/abs.wav");
}

#[test]
fn chunk_plan_drops_a_short_remainder() {
    assert_eq!(chunk_plan(3_500_000, 1_000_000), vec![(0, 1_000_000), (1_000_000, 2_000_000), (2_000_000, 3_000_000)]);
    assert_eq!(chunk_plan(3_000_000, 1_000_000).len(), 3);
    assert_eq!(chunk_plan(2_200_000, 2_000_000), vec![(0, 2_000_000)]);
    assert_eq!(chunk_plan(300_000, 300_000), vec![(0, 300_000)]);
    let halves = chunk_plan(10_000_000, 500_000);
    assert_eq!(halves.len(), 20);
    assert!(halves.iter().enumerate().all(|(i, &(s, e))| s == i as u64 * 500_000 && e == s + 500_000));
    assert_eq!(chunk_plan(2_700_000, 1_000_000), vec![(0, 1_000_000), (1_000_000, 2_000_000)]);
    assert_eq!(chunk_plan(2_300_000, 500_000).len(), 4);
    assert_eq!(chunk_plan(1_200_000, 1_000_000), vec![(0, 1_000_000)]);
    assert_eq!(chunk_plan(0, 1_000_000), vec![]);
}

#[test]
fn sample_counts_round_to_the_nearest_sample() {
    assert_eq!(samples_for(Some(500_000), 16_000), 8_000);
    assert_eq!(samples_for(Some(300_000), 44_100), 13_230);
    assert_eq!(samples_for(Some(1), 500_000), 1);
    assert_eq!(samples_for(Some(1), 499_999), 0);
    assert_eq!(samples_for(None, 16_000), 0);
    assert_eq!(samples_for(Some(i128::MAX), 16_000), usize::MAX);
}

#[test]
fn ffmpeg_failure_carries_its_error_output() {
    assert!(ffmpeg_status(true, b"").is_ok());
    match ffmpeg_status(false, b"No such file") {
        Err(AudioHelperError::Ffmpeg(m)) => assert_eq!(m, "No such file"),
        other => panic!("unexpected {:?}", other),
    }
}
