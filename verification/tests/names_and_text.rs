use epilog_collector::attributes::{parse_job_info, AttributeMap};
use epilog_collector::names::{is_valid_name, make_string_valid, ValidName, MAX_NAME_LEN};
use epilog_collector::text::{chars_of, decimal_string, is_whitespace_char, parse_u64, string_of};
use epilog_collector::time::{parse_slurm_timestamp, Timestamp, TimestampError, MAX_SECONDS};

#[test]
fn forbidden_characters_are_removed_and_the_rest_keeps_its_order() {
    assert_eq!(make_string_valid("a/b(c)d\"e<f>g\\h{i}j"), "abcdefghij");
    assert_eq!(make_string_valid("plain-name_1.2"), "plain-name_1.2");
    assert_eq!(make_string_valid("/(){}<>\"\\"), "");
    assert_eq!(make_string_valid(""), "");
    assert_eq!(make_string_valid("grüße/東京"), "grüße東京");
}

#[test]
fn sanitizing_twice_is_sanitizing_once() {
    for raw in ["", "abc", "a/b", "((x))", "{\"k\": <v>}", "\\\\//", "äö/ü"] {
        let once = make_string_valid(raw);
        assert_eq!(make_string_valid(&once), once);
    }
}

#[test]
fn valid_names() {
    assert!(is_valid_name("alice"));
    assert!(is_valid_name("a"));
    assert!(is_valid_name(" a "));
    assert!(is_valid_name(&"x".repeat(MAX_NAME_LEN)));
    assert!(is_valid_name(&"ü".repeat(MAX_NAME_LEN)));
    assert!(!is_valid_name(&"x".repeat(MAX_NAME_LEN + 1)));
    assert!(!is_valid_name(""));
    assert!(!is_valid_name("   "));
    assert!(!is_valid_name("\t\n\u{a0}\u{3000}"));
    for bad in ["a/b", "a(b", "a)b", "a\"b", "a<b", "a>b", "a\\b", "a{b", "a}b"] {
        assert!(!is_valid_name(bad), "{}", bad);
    }
}

#[test]
fn valid_name_keeps_its_text() {
    let name = ValidName::parse("grp1".to_string()).unwrap();
    assert_eq!(name.as_str(), "grp1");
    assert_eq!(name.to_string(), "grp1");
    assert_eq!(name.clone().as_str(), "grp1");
    assert!(ValidName::parse("gr/p1".to_string()).is_none());
    assert!(ValidName::parse(String::new()).is_none());
}

#[test]
fn whitespace_is_what_the_standard_library_calls_whitespace() {
    for code in 0u32..0x3100 {
        if let Some(c) = char::from_u32(code) {
            assert_eq!(is_whitespace_char(c), c.is_whitespace(), "U+{:04X}", code);
        }
    }
    assert!(!is_whitespace_char('\u{10FFFF}'));
}

#[test]
fn characters_and_strings_convert_both_ways() {
    let chars = chars_of("a=ß 東");
    assert_eq!(chars, vec!['a', '=', 'ß', ' ', '東']);
    assert_eq!(string_of(&chars), "a=ß 東");
    assert_eq!(string_of(&Vec::new()), "");
}

#[test]
fn unsigned_numbers_are_read_as_the_standard_library_reads_them() {
    let cases = [
        "0", "7", "42", "+42", "007", "+0", "18446744073709551615", "18446744073709551616",
        "99999999999999999999", "", "+", "-", "-0", "-1", "++1", "1+", " 1", "1 ", "1_000",
        "0x10", "１２", "1.0", "1e3",
    ];
    for text in cases {
        assert_eq!(parse_u64(text), text.parse::<u64>().ok(), "{:?}", text);
    }
    assert_eq!(parse_u64("18446744073709551615"), Some(u64::MAX));
    assert_eq!(parse_u64("+17"), Some(17));
}

#[test]
fn numbers_are_written_in_decimal() {
    for n in [0u64, 1, 9, 10, 11, 99, 100, 101, 4711, 1_000_000, u64::MAX - 1, u64::MAX] {
        assert_eq!(decimal_string(n), n.to_string());
        assert_eq!(parse_u64(&decimal_string(n)), Some(n));
    }
}

#[test]
fn attribute_map_keeps_the_last_value_of_a_key() {
    let mut attrs = AttributeMap::new();
    assert!(attrs.get("k").is_none());
    assert!(!attrs.contains_key("k"));
    attrs.insert("k".to_string(), "1".to_string());
    attrs.insert("other".to_string(), "x".to_string());
    attrs.insert("k".to_string(), "2".to_string());
    assert_eq!(attrs.get("k").map(|s| s.as_str()), Some("2"));
    assert_eq!(attrs.get("other").map(|s| s.as_str()), Some("x"));
    assert!(attrs.contains_key("other"));
    assert!(attrs.get("K").is_none());
}

#[test]
fn job_text_is_split_at_whitespace_and_at_the_first_equals_sign() {
    let text = "JobId=4711 JobName=test\n   UserId=alice(1000) GroupId=grp1(100)\n\
                \tStartTime=2022-01-01T00:00:00 EndTime=2022-01-01T01:00:00\n   NumNodes=2 \
                Empty= =novalue Twice=a=b=c\u{a0}Last=z";
    let attrs = parse_job_info(text).unwrap();
    let get = |k: &str| attrs.get(k).map(|s| s.as_str());
    assert_eq!(get("JobId"), Some("4711"));
    assert_eq!(get("JobName"), Some("test"));
    assert_eq!(get("UserId"), Some("alice(1000)"));
    assert_eq!(get("GroupId"), Some("grp1(100)"));
    assert_eq!(get("StartTime"), Some("2022-01-01T00:00:00"));
    assert_eq!(get("EndTime"), Some("2022-01-01T01:00:00"));
    assert_eq!(get("NumNodes"), Some("2"));
    assert_eq!(get("Empty"), Some(""));
    assert_eq!(get(""), Some("novalue"));
    assert_eq!(get("Twice"), Some("a"));
    assert_eq!(get("Last"), Some("z"));
    assert_eq!(get("Missing"), None);
}

#[test]
fn job_text_without_tokens_gives_no_attributes() {
    for text in ["", " ", "\n\t  \r\n"] {
        let attrs = parse_job_info(text).unwrap();
        assert!(attrs.get("").is_none());
    }
}

#[test]
fn a_repeated_key_keeps_its_last_value() {
    let attrs = parse_job_info("a=1 b=2 a=3").unwrap();
    assert_eq!(attrs.get("a").map(|s| s.as_str()), Some("3"));
    assert_eq!(attrs.get("b").map(|s| s.as_str()), Some("2"));
}

#[test]
fn the_first_token_without_equals_sign_is_refused() {
    assert_eq!(parse_job_info("a=1 oops b=2 worse").unwrap_err().token, "oops");
    assert_eq!(parse_job_info("lonely").unwrap_err().token, "lonely");
}

#[test]
fn scheduler_timestamps_are_read_as_utc_seconds() {
    assert_eq!(parse_slurm_timestamp("1970-01-01T00:00:00").unwrap().seconds(), 0);
    assert_eq!(parse_slurm_timestamp("2022-01-01T00:00:00").unwrap().seconds(), 1_640_995_200);
    assert_eq!(parse_slurm_timestamp("2022-01-01T01:00:00").unwrap().seconds(), 1_640_998_800);
    assert_eq!(parse_slurm_timestamp("1969-12-31T23:59:59").unwrap().seconds(), -1);
    assert_eq!(parse_slurm_timestamp("2024-02-29T12:30:45").unwrap().seconds(), 1_709_209_845);
}

#[test]
fn text_that_is_no_timestamp_is_refused_with_the_text() {
    for bad in ["", "Unknown", "2022-01-01", "2022-13-01T00:00:00", "2022-01-01T25:00:00", "N/A"] {
        match parse_slurm_timestamp(bad) {
            Err(TimestampError::Unparsable { text, .. }) => assert_eq!(text, bad),
            other => panic!("unexpected for {:?}: {:?}", bad, other),
        }
    }
}

#[test]
fn timestamps_have_a_range_and_a_distance() {
    assert!(Timestamp::from_seconds(MAX_SECONDS).is_some());
    assert!(Timestamp::from_seconds(-MAX_SECONDS).is_some());
    assert!(Timestamp::from_seconds(MAX_SECONDS + 1).is_none());
    assert!(Timestamp::from_seconds(-MAX_SECONDS - 1).is_none());
    assert!(Timestamp::from_seconds(i64::MIN).is_none());
    assert_eq!(MAX_SECONDS, i64::MAX / 2);
    let early = Timestamp::from_seconds(-MAX_SECONDS).unwrap();
    let late = Timestamp::from_seconds(MAX_SECONDS).unwrap();
    assert_eq!(early.seconds_until(&late), i64::MAX - 1);
    assert_eq!(late.seconds_until(&early), -(i64::MAX - 1));
    let a = Timestamp::from_seconds(100).unwrap();
    let b = Timestamp::from_seconds(160).unwrap();
    assert_eq!(a.seconds_until(&b), 60);
    assert_eq!(b.seconds_until(&a), -60);
}
