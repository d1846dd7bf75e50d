use hls_m3u8::attribute::AttributePairs;
use hls_m3u8::client_attributes::ClientAttributes;
use hls_m3u8::date::{Date, DateTime};
use hls_m3u8::decryption_key::DecryptionKey;
use hls_m3u8::duration::Duration;
use hls_m3u8::error::{Error, ErrorKind, Reason};
use hls_m3u8::hex::HexadecimalSequence;
use hls_m3u8::quoted::QuotedString;
use hls_m3u8::types::{ByteRange, EncryptionMethod, M3u8String, ProtocolVersion, Yes};

fn text(chars: &[char]) -> String {
    chars.iter().collect()
}

fn invalid_value() -> Error {
    Error::invalid_input(Reason::InvalidValue)
}

#[test]
fn error_carries_kind_and_reason() {
    let e = Error::invalid_input(Reason::MissingField);
    assert_eq!(e.kind(), ErrorKind::InvalidInput);
    assert_eq!(e.reason(), Reason::MissingField);
}

#[test]
fn attribute_list_splits_on_commas_outside_quotes() {
    let pairs = AttributePairs::parse(r#"A=1,B-2="x,y",C="#).unwrap();
    assert_eq!(pairs.len(), 3);
    assert_eq!(text(pairs.name(0)), "A");
    assert_eq!(text(pairs.value(0)), "1");
    assert_eq!(text(pairs.name(1)), "B-2");
    assert_eq!(text(pairs.value(1)), r#""x,y""#);
    assert_eq!(text(pairs.name(2)), "C");
    assert_eq!(text(pairs.value(2)), "");
    assert_eq!(pairs.render(), r#"A=1,B-2="x,y",C="#);
}

#[test]
fn attribute_list_may_be_empty_or_end_in_a_comma() {
    assert_eq!(AttributePairs::parse("").unwrap().len(), 0);
    let pairs = AttributePairs::parse("A=1,").unwrap();
    assert_eq!(pairs.len(), 1);
    assert_eq!(text(pairs.value(0)), "1");
}

#[test]
fn attribute_list_refuses_malformed_pairs() {
    let malformed = Error::invalid_input(Reason::MalformedAttribute);
    assert_eq!(AttributePairs::parse("A=1,,B=2").err(), Some(malformed));
    assert_eq!(AttributePairs::parse("a=1").err(), Some(malformed));
    assert_eq!(AttributePairs::parse("A").err(), Some(malformed));
    assert_eq!(AttributePairs::parse(r#"A="x"#).err(), Some(malformed));
    assert_eq!(AttributePairs::parse(r#"A="x",B="y"#).err(), Some(malformed));
}

#[test]
fn attribute_list_finds_names_and_values() {
    let pairs = AttributePairs::parse("METHOD=AES-128,METHOD=NONE,URI=x").unwrap();
    assert!(pairs.has_value("METHOD", "NONE"));
    assert!(pairs.has_value("METHOD", "AES-128"));
    assert!(!pairs.has_value("URI", "NONE"));
    assert!(pairs.has_name("URI"));
    assert!(!pairs.has_name("IV"));
}

#[test]
fn quoted_string_forbids_quotes() {
    let q = QuotedString::new("foo").unwrap();
    assert_eq!(q.as_str(), "foo");
    assert_eq!(q.render(), r#""foo""#);
    assert_eq!(QuotedString::new(r#"a"b"#).err(), Some(invalid_value()));
    assert_eq!(QuotedString::new("a,b").unwrap().render(), r#""a,b""#);
}

#[test]
fn quoted_string_parses_what_stands_between_quotes() {
    assert_eq!(QuotedString::parse(r#""foo""#).unwrap().as_str(), "foo");
    assert_eq!(QuotedString::parse(r#""""#).unwrap().as_str(), "");
    assert_eq!(QuotedString::parse("foo").err(), Some(invalid_value()));
    assert_eq!(QuotedString::parse(r#"""#).err(), Some(invalid_value()));
    assert_eq!(QuotedString::parse(r#""foo"#).err(), Some(invalid_value()));
    assert_eq!(QuotedString::parse(r#""a"b""#).err(), Some(invalid_value()));
    let q = QuotedString::new("a b,c").unwrap();
    assert_eq!(QuotedString::parse(&q.render()).ok(), Some(q));
}

#[test]
fn free_text_forbids_control_characters() {
    assert_eq!(M3u8String::new("Sample Title, part 2").unwrap().as_str(), "Sample Title, part 2");
    assert_eq!(M3u8String::new("a\tb").err(), Some(invalid_value()));
    assert_eq!(M3u8String::new("a\u{7f}b").err(), Some(invalid_value()));
    assert_eq!(M3u8String::new("a\u{9f}b").err(), Some(invalid_value()));
    assert_eq!(M3u8String::new("a\u{a0}b").unwrap().render(), "a\u{a0}b");
}

#[test]
fn decimal_seconds_parse_to_nanosecond_precision() {
    let d = Duration::parse("1.234").unwrap();
    assert_eq!(d.as_secs(), 1);
    assert_eq!(d.subsec_nanos(), 234_000_000);
    assert_eq!(Duration::parse("5").ok(), Some(Duration::from_secs(5)));
    assert_eq!(Duration::parse("5.").ok(), Some(Duration::from_secs(5)));
    assert_eq!(Duration::parse(".5").ok(), Duration::new(0, 500_000_000));
    assert_eq!(Duration::parse("007.50").ok(), Duration::new(7, 500_000_000));
    assert_eq!(Duration::parse("0.000000001").ok(), Duration::new(0, 1));
    assert_eq!(Duration::parse("1.0000000019").ok(), Duration::new(1, 1));
    assert_eq!(Duration::parse("18446744073709551615").ok(), Some(Duration::from_secs(u64::MAX)));
}

#[test]
fn decimal_seconds_refuse_what_is_no_number() {
    assert_eq!(Duration::parse("").err(), Some(invalid_value()));
    assert_eq!(Duration::parse(".").err(), Some(invalid_value()));
    assert_eq!(Duration::parse("1.2.3").err(), Some(invalid_value()));
    assert_eq!(Duration::parse("1e5").err(), Some(invalid_value()));
    assert_eq!(Duration::parse("-1").err(), Some(invalid_value()));
    assert_eq!(Duration::parse("+1").err(), Some(invalid_value()));
    assert_eq!(Duration::parse(" 1").err(), Some(invalid_value()));
    assert_eq!(Duration::parse("18446744073709551616").err(), Some(invalid_value()));
}

#[test]
fn decimal_seconds_render_with_the_fewest_digits() {
    assert_eq!(Duration::from_secs(5).render(), "5");
    assert_eq!(Duration::from_secs(0).render(), "0");
    assert_eq!(Duration::from_millis(1234).render(), "1.234");
    assert_eq!(Duration::new(1, 5).unwrap().render(), "1.000000005");
    assert_eq!(Duration::new(0, 500_000_000).unwrap().render(), "0.5");
    assert_eq!(Duration::new(12, 340_000_000).unwrap().render(), "12.34");
    assert_eq!(Duration::new(0, 999_999_999).unwrap().render(), "0.999999999");
}

#[test]
fn duration_carries_nanoseconds_over() {
    let d = Duration::new(1, 1_500_000_000).unwrap();
    assert_eq!(d.as_secs(), 2);
    assert_eq!(d.subsec_nanos(), 500_000_000);
    assert_eq!(Duration::new(u64::MAX, 999_999_999).unwrap().as_secs(), u64::MAX);
    assert_eq!(Duration::new(u64::MAX, 1_000_000_000), None);
    assert_eq!(Duration::from_millis(1234), Duration::new(1, 234_000_000).unwrap());
}

#[test]
fn duration_text_round_trips() {
    for d in [
        Duration::from_secs(0),
        Duration::from_secs(u64::MAX),
        Duration::from_millis(1234),
        Duration::new(3, 1).unwrap(),
        Duration::new(3, 100).unwrap(),
        Duration::new(0, 999_999_999).unwrap(),
    ] {
        assert_eq!(Duration::parse(&d.render()).ok(), Some(d));
    }
}

#[test]
fn hexadecimal_sequence_parses_digit_pairs() {
    assert_eq!(HexadecimalSequence::parse("0x000102").unwrap().into_bytes(), vec![0, 1, 2]);
    assert_eq!(HexadecimalSequence::parse("0XAbCd").unwrap().into_bytes(), vec![0xab, 0xcd]);
    assert_eq!(HexadecimalSequence::parse("0x").unwrap().into_bytes(), Vec::<u8>::new());
    assert_eq!(HexadecimalSequence::parse("0x123").unwrap().into_bytes(), vec![0x12, 0x03]);
    assert_eq!(HexadecimalSequence::parse("0xf").unwrap().into_bytes(), vec![0x0f]);
}

#[test]
fn hexadecimal_sequence_refuses_other_text() {
    assert_eq!(HexadecimalSequence::parse("000102").err(), Some(invalid_value()));
    assert_eq!(HexadecimalSequence::parse("0").err(), Some(invalid_value()));
    assert_eq!(HexadecimalSequence::parse("0xzz").err(), Some(invalid_value()));
    assert_eq!(HexadecimalSequence::parse("0x0g").err(), Some(invalid_value()));
    assert_eq!(HexadecimalSequence::parse("0x+f").err(), Some(invalid_value()));
}

#[test]
fn hexadecimal_sequence_renders_lower_case() {
    let h = HexadecimalSequence::new(vec![0x00, 0x1f, 0xab, 0xff]);
    assert_eq!(h.render(), "0x001fabff");
    assert_eq!(h.as_bytes(), &[0x00, 0x1f, 0xab, 0xff]);
    assert_eq!(HexadecimalSequence::parse(&h.render()).ok(), Some(h));
    assert_eq!(HexadecimalSequence::new(vec![]).render(), "0x");
}

#[test]
fn byte_range_parses_length_and_start() {
    assert_eq!(ByteRange::parse("3").ok(), Some(ByteRange { length: 3, start: None }));
    assert_eq!(ByteRange::parse("3@5").ok(), Some(ByteRange { length: 3, start: Some(5) }));
    assert_eq!(ByteRange::parse("003@005").ok(), Some(ByteRange { length: 3, start: Some(5) }));
    assert_eq!(ByteRange::parse("0@0").ok(), Some(ByteRange { length: 0, start: Some(0) }));
    assert_eq!(ByteRange::parse("").err(), Some(invalid_value()));
    assert_eq!(ByteRange::parse("@5").err(), Some(invalid_value()));
    assert_eq!(ByteRange::parse("3@").err(), Some(invalid_value()));
    assert_eq!(ByteRange::parse("3@5@6").err(), Some(invalid_value()));
    assert_eq!(ByteRange::parse("+3").err(), Some(invalid_value()));
    assert_eq!(ByteRange::parse("3.5").err(), Some(invalid_value()));
    assert_eq!(ByteRange::parse("340282366920938463463374607431768211456").err(), Some(invalid_value()));
}

#[test]
fn byte_range_renders_without_start_when_absent() {
    assert_eq!(ByteRange { length: 9, start: Some(2) }.render(), "9@2");
    assert_eq!(ByteRange { length: 9, start: None }.render(), "9");
    assert_eq!(ByteRange { length: 1234567890, start: Some(0) }.render(), "1234567890@0");
    let r = ByteRange { length: usize::MAX, start: Some(usize::MAX) };
    assert_eq!(ByteRange::parse(&r.render()).ok(), Some(r));
}

#[test]
fn encryption_method_and_marker_have_fixed_text() {
    assert_eq!(EncryptionMethod::parse("AES-128").ok(), Some(EncryptionMethod::Aes128));
    assert_eq!(EncryptionMethod::parse("SAMPLE-AES").ok(), Some(EncryptionMethod::SampleAes));
    assert_eq!(EncryptionMethod::parse("NONE").err(), Some(invalid_value()));
    assert_eq!(EncryptionMethod::parse("aes-128").err(), Some(invalid_value()));
    assert_eq!(EncryptionMethod::Aes128.render(), "AES-128");
    assert_eq!(EncryptionMethod::SampleAes.render(), "SAMPLE-AES");
    assert_eq!(Yes::parse("YES").ok(), Some(Yes));
    assert_eq!(Yes::parse("NO").err(), Some(invalid_value()));
    assert_eq!(Yes.render(), "YES");
}

#[test]
fn protocol_versions_are_ordered_by_number() {
    assert_eq!(ProtocolVersion::V1.as_number(), 1);
    assert_eq!(ProtocolVersion::V7.as_number(), 7);
    assert_eq!(ProtocolVersion::V3.later(ProtocolVersion::V5), ProtocolVersion::V5);
    assert_eq!(ProtocolVersion::V6.later(ProtocolVersion::V2), ProtocolVersion::V6);
    assert_eq!(ProtocolVersion::V4.later(ProtocolVersion::V4), ProtocolVersion::V4);
    assert!(ProtocolVersion::V1 < ProtocolVersion::V2);
}

#[test]
fn decryption_key_parses_and_renders_its_attributes() {
    let key = DecryptionKey::parse(
        r#"METHOD=SAMPLE-AES,URI="k",IV=0x0a,KEYFORMAT="f",KEYFORMATVERSIONS="1/2""#,
    )
    .unwrap();
    assert_eq!(key.method, EncryptionMethod::SampleAes);
    assert_eq!(key.uri.as_str(), "k");
    assert_eq!(key.iv.clone().unwrap().into_bytes(), vec![0x0a]);
    assert_eq!(key.key_format.clone().unwrap().as_str(), "f");
    assert_eq!(key.key_format_versions.clone().unwrap().as_str(), "1/2");
    assert_eq!(key.requires_version(), ProtocolVersion::V5);
    assert_eq!(
        key.render(),
        r#"METHOD=SAMPLE-AES,URI="k",IV=0x0a,KEYFORMAT="f",KEYFORMATVERSIONS="1/2""#
    );
    assert_eq!(
        DecryptionKey::parse("URI=\"k\"").err(),
        Some(Error::invalid_input(Reason::MissingField))
    );
    assert_eq!(
        DecryptionKey::parse("METHOD=AES-128,URI=\"k").err(),
        Some(Error::invalid_input(Reason::MalformedAttribute))
    );
}

#[test]
fn date_is_read_and_written_by_the_calendar() {
    let d = Date::parse("2010-02-19").unwrap();
    assert_eq!(d.year(), 2010);
    assert_eq!(d.month(), 2);
    assert_eq!(d.day(), 19);
    assert_eq!(d.render(), "2010-02-19");
    assert_eq!(Date::new(2010, 2, 19), Some(d));
    assert_eq!(Date::new(2024, 2, 29).unwrap().render(), "2024-02-29");
    assert_eq!(Date::new(5, 1, 2).unwrap().render(), "0005-01-02");
}

#[test]
fn date_refuses_days_that_do_not_exist() {
    assert_eq!(Date::new(2010, 2, 30), None);
    assert_eq!(Date::new(2023, 2, 29), None);
    assert_eq!(Date::new(2010, 13, 1), None);
    assert_eq!(Date::new(2010, 0, 1), None);
    assert_eq!(Date::new(2010, 1, 0), None);
    assert_eq!(Date::new(400000, 1, 1), None);
    assert_eq!(Date::parse("2010-02-30").err(), Some(invalid_value()));
    assert_eq!(Date::parse("2010/02/19").err(), Some(invalid_value()));
    assert_eq!(Date::parse("").err(), Some(invalid_value()));
}

#[test]
fn date_time_is_read_and_written_as_rfc3339() {
    let t = DateTime::parse("2010-02-19T14:54:23.031+08:00").unwrap();
    assert_eq!(t.timestamp(), 1266562463);
    assert_eq!(t.timestamp_subsec_nanos(), 31_000_000);
    assert_eq!(t.offset_seconds(), 28800);
    assert_eq!(t.render(), "2010-02-19T14:54:23.031+08:00");
    assert_eq!(DateTime::new(0, 0, 0).unwrap().render(), "1970-01-01T00:00:00+00:00");
    assert_eq!(DateTime::new(0, 0, -3600).unwrap().render(), "1969-12-31T23:00:00-01:00");
    assert_eq!(DateTime::parse("1970-01-01T00:00:00Z").ok(), DateTime::new(0, 0, 0));
}

#[test]
fn date_time_refuses_what_cannot_be_written_and_read_back() {
    assert_eq!(DateTime::new(0, 0, 86_400), None);
    assert_eq!(DateTime::new(0, 0, 3601), None);
    assert_eq!(DateTime::new(0, 2_000_000_000, 0), None);
    assert_eq!(DateTime::new(i64::MAX, 0, 0), None);
    assert_eq!(DateTime::parse("2010-02-19").err(), Some(invalid_value()));
    assert_eq!(DateTime::parse("2010-02-19T14:54:23").err(), Some(invalid_value()));
    assert_eq!(DateTime::parse("2010-02-30T14:54:23Z").err(), Some(invalid_value()));
}

#[test]
fn client_attributes_are_kept_in_the_order_of_their_names() {
    let mut m = ClientAttributes::new();
    assert_eq!(m.insert("FOO", "1"), Ok(()));
    assert_eq!(m.insert("BAR", "\"a,b\""), Ok(()));
    assert_eq!(m.insert("BAZ", "3"), Ok(()));
    assert_eq!(m.len(), 3);
    assert_eq!(m.name(0), Some("BAR".to_string()));
    assert_eq!(m.name(1), Some("BAZ".to_string()));
    assert_eq!(m.name(2), Some("FOO".to_string()));
    assert_eq!(m.name(3), None);
    assert_eq!(m.get("BAR"), Some("\"a,b\"".to_string()));
    assert_eq!(m.get("QUX"), None);
    assert_eq!(m.insert("BAZ", "4"), Ok(()));
    assert_eq!(m.len(), 3);
    assert_eq!(m.get("BAZ"), Some("4".to_string()));
    assert_eq!(m.insert("BA", "0"), Ok(()));
    assert_eq!(m.name(0), Some("BA".to_string()));
    assert_eq!(m.name(1), Some("BAR".to_string()));
}

#[test]
fn client_attributes_refuse_what_cannot_stand_in_a_list() {
    let mut m = ClientAttributes::new();
    assert_eq!(m.insert("foo", "1"), Err(invalid_value()));
    assert_eq!(m.insert("FOO", "1,2"), Err(invalid_value()));
    assert_eq!(m.insert("FOO", "\"open"), Err(invalid_value()));
    assert_eq!(m.insert("A=B", "1"), Err(invalid_value()));
    assert_eq!(m.len(), 0);
    let same = m.clone();
    assert_eq!(same, m);
}
