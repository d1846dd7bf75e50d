use hls_m3u8::date::{Date, DateTime};
use hls_m3u8::decryption_key::DecryptionKey;
use hls_m3u8::duration::Duration;
use hls_m3u8::error::{Error, ErrorKind, Reason};
use hls_m3u8::hex::HexadecimalSequence;
use hls_m3u8::quoted::QuotedString;
use hls_m3u8::tag::media_segment::{
    ExtInf, ExtXByteRange, ExtXDateRange, ExtXDiscontinuity, ExtXKey, ExtXMap,
    ExtXProgramDateTime,
};
use hls_m3u8::types::{ByteRange, EncryptionMethod, M3u8String, ProtocolVersion, Yes};

fn quoted(s: &str) -> QuotedString {
    QuotedString::new(s).unwrap()
}

fn because(reason: Reason) -> Option<Error> {
    Some(Error::invalid_input(reason))
}

fn full_key() -> DecryptionKey {
    DecryptionKey {
        method: EncryptionMethod::SampleAes,
        uri: quoted("https://example.com/key,1"),
        iv: Some(HexadecimalSequence::new(vec![0xde, 0xad, 0xbe, 0xef])),
        key_format: Some(quoted("identity")),
        key_format_versions: Some(quoted("1/2/5")),
    }
}

fn full_date_range() -> ExtXDateRange {
    ExtXDateRange::new(quoted("splice-6FFFFFF0"), Date::new(2014, 3, 5).unwrap())
        .with_class(quoted("com.example.ad"))
        .with_end_date(Date::new(2014, 3, 6).unwrap())
        .with_duration(Duration::new(59, 993_000_000).unwrap())
        .with_planned_duration(Duration::from_secs(60))
        .with_scte35_cmd(quoted("0xFC00"))
        .with_scte35_out(quoted("0xFC01"))
        .with_scte35_in(quoted("0xFC02"))
        .with_end_on_next()
        .unwrap()
        .with_client_attribute("COM-EXAMPLE-B", "\"x,y\"")
        .unwrap()
        .with_client_attribute("COM-EXAMPLE-A", "12.5")
        .unwrap()
}

#[test]
fn duration_tag_with_whole_seconds() {
    let tag = ExtInf::parse("#EXTINF:5").unwrap();
    assert_eq!(tag.duration().as_secs(), 5);
    assert_eq!(tag.duration().subsec_nanos(), 0);
    assert_eq!(tag.title(), None);
    assert_eq!(tag.requires_version(), ProtocolVersion::V1);
}

#[test]
fn duration_tag_with_fraction_and_title() {
    let tag = ExtInf::parse("#EXTINF:1.234,Sample Title").unwrap();
    assert_eq!(tag.duration(), Duration::from_millis(1234));
    assert_eq!(tag.duration().as_secs(), 1);
    assert_eq!(tag.duration().subsec_nanos(), 234_000_000);
    assert_eq!(tag.title().unwrap().as_str(), "Sample Title");
    assert_eq!(tag.requires_version(), ProtocolVersion::V3);
}

#[test]
fn duration_tag_keeps_commas_in_the_title() {
    let tag = ExtInf::parse("#EXTINF:5,a,b").unwrap();
    assert_eq!(tag.title().unwrap().as_str(), "a,b");
    assert_eq!(tag.render(), "#EXTINF:5,a,b");
    let tag = ExtInf::parse("#EXTINF:5,").unwrap();
    assert_eq!(tag.title().unwrap().as_str(), "");
    assert_eq!(tag.render(), "#EXTINF:5,");
}

#[test]
fn duration_tag_refuses_bad_values() {
    assert_eq!(ExtInf::parse("#EXTINF:").err(), because(Reason::InvalidValue));
    assert_eq!(ExtInf::parse("#EXTINF:abc").err(), because(Reason::InvalidValue));
    assert_eq!(ExtInf::parse("#EXTINF:,title").err(), because(Reason::InvalidValue));
    assert_eq!(ExtInf::parse("#EXTINF:5,a\tb").err(), because(Reason::InvalidValue));
}

#[test]
fn byte_range_tag_with_start() {
    let tag = ExtXByteRange::parse("#EXT-X-BYTERANGE:3@5").unwrap();
    assert_eq!(tag.range(), ByteRange { length: 3, start: Some(5) });
    assert_eq!(tag.render(), "#EXT-X-BYTERANGE:3@5");
    assert_eq!(tag.requires_version(), ProtocolVersion::V4);
    assert_eq!(ExtXByteRange::parse("#EXT-X-BYTERANGE:x").err(), because(Reason::InvalidValue));
}

#[test]
fn key_tag_without_key() {
    let tag = ExtXKey::parse("#EXT-X-KEY:METHOD=NONE").unwrap();
    assert_eq!(tag.key(), None);
    assert_eq!(tag.render(), "#EXT-X-KEY:METHOD=NONE");
    assert_eq!(tag.requires_version(), ProtocolVersion::V1);
}

#[test]
fn key_tag_with_key_format_requires_version_five() {
    let tag =
        ExtXKey::parse(r#"#EXT-X-KEY:METHOD=AES-128,URI="foo",IV=0x000102,KEYFORMAT="baz""#)
            .unwrap();
    assert_eq!(tag.requires_version(), ProtocolVersion::V5);
    let key = tag.key().unwrap();
    assert_eq!(key.method, EncryptionMethod::Aes128);
    assert_eq!(key.uri.as_str(), "foo");
    assert_eq!(key.iv.clone().unwrap().into_bytes(), vec![0, 1, 2]);
    assert_eq!(key.key_format.clone().unwrap().as_str(), "baz");
    assert_eq!(key.key_format_versions, None);
}

#[test]
fn key_tag_without_key_forbids_the_attributes_of_a_key() {
    for line in [
        r#"#EXT-X-KEY:METHOD=NONE,URI="foo""#,
        "#EXT-X-KEY:METHOD=NONE,IV=0x00",
        r#"#EXT-X-KEY:KEYFORMAT="f",METHOD=NONE"#,
        r#"#EXT-X-KEY:METHOD=NONE,KEYFORMATVERSIONS="1""#,
    ] {
        assert_eq!(ExtXKey::parse(line).err(), because(Reason::ForbiddenCombination));
    }
}

#[test]
fn key_tag_reports_each_reason() {
    assert_eq!(ExtXKey::parse("#EXT-X-KEY").err(), because(Reason::PrefixMismatch));
    assert_eq!(ExtXKey::parse("#EXT-X-KEY:method=NONE").err(), because(Reason::MalformedAttribute));
    assert_eq!(
        ExtXKey::parse(r#"#EXT-X-KEY:METHOD=FOO,URI="x""#).err(),
        because(Reason::InvalidValue)
    );
    assert_eq!(ExtXKey::parse("#EXT-X-KEY:METHOD=AES-128").err(), because(Reason::MissingField));
    assert_eq!(ExtXKey::parse("#EXT-X-KEY:").err(), because(Reason::MissingField));
    assert_eq!(
        ExtXKey::parse("#EXT-X-KEY:METHOD=NONE,IV=0x00").err(),
        because(Reason::ForbiddenCombination)
    );
    assert_eq!(
        ExtXKey::parse("#EXT-X-KEY:METHOD=NONE,IV=0x00").err().unwrap().kind(),
        ErrorKind::InvalidInput
    );
}

#[test]
fn map_tag_reports_each_reason() {
    assert_eq!(ExtXMap::parse("#EXT-X-MAP").err(), because(Reason::PrefixMismatch));
    assert_eq!(ExtXMap::parse("#EXT-X-MAP:URI").err(), because(Reason::MalformedAttribute));
    assert_eq!(ExtXMap::parse("#EXT-X-MAP:URI=foo").err(), because(Reason::InvalidValue));
    assert_eq!(
        ExtXMap::parse(r#"#EXT-X-MAP:URI="foo",BYTERANGE=x"#).err(),
        because(Reason::InvalidValue)
    );
    assert_eq!(ExtXMap::parse("#EXT-X-MAP:BYTERANGE=9@2").err(), because(Reason::MissingField));
}

#[test]
fn the_last_of_two_attributes_with_one_name_counts() {
    let tag = ExtXMap::parse(r#"#EXT-X-MAP:URI="a",BYTERANGE=1,URI="b",BYTERANGE=2@3"#).unwrap();
    assert_eq!(tag.uri().as_str(), "b");
    assert_eq!(tag.range(), Some(ByteRange { length: 2, start: Some(3) }));
    assert_eq!(
        ExtXMap::parse(r#"#EXT-X-MAP:URI=a,URI="b""#).err(),
        because(Reason::InvalidValue)
    );
}

#[test]
fn date_range_with_end_on_next_requires_class() {
    let e = ExtXDateRange::parse(r#"#EXT-X-DATERANGE:ID="x",END-ON-NEXT=YES"#).unwrap_err();
    assert_eq!(e.kind(), ErrorKind::InvalidInput);
    assert_eq!(
        ExtXDateRange::parse(r#"#EXT-X-DATERANGE:ID="x",START-DATE="2010-02-19",END-ON-NEXT=YES"#)
            .err(),
        because(Reason::ForbiddenCombination)
    );
    let tag = ExtXDateRange::parse(
        r#"#EXT-X-DATERANGE:ID="x",CLASS="c",START-DATE="2010-02-19",END-ON-NEXT=YES"#,
    )
    .unwrap();
    assert_eq!(tag.end_on_next(), Some(Yes));
    assert_eq!(tag.class().unwrap().as_str(), "c");
    let plain = ExtXDateRange::new(quoted("x"), Date::new(2010, 2, 19).unwrap());
    assert_eq!(plain.clone().with_end_on_next().err(), because(Reason::ForbiddenCombination));
    assert_eq!(plain.with_class(quoted("c")).with_end_on_next().ok(), Some(tag));
}

#[test]
fn date_range_reads_every_attribute() {
    let line = concat_line();
    let tag = ExtXDateRange::parse(&line).unwrap();
    assert_eq!(tag.id().as_str(), "splice-6FFFFFF0");
    assert_eq!(tag.class().unwrap().as_str(), "com.example.ad");
    assert_eq!(tag.start_date(), Date::new(2014, 3, 5).unwrap());
    assert_eq!(tag.end_date(), Date::new(2014, 3, 6));
    assert_eq!(tag.duration(), Duration::new(59, 993_000_000));
    assert_eq!(tag.planned_duration(), Some(Duration::from_secs(60)));
    assert_eq!(tag.scte35_cmd().unwrap().as_str(), "0xFC00");
    assert_eq!(tag.scte35_out().unwrap().as_str(), "0xFC01");
    assert_eq!(tag.scte35_in().unwrap().as_str(), "0xFC02");
    assert_eq!(tag.end_on_next(), Some(Yes));
    assert_eq!(tag.client_attributes().len(), 2);
    assert_eq!(tag.client_attributes().get("COM-EXAMPLE-A"), Some("12.5".to_string()));
    assert_eq!(tag.client_attributes().get("COM-EXAMPLE-B"), Some("\"x,y\"".to_string()));
    assert_eq!(tag.requires_version(), ProtocolVersion::V1);
    assert_eq!(tag, full_date_range());
}

fn concat_line() -> String {
    let mut line = String::new();
    line.push_str(r#"#EXT-X-DATERANGE:ID="splice-6FFFFFF0",CLASS="com.example.ad","#);
    line.push_str(r#"START-DATE="2014-03-05",END-DATE="2014-03-06",DURATION=59.993,"#);
    line.push_str(r#"PLANNED-DURATION=60,SCTE35-CMD="0xFC00",SCTE35-OUT="0xFC01","#);
    line.push_str(r#"SCTE35-IN="0xFC02",END-ON-NEXT=YES,"#);
    line.push_str(r#"X-COM-EXAMPLE-A=12.5,X-COM-EXAMPLE-B="x,y""#);
    line
}

#[test]
fn date_range_writes_its_attributes_in_a_fixed_order() {
    assert_eq!(full_date_range().render(), concat_line());
    let small = ExtXDateRange::new(quoted("x"), Date::new(2010, 2, 19).unwrap());
    assert_eq!(small.render(), r#"#EXT-X-DATERANGE:ID="x",START-DATE="2010-02-19""#);
}

#[test]
fn date_range_reports_each_reason() {
    assert_eq!(ExtXDateRange::parse("#EXT-X-DATERANGE").err(), because(Reason::PrefixMismatch));
    assert_eq!(
        ExtXDateRange::parse("#EXT-X-DATERANGE:ID").err(),
        because(Reason::MalformedAttribute)
    );
    assert_eq!(
        ExtXDateRange::parse(r#"#EXT-X-DATERANGE:ID="x",START-DATE="2010-02-30""#).err(),
        because(Reason::InvalidValue)
    );
    assert_eq!(
        ExtXDateRange::parse(r#"#EXT-X-DATERANGE:ID="x",START-DATE=2010-02-19"#).err(),
        because(Reason::InvalidValue)
    );
    assert_eq!(
        ExtXDateRange::parse(r#"#EXT-X-DATERANGE:ID="x",START-DATE="2010-02-19",DURATION=x"#)
            .err(),
        because(Reason::InvalidValue)
    );
    assert_eq!(
        ExtXDateRange::parse(r#"#EXT-X-DATERANGE:ID="x",START-DATE="2010-02-19",END-ON-NEXT=NO"#)
            .err(),
        because(Reason::InvalidValue)
    );
    assert_eq!(
        ExtXDateRange::parse(r#"#EXT-X-DATERANGE:START-DATE="2010-02-19""#).err(),
        because(Reason::MissingField)
    );
    assert_eq!(
        ExtXDateRange::parse(r#"#EXT-X-DATERANGE:ID="x""#).err(),
        because(Reason::MissingField)
    );
}

#[test]
fn date_range_client_attributes_last_write_wins() {
    let tag = ExtXDateRange::parse(
        r#"#EXT-X-DATERANGE:ID="x",START-DATE="2010-02-19",X-B=1,X-A=2,X-B=3"#,
    )
    .unwrap();
    assert_eq!(tag.client_attributes().len(), 2);
    assert_eq!(tag.client_attributes().name(0), Some("A".to_string()));
    assert_eq!(tag.client_attributes().get("B"), Some("3".to_string()));
    assert_eq!(tag.render(), r#"#EXT-X-DATERANGE:ID="x",START-DATE="2010-02-19",X-A=2,X-B=3"#);
}

#[test]
fn date_range_refuses_client_attributes_that_cannot_be_written() {
    let tag = ExtXDateRange::new(quoted("x"), Date::new(2010, 2, 19).unwrap());
    assert_eq!(
        tag.clone().with_client_attribute("lower", "1").err(),
        because(Reason::InvalidValue)
    );
    assert_eq!(
        tag.clone().with_client_attribute("A", "1,2").err(),
        because(Reason::InvalidValue)
    );
    assert!(tag.with_client_attribute("A", "").is_ok());
}

#[test]
fn parsing_what_was_rendered_gives_the_tag_back() {
    let inf = ExtInf::with_title(
        Duration::new(9, 9_000).unwrap(),
        M3u8String::new("a, b \"c\"").unwrap(),
    );
    assert_eq!(ExtInf::parse(&inf.render()).ok(), Some(inf));
    let inf = ExtInf::new(Duration::from_secs(0));
    assert_eq!(ExtInf::parse(&inf.render()).ok(), Some(inf));

    let range = ExtXByteRange::new(ByteRange { length: 0, start: Some(usize::MAX) });
    assert_eq!(ExtXByteRange::parse(&range.render()).ok(), Some(range));

    let mark = ExtXDiscontinuity;
    assert_eq!(ExtXDiscontinuity::parse(&mark.render()).ok(), Some(mark));

    let key = ExtXKey::new(full_key());
    assert_eq!(ExtXKey::parse(&key.render()).ok(), Some(key));
    let key = ExtXKey::new_without_key();
    assert_eq!(ExtXKey::parse(&key.render()).ok(), Some(key));

    let map = ExtXMap::with_range(quoted("a,b=c"), ByteRange { length: 7, start: None });
    assert_eq!(ExtXMap::parse(&map.render()).ok(), Some(map));

    let time = ExtXProgramDateTime::new(DateTime::new(1_500_000_000, 123_456_789, -19_800).unwrap());
    assert_eq!(time.render(), "#EXT-X-PROGRAM-DATE-TIME:2017-07-13T21:10:00.123456789-05:30");
    assert_eq!(ExtXProgramDateTime::parse(&time.render()).ok(), Some(time));

    let range = full_date_range();
    assert_eq!(ExtXDateRange::parse(&range.render()).ok(), Some(range));
}

#[test]
fn rendering_twice_gives_the_same_text() {
    let key = ExtXKey::new(full_key());
    assert_eq!(key.render(), key.render());
    assert_eq!(key.render().as_bytes(), key.clone().render().as_bytes());
    let range = full_date_range();
    assert_eq!(range.render(), range.render());
    let inf = ExtInf::new(Duration::from_millis(1500));
    assert_eq!(inf.render(), inf.render());
    let time = ExtXProgramDateTime::new(DateTime::new(0, 0, 0).unwrap());
    assert_eq!(time.render(), time.render());
}

#[test]
fn lines_without_the_prefix_are_refused() {
    let wrong = because(Reason::PrefixMismatch);
    assert_eq!(ExtInf::parse("#EXTINF").err(), wrong);
    assert_eq!(ExtInf::parse("#extinf:5").err(), wrong);
    assert_eq!(ExtInf::parse(" #EXTINF:5").err(), wrong);
    assert_eq!(ExtInf::parse("").err(), wrong);
    assert_eq!(ExtXByteRange::parse("#EXT-X-BYTERANGE3").err(), wrong);
    assert_eq!(ExtXDiscontinuity::parse("#EXT-X-DISCONTINUIT").err(), wrong);
    assert_eq!(ExtXDiscontinuity::parse("#EXT-X-DISCONTINUITY ").err(), wrong);
    assert_eq!(ExtXDiscontinuity::parse("#EXT-X-DISCONTINUITY-SEQUENCE:1").err(), wrong);
    assert_eq!(ExtXKey::parse("#EXT-X-MAP:METHOD=NONE").err(), wrong);
    assert_eq!(ExtXMap::parse(r#"#EXT-X-KEY:URI="foo""#).err(), wrong);
    assert_eq!(ExtXProgramDateTime::parse("2010-02-19T14:54:23.031+08:00").err(), wrong);
    assert_eq!(
        ExtXDateRange::parse(r#"#EXT-X-DATERANG:ID="x",START-DATE="2010-02-19""#).err(),
        wrong
    );
}

#[test]
fn more_optional_attributes_never_lower_the_version() {
    let mut key = DecryptionKey {
        method: EncryptionMethod::Aes128,
        uri: quoted("foo"),
        iv: None,
        key_format: None,
        key_format_versions: None,
    };
    let none = ExtXKey::new_without_key().requires_version();
    let plain = ExtXKey::new(key.clone()).requires_version();
    key.iv = Some(HexadecimalSequence::new(vec![1]));
    let with_iv = ExtXKey::new(key.clone()).requires_version();
    key.key_format_versions = Some(quoted("1"));
    let with_versions = ExtXKey::new(key.clone()).requires_version();
    key.key_format = Some(quoted("f"));
    let with_format = ExtXKey::new(key.clone()).requires_version();
    assert_eq!(none, ProtocolVersion::V1);
    assert_eq!(plain, ProtocolVersion::V1);
    assert_eq!(with_iv, ProtocolVersion::V2);
    assert_eq!(with_versions, ProtocolVersion::V5);
    assert_eq!(with_format, ProtocolVersion::V5);
    assert!(none <= plain && plain <= with_iv && with_iv <= with_versions);
    key.iv = None;
    assert_eq!(key.requires_version(), ProtocolVersion::V5);

    let short = ExtInf::new(Duration::from_millis(1500));
    let titled = ExtInf::with_title(Duration::from_millis(1500), M3u8String::new("t").unwrap());
    assert_eq!(short.requires_version(), titled.requires_version());
}

#[test]
fn unknown_attributes_are_passed_over() {
    let line = r#"#EXT-X-MAP:URI="foo",BYTERANGE=9@2"#;
    let more = format!("{},{}", line, r#"FUTURE-ATTRIBUTE="a,b""#);
    assert_eq!(ExtXMap::parse(&more).ok(), ExtXMap::parse(line).ok());
    assert!(ExtXMap::parse(&more).is_ok());

    let line = r#"#EXT-X-KEY:METHOD=AES-128,URI="foo""#;
    let more = format!("{},{}", line, "KEYID=0x01");
    assert_eq!(ExtXKey::parse(&more).ok(), ExtXKey::parse(line).ok());
    assert!(ExtXKey::parse(&more).is_ok());
    assert_eq!(
        ExtXKey::parse("#EXT-X-KEY:METHOD=NONE,FOO=bar").ok(),
        Some(ExtXKey::new_without_key())
    );

    let line = concat_line();
    let more = format!("{},{}", line, "SCTE35=1");
    assert_eq!(ExtXDateRange::parse(&more).ok(), Some(full_date_range()));
}
