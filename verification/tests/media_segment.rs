use hls_m3u8::date::DateTime;
use hls_m3u8::decryption_key::DecryptionKey;
use hls_m3u8::duration::Duration;
use hls_m3u8::hex::HexadecimalSequence;
use hls_m3u8::quoted::QuotedString;
use hls_m3u8::tag::media_segment::{
    ExtInf, ExtXByteRange, ExtXDiscontinuity, ExtXKey, ExtXMap, ExtXProgramDateTime,
};
use hls_m3u8::types::{ByteRange, EncryptionMethod, M3u8String, ProtocolVersion};

#[test]
fn extinf() {
    let tag = ExtInf::new(Duration::from_secs(5));
    assert_eq!(ExtInf::parse("#EXTINF:5").ok(), Some(tag.clone()));
    assert_eq!(tag.render(), "#EXTINF:5");
    assert_eq!(tag.requires_version(), ProtocolVersion::V1);

    let tag = ExtInf::with_title(Duration::from_secs(5), M3u8String::new("foo").unwrap());
    assert_eq!(ExtInf::parse("#EXTINF:5,foo").ok(), Some(tag.clone()));
    assert_eq!(tag.render(), "#EXTINF:5,foo");
    assert_eq!(tag.requires_version(), ProtocolVersion::V1);

    let tag = ExtInf::new(Duration::from_millis(1234));
    assert_eq!(ExtInf::parse("#EXTINF:1.234").ok(), Some(tag.clone()));
    assert_eq!(tag.render(), "#EXTINF:1.234");
    assert_eq!(tag.requires_version(), ProtocolVersion::V3);
}

#[test]
fn ext_x_byterange() {
    let tag = ExtXByteRange::new(ByteRange {
        length: 3,
        start: None,
    });
    assert_eq!(ExtXByteRange::parse("#EXT-X-BYTERANGE:3").ok(), Some(tag));
    assert_eq!(tag.render(), "#EXT-X-BYTERANGE:3");
    assert_eq!(tag.requires_version(), ProtocolVersion::V4);

    let tag = ExtXByteRange::new(ByteRange {
        length: 3,
        start: Some(5),
    });
    assert_eq!(ExtXByteRange::parse("#EXT-X-BYTERANGE:3@5").ok(), Some(tag));
    assert_eq!(tag.render(), "#EXT-X-BYTERANGE:3@5");
    assert_eq!(tag.requires_version(), ProtocolVersion::V4);
}

#[test]
fn ext_x_discontinuity() {
    let tag = ExtXDiscontinuity;
    assert_eq!(ExtXDiscontinuity::parse("#EXT-X-DISCONTINUITY").ok(), Some(tag));
    assert_eq!(tag.render(), "#EXT-X-DISCONTINUITY");
    assert_eq!(tag.requires_version(), ProtocolVersion::V1);
}

#[test]
fn ext_x_key() {
    let tag = ExtXKey::new_without_key();
    let text = "#EXT-X-KEY:METHOD=NONE";
    assert_eq!(ExtXKey::parse(text).ok(), Some(tag.clone()));
    assert_eq!(tag.render(), text);
    assert_eq!(tag.requires_version(), ProtocolVersion::V1);

    let tag = ExtXKey::new(DecryptionKey {
        method: EncryptionMethod::Aes128,
        uri: QuotedString::new("foo").unwrap(),
        iv: None,
        key_format: None,
        key_format_versions: None,
    });
    let text = r#"#EXT-X-KEY:METHOD=AES-128,URI="foo""#;
    assert_eq!(ExtXKey::parse(text).ok(), Some(tag.clone()));
    assert_eq!(tag.render(), text);
    assert_eq!(tag.requires_version(), ProtocolVersion::V1);

    let tag = ExtXKey::new(DecryptionKey {
        method: EncryptionMethod::Aes128,
        uri: QuotedString::new("foo").unwrap(),
        iv: Some(HexadecimalSequence::new(vec![0, 1, 2])),
        key_format: None,
        key_format_versions: None,
    });
    let text = r#"#EXT-X-KEY:METHOD=AES-128,URI="foo",IV=0x000102"#;
    assert_eq!(ExtXKey::parse(text).ok(), Some(tag.clone()));
    assert_eq!(tag.render(), text);
    assert_eq!(tag.requires_version(), ProtocolVersion::V2);

    let tag = ExtXKey::new(DecryptionKey {
        method: EncryptionMethod::Aes128,
        uri: QuotedString::new("foo").unwrap(),
        iv: Some(HexadecimalSequence::new(vec![0, 1, 2])),
        key_format: Some(QuotedString::new("baz").unwrap()),
        key_format_versions: None,
    });
    let text = r#"#EXT-X-KEY:METHOD=AES-128,URI="foo",IV=0x000102,KEYFORMAT="baz""#;
    assert_eq!(ExtXKey::parse(text).ok(), Some(tag.clone()));
    assert_eq!(tag.render(), text);
    assert_eq!(tag.requires_version(), ProtocolVersion::V5);
}

#[test]
fn ext_x_map() {
    let tag = ExtXMap::new(QuotedString::new("foo").unwrap());
    let text = r#"#EXT-X-MAP:URI="foo""#;
    assert_eq!(ExtXMap::parse(text).ok(), Some(tag.clone()));
    assert_eq!(tag.render(), text);
    assert_eq!(tag.requires_version(), ProtocolVersion::V6);

    let tag = ExtXMap::with_range(
        QuotedString::new("foo").unwrap(),
        ByteRange {
            length: 9,
            start: Some(2),
        },
    );
    let text = r#"#EXT-X-MAP:URI="foo",BYTERANGE=9@2"#;
    assert_eq!(ExtXMap::parse(text).ok(), Some(tag.clone()));
    assert_eq!(tag.render(), text);
    assert_eq!(tag.requires_version(), ProtocolVersion::V6);
}

#[test]
fn ext_x_program_date_time() {
    let text = "#EXT-X-PROGRAM-DATE-TIME:2010-02-19T14:54:23.031+08:00";
    assert!(ExtXProgramDateTime::parse(text).is_ok());

    let tag = ExtXProgramDateTime::parse(text).unwrap();
    assert_eq!(tag.render(), text);
    assert_eq!(tag.requires_version(), ProtocolVersion::V1);
}

#[test]
fn program_date_time_holds_the_instant_and_the_offset() {
    let tag =
        ExtXProgramDateTime::parse("#EXT-X-PROGRAM-DATE-TIME:2010-02-19T14:54:23.031+08:00")
            .unwrap();
    let t: DateTime = tag.date_time();
    assert_eq!(t.timestamp(), 1266562463);
    assert_eq!(t.timestamp_subsec_nanos(), 31_000_000);
    assert_eq!(t.offset_seconds(), 8 * 3600);
    let same = DateTime::new(1266562463, 31_000_000, 8 * 3600).unwrap();
    assert_eq!(ExtXProgramDateTime::new(same), tag);
}
