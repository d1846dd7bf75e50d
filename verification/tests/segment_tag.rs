use hls_m3u8::date::{Date, DateTime};
use hls_m3u8::duration::Duration;
use hls_m3u8::error::{Error, Reason};
use hls_m3u8::quoted::QuotedString;
use hls_m3u8::tag::media_segment::{
    ExtInf, ExtXByteRange, ExtXDateRange, ExtXDiscontinuity, ExtXKey, ExtXMap,
    ExtXProgramDateTime, MediaSegmentTag,
};
use hls_m3u8::types::{ByteRange, ProtocolVersion};

fn every_kind() -> Vec<(MediaSegmentTag, &'static str, ProtocolVersion)> {
    vec![
        (
            MediaSegmentTag::ExtInf(ExtInf::new(Duration::from_millis(2500))),
            "#EXTINF:2.5",
            ProtocolVersion::V3,
        ),
        (
            MediaSegmentTag::ExtXByteRange(ExtXByteRange::new(ByteRange {
                length: 10,
                start: None,
            })),
            "#EXT-X-BYTERANGE:10",
            ProtocolVersion::V4,
        ),
        (
            MediaSegmentTag::ExtXDateRange(ExtXDateRange::new(
                QuotedString::new("id").unwrap(),
                Date::new(2020, 1, 31).unwrap(),
            )),
            r#"#EXT-X-DATERANGE:ID="id",START-DATE="2020-01-31""#,
            ProtocolVersion::V1,
        ),
        (
            MediaSegmentTag::ExtXDiscontinuity(ExtXDiscontinuity),
            "#EXT-X-DISCONTINUITY",
            ProtocolVersion::V1,
        ),
        (
            MediaSegmentTag::ExtXKey(ExtXKey::new_without_key()),
            "#EXT-X-KEY:METHOD=NONE",
            ProtocolVersion::V1,
        ),
        (
            MediaSegmentTag::ExtXMap(ExtXMap::new(QuotedString::new("init.mp4").unwrap())),
            r#"#EXT-X-MAP:URI="init.mp4""#,
            ProtocolVersion::V6,
        ),
        (
            MediaSegmentTag::ExtXProgramDateTime(ExtXProgramDateTime::new(
                DateTime::new(86_400, 0, 0).unwrap(),
            )),
            "#EXT-X-PROGRAM-DATE-TIME:1970-01-02T00:00:00+00:00",
            ProtocolVersion::V1,
        ),
    ]
}

#[test]
fn segment_tag_renders_as_its_kind_does() {
    for (tag, line, _) in every_kind() {
        assert_eq!(tag.render(), line);
    }
}

#[test]
fn segment_tag_parses_by_the_prefix_of_the_line() {
    for (tag, line, _) in every_kind() {
        assert_eq!(MediaSegmentTag::parse(line).ok(), Some(tag));
    }
}

#[test]
fn segment_tag_requires_the_version_of_its_kind() {
    for (tag, _, version) in every_kind() {
        assert_eq!(tag.requires_version(), version);
    }
}

#[test]
fn segment_tag_round_trips() {
    for (tag, _, _) in every_kind() {
        assert_eq!(MediaSegmentTag::parse(&tag.render()).ok(), Some(tag.clone()));
        assert_eq!(tag.render(), tag.clone().render());
    }
}

#[test]
fn segment_tag_refuses_other_lines() {
    let wrong = Some(Error::invalid_input(Reason::PrefixMismatch));
    assert_eq!(MediaSegmentTag::parse("").err(), wrong);
    assert_eq!(MediaSegmentTag::parse("#EXTM3U").err(), wrong);
    assert_eq!(MediaSegmentTag::parse("#EXT-X-DISCONTINUITY-SEQUENCE:3").err(), wrong);
    assert_eq!(MediaSegmentTag::parse("segment.ts").err(), wrong);
    assert_eq!(
        MediaSegmentTag::parse("#EXTINF:x").err(),
        Some(Error::invalid_input(Reason::InvalidValue))
    );
    assert_eq!(
        MediaSegmentTag::parse("#EXT-X-MAP:BYTERANGE=1").err(),
        Some(Error::invalid_input(Reason::MissingField))
    );
}
