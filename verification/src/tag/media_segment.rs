//! The tags that apply to the media segments of a playlist.

pub mod byte_range;
pub mod date_range;
pub mod discontinuity;
pub mod inf;
pub mod key;
pub mod map;
pub mod program_date_time;
pub mod segment_tag;

pub use byte_range::ExtXByteRange;
pub use date_range::{ExtXDateRange, ExtXDateRangeView};
pub use discontinuity::ExtXDiscontinuity;
pub use inf::{ExtInf, ExtInfView};
pub use key::{ExtXKey, ExtXKeyView};
pub use map::{ExtXMap, ExtXMapView};
pub use program_date_time::ExtXProgramDateTime;
pub use segment_tag::{MediaSegmentTag, MediaSegmentTagView};
