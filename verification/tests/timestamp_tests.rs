//! Instants and their text forms.

use sel_deploy::commands::{timeline_bounds, timeline_centre};
use sel_deploy::error::TimelineError;
use sel_deploy::timestamp::Timestamp;

const SECS: i64 = 1787071860; // 2026-08-18T16:51:00Z

#[test]
fn text_forms_of_an_instant() {
    let t = Timestamp::from_unix(SECS, 0).unwrap();
    assert_eq!(t.document_text(), "2026-08-18T16:51:00Z");
    assert_eq!(t.to_rfc3339(), "2026-08-18T16:51:00+00:00");
    assert_eq!(t.second_stamp(), "2026-08-18T16-51-00");
    assert_eq!(t.format("%H:%M:%S"), "16:51:00");
    assert_eq!(t.utc_text(), "2026-08-18 16:51:00");
    let f = Timestamp::from_unix(SECS, 123456789).unwrap();
    assert_eq!(f.document_text(), "2026-08-18T16:51:00.123456789Z");
    assert_eq!(f.subsec_nanos(), 123456789);
    assert_eq!(f.unix_seconds(), SECS);
}

#[test]
fn parse_rfc3339_reads_offsets_as_utc() {
    let t = Timestamp::parse_rfc3339("2026-08-18T18:51:00+02:00").unwrap();
    assert_eq!(t.unix_seconds(), SECS);
    assert_eq!(Timestamp::parse_rfc3339("2026-08-18T16:51:00Z").unwrap(), t);
    assert!(Timestamp::parse_rfc3339("yesterday").is_none());
}

#[test]
fn out_of_range_parts_are_refused() {
    assert!(Timestamp::from_unix(SECS, 2_000_000_000).is_none());
    assert!(Timestamp::from_unix(i64::MAX, 0).is_none());
}

#[test]
fn timeline_centre_accepts_the_documented_forms() {
    for raw in ["2026-08-18T16:51:00Z", "2026-08-18T16:51:00", "2026-08-18 16:51:00", "2026-08-18T18:51:00+02:00"] {
        assert_eq!(timeline_centre(raw).unwrap().unix_seconds(), SECS, "{raw}");
    }
}

#[test]
fn timeline_centre_errors() {
    assert_eq!(timeline_centre("not-a-date"), Err(TimelineError::InvalidTimestamp));
    assert_eq!(timeline_centre("2026-13-01T00:00:00Z"), Err(TimelineError::InvalidRfc3339));
    assert_eq!(timeline_centre("2026-08-18+xx"), Err(TimelineError::InvalidRfc3339));
}

#[test]
fn timeline_window_goes_both_ways() {
    let c = Timestamp::from_unix(SECS, 0).unwrap();
    let (start, end) = timeline_bounds(&c, 60).unwrap();
    assert_eq!(start.unix_seconds(), SECS - 3600);
    assert_eq!(end.unix_seconds(), SECS + 3600);
    let (s0, e0) = timeline_bounds(&c, 0).unwrap();
    assert_eq!((s0, e0), (c, c));
    assert!(timeline_bounds(&c, i64::MAX).is_none());
}
