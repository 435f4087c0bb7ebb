//! Configuration, byte hints, ranges and the planner.

use condow::config::{Config, RetryConfig};
use condow::machinery::range_stream::RangeStream;
use condow::range::{DownloadRange, GetSizeMode, InclusiveRange};
use condow::streams::bytes_hint::BytesHint;

#[test]
fn config_validation() {
    assert!(Config::default().validated().is_ok());
    assert!(Config::default().part_size_bytes(0).validated().is_err());
    assert!(Config::default().max_concurrency(0).validated().is_err());
    assert!(Config::default().buffer_size(0).validated().is_err());
    assert!(Config::default()
        .retries(RetryConfig::default().delay_factor_permille(900))
        .validated()
        .is_err());
}

#[test]
fn retry_delays_grow_and_cap() {
    let rc = RetryConfig::default()
        .initial_delay_ms(50)
        .delay_factor_permille(1500)
        .max_delay_ms(100);
    assert_eq!(rc.delay_ms(1), 50);
    assert_eq!(rc.delay_ms(2), 75);
    assert_eq!(rc.delay_ms(3), 100);
    assert_eq!(rc.delay_ms(4), 100);
}

#[test]
fn jittered_delay_stays_below_the_delay() {
    assert_eq!(RetryConfig::jittered_delay_ms(10, 25), 3);
    assert_eq!(RetryConfig::jittered_delay_ms(0, 12345), 0);
    assert!(RetryConfig::jittered_delay_ms(7, u64::MAX) <= 7);
}

#[test]
fn bytes_hint_algebra() {
    let mut hint = BytesHint::new(10, Some(20));
    hint.reduce_by(5);
    assert_eq!(hint, BytesHint::new(5, Some(15)));
    hint.reduce_by(7);
    // The lower bound saturates at 0; the upper keeps shrinking.
    assert_eq!(hint, BytesHint::new(0, Some(8)));
    hint.reduce_by(9);
    // Shrinking past the upper bound degrades it to unknown.
    assert_eq!(hint, BytesHint::new(0, None));

    assert!(BytesHint::new_exact(4).is_exact());
    assert_eq!(BytesHint::new_exact(4).exact(), Some(4));
    assert_eq!(BytesHint::new_at_max(9), BytesHint::new(0, Some(9)));
    assert_eq!(BytesHint::new_no_hint().exact(), None);
    assert_eq!(
        BytesHint::new(1, Some(2)).combine(BytesHint::new(3, Some(4))),
        BytesHint::new(4, Some(6))
    );
    assert_eq!(
        BytesHint::new(1, Some(2)).combine(BytesHint::new_no_hint()),
        BytesHint::new(1, None)
    );
    assert_eq!(BytesHint::new(3, Some(9)).into_inner(), (3, Some(9)));
    assert_eq!(BytesHint::new(3, Some(9)).lower_bound(), 3);
    assert_eq!(BytesHint::new(3, Some(9)).upper_bound(), Some(9));
}

#[test]
fn get_size_mode_enforcement() {
    assert!(GetSizeMode::Always.is_load_size_enforced(false));
    assert!(!GetSizeMode::Required.is_load_size_enforced(true));
    assert!(GetSizeMode::Default.is_load_size_enforced(true));
    assert!(!GetSizeMode::Default.is_load_size_enforced(false));
}

#[test]
fn range_resolution() {
    // Open forms need the size; closed forms are clamped against it.
    assert_eq!(
        DownloadRange::Complete.resolve_with_size(100),
        Some(InclusiveRange(0, 99))
    );
    assert_eq!(DownloadRange::Complete.resolve_with_size(0), None);
    assert_eq!(
        DownloadRange::Closed(10, 19).resolve_with_size(100),
        Some(InclusiveRange(10, 19))
    );
    assert_eq!(
        DownloadRange::Closed(0, 999).resolve_with_size(100),
        Some(InclusiveRange(0, 99))
    );
    assert_eq!(DownloadRange::Closed(100, 200).resolve_with_size(100), None);
    assert_eq!(
        DownloadRange::From(90).resolve_with_size(100),
        Some(InclusiveRange(90, 99))
    );
    assert_eq!(DownloadRange::From(100).resolve_with_size(100), None);
    assert_eq!(
        DownloadRange::Suffix(10).resolve_with_size(100),
        Some(InclusiveRange(90, 99))
    );
    assert_eq!(
        DownloadRange::Suffix(1000).resolve_with_size(100),
        Some(InclusiveRange(0, 99))
    );
    assert_eq!(DownloadRange::Suffix(0).resolve_with_size(100), None);
}

#[test]
fn range_validation() {
    assert!(DownloadRange::Closed(3, 3).validate().is_ok());
    assert!(DownloadRange::Closed(4, 3).validate().is_err());
    assert!(DownloadRange::Complete.validate().is_ok());
}

#[test]
fn planner_layout() {
    let (n, parts) = RangeStream::create(InclusiveRange(0, 99), 10);
    assert_eq!(n, 10);
    assert_eq!(parts.len(), 10);
    for (i, part) in parts.iter().enumerate() {
        assert_eq!(part.part_index, i as u64);
        assert_eq!(part.range_offset, (i as u64) * 10);
        assert_eq!(part.blob_range, InclusiveRange((i as u64) * 10, (i as u64) * 10 + 9));
    }

    // A trailing short part.
    let (n, parts) = RangeStream::create(InclusiveRange(5, 18), 10);
    assert_eq!(n, 2);
    assert_eq!(parts[0].blob_range, InclusiveRange(5, 14));
    assert_eq!(parts[1].blob_range, InclusiveRange(15, 18));
    assert_eq!(parts[1].range_offset, 10);

    // One part for a range smaller than the part size.
    let (n, parts) = RangeStream::create(InclusiveRange(42, 43), 10);
    assert_eq!(n, 1);
    assert_eq!(parts[0].blob_range, InclusiveRange(42, 43));
}

#[test]
fn planner_is_idempotent() {
    // Planning twice gives identical sequences.
    let (n1, parts1) = RangeStream::create(InclusiveRange(3, 77), 8);
    let (n2, parts2) = RangeStream::create(InclusiveRange(3, 77), 8);
    assert_eq!(n1, n2);
    assert_eq!(parts1, parts2);
}

#[test]
fn inclusive_range_accessors() {
    let r = InclusiveRange(10, 19);
    assert_eq!(r.start(), 10);
    assert_eq!(r.end_incl(), 19);
    assert_eq!(r.len(), 10);
}
