//! End-to-end downloads against the scripted in-memory client, covering
//! the happy path, request failures, stream failures, resumption, and
//! panic handling.

use condow::condow_client::{FetchResponse, SimClient};
use condow::config::{Config, RetryConfig};
use condow::errors::CondowErrorKind;
use condow::machinery;
use condow::range::{DownloadRange, GetSizeMode};
use condow::reporter::SinkEvent;

fn blob_0_to_99() -> Vec<u8> {
    (0u8..100).collect::<Vec<u8>>()
}

fn no_retry_config() -> Config {
    Config::default()
        .buffers_full_delay_ms(0)
        .part_size_bytes(10)
        .max_concurrency(2)
        .disable_retries()
}

fn one_retry_config() -> Config {
    Config::default()
        .buffers_full_delay_ms(0)
        .part_size_bytes(10)
        .max_concurrency(1)
        .retries(RetryConfig::default().max_attempts(1).initial_delay_ms(0))
}

fn count_event(events: &[SinkEvent], wanted: SinkEvent) -> usize {
    events.iter().filter(|e| **e == wanted).count()
}

#[test]
fn download_ok() {
    let blob = blob_0_to_99();
    let mut client = SimClient::new(blob.clone(), 100);
    let config = no_retry_config();

    let result = machinery::download(
        &mut client,
        &config,
        DownloadRange::Closed(0, 99),
        GetSizeMode::Required,
    );

    let (stream, events) = result.unwrap().into_parts();
    let result_bytes = stream.into_vec().unwrap();

    assert_eq!(result_bytes, blob);
    // The happy path fires `download_completed` exactly once.
    assert_eq!(count_event(&events, SinkEvent::DownloadCompleted), 1);
    assert_eq!(count_event(&events, SinkEvent::DownloadFailed), 0);
    // The download starts with its start event and reports every part
    // with its chunk count and byte total.
    assert_eq!(events[0], SinkEvent::DownloadStarted);
    for p in 0..10u64 {
        assert_eq!(count_event(&events, SinkEvent::PartCompleted(p, 1, 10)), 1);
        assert_eq!(count_event(&events, SinkEvent::ChunkCompleted(p, 0, 10)), 1);
    }
}

#[test]
fn download_request_failure() {
    let blob = blob_0_to_99();
    let mut client = SimClient::new(blob, 100);
    client.push_response(FetchResponse::Failure(CondowErrorKind::Other));
    let config = no_retry_config();

    let result = machinery::download(
        &mut client,
        &config,
        DownloadRange::Closed(0, 99),
        GetSizeMode::Required,
    );

    let (stream, events) = result.unwrap().into_parts();
    assert_eq!(
        stream.into_vec().unwrap_err().kind(),
        CondowErrorKind::Other
    );
    // A single failure, exactly one terminal event.
    assert_eq!(count_event(&events, SinkEvent::DownloadFailed), 1);
    assert_eq!(count_event(&events, SinkEvent::DownloadCompleted), 0);
}

#[test]
fn download_stream_error() {
    let blob = blob_0_to_99();
    let mut client = SimClient::new(blob, 100);
    client.push_response(FetchResponse::StreamFailure(5));
    let config = no_retry_config();

    let result = machinery::download(
        &mut client,
        &config,
        DownloadRange::Closed(0, 99),
        GetSizeMode::Required,
    );

    let (stream, _events) = result.unwrap().into_parts();
    assert_eq!(stream.into_vec().unwrap_err().kind(), CondowErrorKind::Io);
}

#[test]
fn download_panic_no_retries() {
    let blob = blob_0_to_99();
    let mut client = SimClient::new(blob, 100);
    client.push_response(FetchResponse::Panic);
    let config = no_retry_config();

    let result = machinery::download(
        &mut client,
        &config,
        DownloadRange::Closed(0, 99),
        GetSizeMode::Required,
    );

    let (stream, events) = result.unwrap().into_parts();
    let err = stream.into_vec().unwrap_err();

    assert_eq!(err.kind(), CondowErrorKind::Other);
    assert_eq!(err.msg(), "download ended unexpectedly due to a panic");
    assert_eq!(count_event(&events, SinkEvent::PanicDetected), 1);
}

#[test]
fn download_panic_in_retry_after_stream_failure() {
    let blob = blob_0_to_99();
    let mut client = SimClient::new(blob, 100);
    client.push_response(FetchResponse::StreamFailure(5));
    client.push_response(FetchResponse::Panic);
    let config = one_retry_config();

    let result = machinery::download(
        &mut client,
        &config,
        DownloadRange::Closed(0, 99),
        GetSizeMode::Required,
    );

    let (stream, _events) = result.unwrap().into_parts();
    let err = stream.into_vec().unwrap_err();

    assert_eq!(err.kind(), CondowErrorKind::Io);
    assert_eq!(err.msg(), "panicked while retrying");
}

#[test]
fn download_panic_while_streaming() {
    let blob = blob_0_to_99();
    let mut client = SimClient::new(blob, 100);
    client.push_response(FetchResponse::StreamPanic(5));
    let config = no_retry_config();

    let result = machinery::download(
        &mut client,
        &config,
        DownloadRange::Closed(0, 99),
        GetSizeMode::Required,
    );

    let (stream, events) = result.unwrap().into_parts();
    let err = stream.into_vec().unwrap_err();

    assert_eq!(err.kind(), CondowErrorKind::Other);
    assert_eq!(err.msg(), "download ended unexpectedly due to a panic");
    // The panic is reported exactly once.
    assert_eq!(count_event(&events, SinkEvent::PanicDetected), 1);
}

#[test]
fn download_panic_in_retry_while_streaming() {
    let blob = blob_0_to_99();
    let mut client = SimClient::new(blob, 100);
    client.push_response(FetchResponse::StreamFailure(5));
    client.push_response(FetchResponse::StreamPanic(5));
    let config = one_retry_config();

    let result = machinery::download(
        &mut client,
        &config,
        DownloadRange::Closed(0, 99),
        GetSizeMode::Required,
    );

    let (stream, _events) = result.unwrap().into_parts();
    let err = stream.into_vec().unwrap_err();

    assert_eq!(err.kind(), CondowErrorKind::Io);
    assert_eq!(err.msg(), "panicked while retrying");
}

#[test]
fn download_stream_failure_with_successful_resumption() {
    let blob = blob_0_to_99();
    let mut client = SimClient::new(blob.clone(), 100);
    client.push_response(FetchResponse::StreamFailure(5));
    let config = one_retry_config();

    let result = machinery::download(
        &mut client,
        &config,
        DownloadRange::Closed(0, 99),
        GetSizeMode::Required,
    );

    let (stream, events) = result.unwrap().into_parts();
    let result_bytes = stream.into_vec().unwrap();

    // The first stream breaks after 5 bytes, the resumption serves
    // the rest; the consumer sees no discontinuity.
    assert_eq!(result_bytes, blob);
    assert_eq!(count_event(&events, SinkEvent::DownloadCompleted), 1);
    assert!(count_event(&events, SinkEvent::RetryAttempt(1)) >= 1);
}

fn check_download_chunks(end_incl: u64) {
    let blob = blob_0_to_99();
    let mut client = SimClient::new(blob.clone(), 3);
    let config = Config::default()
        .buffer_size(10)
        .buffers_full_delay_ms(0)
        .part_size_bytes(10)
        .max_concurrency(1);

    let result = machinery::download(
        &mut client,
        &config,
        DownloadRange::Closed(0, end_incl),
        GetSizeMode::Required,
    );

    let stream = result.unwrap().into_stream();
    let result_bytes = stream.into_vec().unwrap();
    assert_eq!(&result_bytes[..], &blob[0..=(end_incl as usize)]);
}

#[test]
fn from_0_to_inclusive_range_smaller_than_part_size() {
    // A sub-part range of 9 bytes.
    check_download_chunks(8);
}

#[test]
fn from_0_to_inclusive_range_equal_size_than_part_size() {
    check_download_chunks(9);
}

#[test]
fn tests_from_0_to_inclusive_range_larger_than_part_size() {
    check_download_chunks(10);
}

#[test]
fn sequential_from_0_to_inclusive_range_larger_than_part_size() {
    for end_incl in [8u64, 9, 10] {
        check_download_chunks(end_incl);
    }
}

#[test]
fn downloaders_from_0_to_inclusive_range_larger_than_part_size() {
    for end_incl in [8u64, 9, 10] {
        check_download_chunks(end_incl);
    }
}

#[test]
fn failing_request() {
    let blob = blob_0_to_99();
    let mut client = SimClient::new(blob, 100);
    client.push_response(FetchResponse::Failure(CondowErrorKind::Other));
    let config = Config::default()
        .buffer_size(10)
        .buffers_full_delay_ms(0)
        .part_size_bytes(100)
        .max_concurrency(1)
        .disable_retries();

    let result = machinery::download(
        &mut client,
        &config,
        DownloadRange::Closed(0, 99),
        GetSizeMode::Required,
    );

    let stream = result.unwrap().into_stream();
    assert!(stream.into_vec().is_err());
}

#[test]
fn range_larger_than_object_is_clamped() {
    // A range past the object's end, with a size query enforced,
    // clamps to the object's true end.
    let blob = blob_0_to_99();
    let mut client = SimClient::new(blob.clone(), 100);
    let config = no_retry_config();

    let result = machinery::download(
        &mut client,
        &config,
        DownloadRange::Closed(0, 999),
        GetSizeMode::Always,
    );

    let stream = result.unwrap().into_stream();
    let result_bytes = stream.into_vec().unwrap();
    assert_eq!(result_bytes.len(), 100);
    assert_eq!(result_bytes, blob);
}

#[test]
fn invalid_range_fails_synchronously() {
    let blob = blob_0_to_99();
    let mut client = SimClient::new(blob, 100);
    let config = no_retry_config();

    let result = machinery::download(
        &mut client,
        &config,
        DownloadRange::Closed(10, 9),
        GetSizeMode::Required,
    );
    match result {
        Ok(_) => panic!("an invalid range must be refused"),
        Err(err) => assert_eq!(err.kind(), CondowErrorKind::InvalidRange),
    }
}

#[test]
fn empty_effective_range_is_an_empty_stream() {
    let mut client = SimClient::new(Vec::new(), 100);
    let config = no_retry_config();

    let result = machinery::download(
        &mut client,
        &config,
        DownloadRange::Complete,
        GetSizeMode::Required,
    );

    let (stream, events) = result.unwrap().into_parts();
    assert!(events.is_empty());
    let bytes = stream.into_vec().unwrap();
    assert!(bytes.is_empty());
}

#[test]
fn failed_download_delivers_at_most_one_error() {
    // A failure delivers chunks, then exactly one error item.
    let blob = blob_0_to_99();
    let mut client = SimClient::new(blob, 3);
    client.push_response(FetchResponse::Success);
    client.push_response(FetchResponse::StreamFailure(5));
    let config = no_retry_config();

    let result = machinery::download(
        &mut client,
        &config,
        DownloadRange::Closed(0, 99),
        GetSizeMode::Required,
    );

    let (mut stream, events) = result.unwrap().into_parts();
    let mut n_errors = 0;
    let mut items_after_error = 0;
    while let Some(item) = stream.next() {
        if n_errors > 0 {
            items_after_error += 1;
        }
        if item.is_err() {
            n_errors += 1;
        }
    }
    assert_eq!(n_errors, 1);
    assert_eq!(items_after_error, 0);
    // Exactly one terminal event per download.
    let terminal = events
        .iter()
        .filter(|e| **e == SinkEvent::DownloadCompleted || **e == SinkEvent::DownloadFailed)
        .count();
    assert_eq!(terminal, 1);
}
