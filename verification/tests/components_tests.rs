//! The building blocks a concurrent host drives: errors, the kill
//! switch, the completion watcher, worker queues, the dispatcher, and
//! the public downloader types.

use condow::condow_client::SimClient;
use condow::config::Config;
use condow::errors::{
    CondowError, CondowErrorKind, DownloadFileError, DownloadRangeError, GetSizeError, StreamError,
};
use condow::fs::FsClient;
use condow::machinery::concurrent::{ConcurrentDownloader, DispatchOutcome};
use condow::machinery::downloaders::DownloadersWatcher;
use condow::machinery::range_stream::RangeRequest;
use condow::machinery::sequential::{DownloaderContext, SequentialDownloader};
use condow::machinery::KillSwitch;
use condow::range::{DownloadRange, GetSizeMode, InclusiveRange};
use condow::reporter::SinkEvent;
use condow::s3::{classify_http_status, Bucket, ObjectKey, S3ClientWrapper, S3Location};
use condow::{Condow, DownloadSession};

fn some_request(i: u64) -> RangeRequest {
    RangeRequest {
        part_index: i,
        blob_range: InclusiveRange(i * 10, i * 10 + 9),
        range_offset: i * 10,
    }
}

#[test]
fn error_kinds_and_retryability() {
    assert!(CondowErrorKind::Io.is_retryable());
    assert!(CondowErrorKind::Remote.is_retryable());
    assert!(!CondowErrorKind::NotFound.is_retryable());
    assert!(!CondowErrorKind::AccessDenied.is_retryable());
    assert!(!CondowErrorKind::InvalidRange.is_retryable());
    assert!(!CondowErrorKind::Other.is_retryable());

    let e = CondowError::new_not_found("gone");
    assert_eq!(e.kind(), CondowErrorKind::NotFound);
    assert_eq!(e.msg(), "gone");
    assert!(!e.is_retryable());
    assert_eq!(CondowError::new_io("x").kind(), CondowErrorKind::Io);
    assert_eq!(CondowError::new_remote("x").kind(), CondowErrorKind::Remote);
    assert_eq!(
        CondowError::new_access_denied("x").kind(),
        CondowErrorKind::AccessDenied
    );
    assert_eq!(
        CondowError::new_invalid_range("x").kind(),
        CondowErrorKind::InvalidRange
    );
    assert_eq!(CondowError::new_other("x").kind(), CondowErrorKind::Other);
}

#[test]
fn legacy_error_conversions() {
    let e: DownloadRangeError = DownloadFileError::NotFound("a".to_string()).into();
    assert!(matches!(e, DownloadRangeError::NotFound(msg) if msg == "a"));

    let e: DownloadFileError = DownloadRangeError::InvalidRange("b".to_string()).into();
    assert!(matches!(e, DownloadFileError::Other(msg) if msg == "b"));

    let e: DownloadRangeError = GetSizeError::Io("c".to_string()).into();
    assert!(matches!(e, DownloadRangeError::Io(msg) if msg == "c"));

    let e: StreamError = DownloadRangeError::Remote("d".to_string()).into();
    assert!(matches!(e, StreamError::Remote(msg) if msg == "d"));
}

#[test]
fn kill_switch_is_monotonic() {
    let mut ks = KillSwitch::new();
    assert!(!ks.is_pushed());
    ks.push_the_button();
    assert!(ks.is_pushed());
    ks.push_the_button();
    assert!(ks.is_pushed());
}

#[test]
fn watcher_fires_exactly_one_terminal_event() {
    // The last worker out fires the one
    // terminal event.
    let mut watcher = DownloadersWatcher::new();
    watcher.register();
    watcher.register();
    assert_eq!(watcher.on_worker_exit(), None);
    assert_eq!(watcher.on_worker_exit(), None);
    assert_eq!(watcher.on_worker_exit(), Some(SinkEvent::DownloadCompleted));

    let mut watcher = DownloadersWatcher::new();
    watcher.register();
    watcher.mark_failed();
    assert_eq!(watcher.on_worker_exit(), None);
    assert_eq!(watcher.on_worker_exit(), Some(SinkEvent::DownloadFailed));
}

#[test]
fn context_exit_decisions() {
    let mut ctx = DownloaderContext::new();
    assert_eq!(
        ctx.exit_error(false).unwrap().msg(),
        "download ended unexpectedly"
    );
    assert_eq!(
        ctx.exit_error(true).unwrap().msg(),
        "download ended unexpectedly due to a panic"
    );
    ctx.mark_successful();
    assert!(ctx.exit_error(false).is_none());
    assert!(ctx.exit_error(true).is_none());

    let mut ctx = DownloaderContext::new();
    ctx.mark_failed();
    assert!(ctx.exit_error(false).is_none());
}

#[test]
fn worker_queue_enqueue_contract() {
    let mut dl = SequentialDownloader::new(2);
    assert!(matches!(dl.enqueue(some_request(0)), Ok(None)));
    assert!(matches!(dl.enqueue(some_request(1)), Ok(None)));
    // The queue is full: the request is handed back.
    assert!(matches!(dl.enqueue(some_request(2)), Ok(Some(r)) if r.part_index == 2));
    assert_eq!(dl.next_request().unwrap().part_index, 0);
    assert!(matches!(dl.enqueue(some_request(2)), Ok(None)));
    dl.disconnect();
    assert!(dl.enqueue(some_request(3)).is_err());
}

#[test]
fn dispatcher_round_robin() {
    let mut cd = ConcurrentDownloader::new(2, 1);
    // The lap starts just past the cursor: worker 1 first, then 0.
    assert!(matches!(cd.dispatch(some_request(0)), DispatchOutcome::Enqueued(1)));
    assert!(matches!(cd.dispatch(some_request(1)), DispatchOutcome::Enqueued(0)));
    // Both queues (capacity 1) are full now.
    assert!(matches!(
        cd.dispatch(some_request(2)),
        DispatchOutcome::AllFull(r) if r.part_index == 2
    ));
}

#[test]
fn condow_api_end_to_end() {
    let blob: Vec<u8> = (0u8..100).collect();
    let client = SimClient::new(blob.clone(), 7);
    let config = Config::default()
        .part_size_bytes(10)
        .buffers_full_delay_ms(0)
        .max_concurrency(2);
    let mut condow = Condow::new(client, config).unwrap();

    assert_eq!(condow.get_size(), 100);

    let stream = condow.download_chunks(DownloadRange::Closed(0, 49)).unwrap();
    assert_eq!(stream.into_vec().unwrap(), &blob[0..50]);

    let mut parts = condow.download(DownloadRange::Suffix(10)).unwrap();
    let mut collected: Vec<u8> = Vec::new();
    let mut last_part_index = None;
    while let Some(part) = parts.next_part() {
        let part = part.unwrap();
        if let Some(prev) = last_part_index {
            assert!(part.part_index > prev, "parts arrive in order");
        }
        last_part_index = Some(part.part_index);
        for chunk in part.chunks {
            collected.extend_from_slice(&chunk.bytes);
        }
    }
    assert_eq!(&collected[..], &blob[90..]);
}

#[test]
fn condow_rejects_invalid_config() {
    let client = SimClient::new(Vec::new(), 1);
    assert!(Condow::new(client, Config::default().part_size_bytes(0)).is_err());
}

#[test]
fn download_session_carries_mode_and_factory() {
    let blob: Vec<u8> = (0u8..100).collect();
    let client = SimClient::new(blob.clone(), 7);
    let config = Config::default()
        .part_size_bytes(10)
        .buffers_full_delay_ms(0)
        .max_concurrency(2);
    let condow = Condow::new(client, config).unwrap();

    let session = condow.download_session("metrics-sink");
    assert_eq!(*session.reporter_factory(), "metrics-sink");
    let mut session = session.get_size_mode(GetSizeMode::Always);

    let stream = session
        .download_chunks(DownloadRange::Closed(0, 999))
        .unwrap();
    // Always-mode clamps the over-long range to the object's end.
    assert_eq!(stream.into_vec().unwrap(), blob);

    let mut session2 = session;
    let parts = session2.download(DownloadRange::Closed(0, 9)).unwrap();
    assert_eq!(parts.into_vec().unwrap(), &blob[0..10]);
}

#[test]
fn s3_location_types() {
    let bucket = Bucket::new("my-bucket");
    assert_eq!(bucket.as_str(), "my-bucket");
    let location = bucket.object(ObjectKey::new("my/key"));
    assert_eq!(location.bucket().as_str(), "my-bucket");
    assert_eq!(location.key().as_str(), "my/key");

    let location = ObjectKey::new("other").in_bucket(Bucket::new("b2"));
    let (bucket, key) = location.into_inner();
    assert_eq!(bucket.into_inner(), "b2");
    assert_eq!(key.into_inner(), "other");

    let location = S3Location::new(Bucket::new("b3"), ObjectKey::new("k3"));
    assert_eq!(location.bucket().as_str(), "b3");
}

#[test]
fn s3_wrapper_builds_a_condow() {
    let wrapper = S3ClientWrapper::from_client("an s3 client");
    let condow = wrapper.condow(Config::default());
    assert!(condow.is_ok());
    let wrapper = S3ClientWrapper::from_client(7u32);
    assert_eq!(wrapper.into_inner(), 7);
}

#[test]
fn fs_client_builds_a_condow() {
    assert!(FsClient::condow(Config::default()).is_ok());
    assert!(FsClient::condow(Config::default().buffer_size(0)).is_err());
}

#[test]
fn session_type_alias_works_for_any_client() {
    let condow = Condow::new(FsClient, Config::default()).unwrap();
    let session: DownloadSession<FsClient, u32> = condow.download_session(42u32);
    assert_eq!(*session.reporter_factory(), 42);
}

#[test]
fn http_status_classification() {
    assert_eq!(
        classify_http_status(404, "m").kind(),
        CondowErrorKind::NotFound
    );
    assert_eq!(
        classify_http_status(401, "m").kind(),
        CondowErrorKind::AccessDenied
    );
    assert_eq!(
        classify_http_status(403, "m").kind(),
        CondowErrorKind::AccessDenied
    );
    assert_eq!(
        classify_http_status(500, "m").kind(),
        CondowErrorKind::Remote
    );
    assert_eq!(
        classify_http_status(599, "m").kind(),
        CondowErrorKind::Remote
    );
    assert_eq!(classify_http_status(418, "m").kind(), CondowErrorKind::Other);
    assert_eq!(classify_http_status(500, "oops").msg(), "oops");
}
