//! Concurrent BLOB download core.
//!
//! The library plans a logical byte range as a sequence of fixed-size
//! part requests, accounts for the byte chunks a store adapter delivers
//! for each part, retries transient failures with mid-stream resumption,
//! and reassembles the delivered chunks into one buffer.
//!
//! Everything here is deterministic: the store adapter is modelled by
//! [`condow_client::SimClient`], which serves a blob held in memory and
//! can be scripted to fail. A host that talks to a real store over a
//! network drives the same planning, accounting and reassembly
//! functions from its own event loop, using the worker queue, the
//! round-robin dispatcher, the kill switch and the completion watcher
//! of [`machinery`].

use vstd::prelude::*;

pub mod condow_client;
pub mod config;
pub mod errors;
pub mod fs;
pub mod machinery;
pub mod range;
pub mod reporter;
pub mod s3;
pub mod streams;

use std::sync::Arc;

use crate::condow_client::SimClient;
use crate::config::Config;
use crate::errors::CondowError;
use crate::machinery::{exact_hint_spec, resolved_range_spec};
use crate::range::{DownloadRange, GetSizeMode};
use crate::streams::chunk_stream::ChunkStream;
use crate::streams::part_stream::PartStream;

verus! {

/// The concurrent downloader: a store client and a validated
/// configuration.
///
/// Downloads split a requested range into parts that are fetched by a
/// pool of workers; the chunks are delivered on a [`ChunkStream`].
pub struct Condow<C> {
    client: C,
    config: Config,
}

impl<C> Condow<C> {
    /// The configuration the downloader runs with.
    pub closed spec fn config_spec(self) -> Config {
        self.config
    }

    /// The store client.
    pub closed spec fn client_spec(self) -> C {
        self.client
    }

    /// Builds a downloader; fails if the configuration is not valid.
    pub fn new(client: C, config: Config) -> (r: Result<Self, CondowError>)
        ensures
            (r is Ok <==> config.valid_spec()),
            (r matches Ok(c) ==> c.config_spec() == config && c.client_spec() == client),
    {
        match config.validated() {
            Ok(config) => Ok(Condow { client, config }),
            Err(e) => Err(e),
        }
    }

    /// Starts a download session that records every download's events
    /// through one shared reporter factory.
    pub fn download_session<RF>(&self, rep_fac: RF) -> (r: DownloadSession<C, RF>) where
        C: Clone,

        ensures
            r.config_spec() == self.config_spec(),
            r.get_size_mode_spec() == GetSizeMode::Default,
    {
        self.download_session_arc(Arc::new(rep_fac))
    }

    /// As [`Condow::download_session`], for a factory that is already
    /// shared.
    pub fn download_session_arc<RF>(&self, rep_fac: Arc<RF>) -> (r: DownloadSession<C, RF>) where
        C: Clone,

        ensures
            r.config_spec() == self.config_spec(),
            r.get_size_mode_spec() == GetSizeMode::Default,
    {
        DownloadSession::new_with_reporting_arc(
            Condow { client: self.client.clone(), config: self.config },
            rep_fac,
        )
    }
}

impl Condow<SimClient> {
    /// The size of the object behind this downloader's client.
    pub fn get_size(&self) -> (r: u64)
        requires
            self.client_spec().blob_spec().len() <= u64::MAX,
        ensures
            r == self.client_spec().blob_spec().len(),
    {
        self.client.get_size()
    }

    /// Downloads a range and returns the stream of chunks as they were
    /// delivered, in no particular order across parts.
    pub fn download_chunks(&mut self, range: DownloadRange) -> (r: Result<
        ChunkStream,
        CondowError,
    >)
        requires
            old(self).client_spec().wf_spec(),
            old(self).config_spec().valid_spec(),
            old(self).client_spec().blob_spec().len() <= u64::MAX,
        ensures
            final(self).config_spec() == old(self).config_spec(),
            crate::machinery::sequential::client_preserved(
                old(self).client_spec(),
                final(self).client_spec(),
            ),
            (r is Err <==> !range.valid_spec()),
            (r matches Ok(s) ==> s.is_fresh_spec()),
            (range.valid_spec() && condow_resolved(*old(self), range) is None ==> (r matches Ok(s)
                && s.is_closed_spec() && s.remaining().len() == 0)),
            (range.valid_spec() && condow_resolved(*old(self), range) is Some ==> (r matches Ok(s)
                && chunk_download_ok(
                s,
                old(self).client_spec(),
                old(self).config_spec(),
                condow_resolved(*old(self), range)->Some_0,
            ))),
    {
        match crate::machinery::download(
            &mut self.client,
            &self.config,
            range,
            GetSizeMode::Default,
        ) {
            Ok(swr) => Ok(swr.into_stream()),
            Err(e) => Err(e),
        }
    }

    /// Downloads a range and returns the parts in part index order,
    /// each with its chunks in order.
    pub fn download(&mut self, range: DownloadRange) -> (r: Result<PartStream, CondowError>)
        requires
            old(self).client_spec().wf_spec(),
            old(self).config_spec().valid_spec(),
            old(self).client_spec().blob_spec().len() <= u64::MAX,
        ensures
            final(self).config_spec() == old(self).config_spec(),
            crate::machinery::sequential::client_preserved(
                old(self).client_spec(),
                final(self).client_spec(),
            ),
            (r is Err <==> !range.valid_spec()),
            (range.valid_spec() && condow_resolved(*old(self), range) is None ==> (r matches Ok(
                ps,
            ) && ps.stream_spec().is_closed_spec() && ps.stream_spec().remaining().len() == 0
                && ps.buffered_spec().len() == 0 && ps.next_part_spec() == 0)),
            (range.valid_spec() && condow_resolved(*old(self), range) is Some ==> (r matches Ok(
                ps,
            ) && chunk_download_ok(
                ps.stream_spec(),
                old(self).client_spec(),
                old(self).config_spec(),
                condow_resolved(*old(self), range)->Some_0,
            ))),
    {
        match self.download_chunks(range) {
            Ok(stream) => {
                match PartStream::from_chunk_stream(stream) {
                    Ok(ps) => Ok(ps),
                    Err(e) => Err(e),
                }
            },
            Err(e) => Err(e),
        }
    }
}

/// The absolute range a request resolves to under a downloader's
/// configuration with the default size mode.
pub open spec fn condow_resolved(c: Condow<SimClient>, range: DownloadRange) -> Option<
    crate::range::InclusiveRange,
> {
    resolved_range_spec(
        range,
        GetSizeMode::Default,
        c.config_spec().always_get_size,
        c.client_spec().blob_spec().len() as u64,
    )
}

/// The stream a non-empty download hands out: a fresh stream with an
/// exact hint that satisfies the machinery's download guarantees
/// (events aside), with the outcome forced by the client's script.
pub open spec fn chunk_download_ok(
    s: ChunkStream,
    c0: SimClient,
    config: Config,
    rng: crate::range::InclusiveRange,
) -> bool {
    &&& s.is_fresh_spec()
    &&& !s.is_closed_spec()
    &&& s.bytes_hint_spec() == exact_hint_spec(rng)
    &&& (crate::streams::chunk::items_ok(s.remaining())
        ==> crate::machinery::successful_download_spec(s.remaining(), c0.blob_spec(), rng))
    &&& (!crate::streams::chunk::items_ok(s.remaining())
        ==> crate::machinery::failed_download_spec(s.remaining()))
    &&& crate::machinery::stream_items_in_range(s.remaining(), rng.0 as int, rng.len_spec())
    &&& crate::streams::chunk::err_count(s.remaining()) <= 1
    &&& (rng.1 < c0.blob_spec().len() && crate::machinery::script_all_success(c0)
        ==> crate::streams::chunk::items_ok(s.remaining()))
    &&& (rng.1 < c0.blob_spec().len() && crate::machinery::first_break_resumable(
        c0,
        config.part_size_bytes as int,
        rng,
        config.retries,
    ) && crate::machinery::script_tail_success(c0) ==> crate::streams::chunk::items_ok(
        s.remaining(),
    ))
    &&& (rng.1 < c0.blob_spec().len() && crate::machinery::sequential::nth_response_spec(c0, 0)
        is Failure && (!crate::machinery::sequential::nth_response_spec(
        c0,
        0,
    )->Failure_0.is_retryable_spec() || crate::machinery::sequential::no_retry_budget(
        config.retries,
    )) ==> crate::machinery::sequential::last_err_kind_spec(
        s.remaining(),
        crate::machinery::sequential::nth_response_spec(c0, 0)->Failure_0,
    ))
    &&& (rng.1 < c0.blob_spec().len() && crate::machinery::sequential::nth_response_spec(c0, 0)
        is StreamFailure && crate::machinery::sequential::no_retry_budget(config.retries)
        ==> crate::machinery::sequential::last_err_kind_spec(
        s.remaining(),
        crate::errors::CondowErrorKind::Io,
    ))
    &&& (rng.1 < c0.blob_spec().len() && (crate::machinery::sequential::nth_response_spec(c0, 0)
        is StreamPanic || crate::machinery::sequential::nth_response_spec(c0, 0) is Panic)
        && config.retries is None ==> crate::machinery::sequential::last_err_is_spec(
        s.remaining(),
        crate::errors::CondowErrorKind::Other,
        "download ended unexpectedly due to a panic"@,
    ))
    &&& (rng.1 < c0.blob_spec().len() && (crate::machinery::sequential::nth_response_spec(c0, 0)
        is StreamPanic || crate::machinery::sequential::nth_response_spec(c0, 0) is Panic)
        && config.retries is Some ==> crate::machinery::sequential::last_err_is_spec(
        s.remaining(),
        crate::errors::CondowErrorKind::Io,
        "panicked while retrying"@,
    ))
    &&& (rng.1 < c0.blob_spec().len() && crate::machinery::first_break_resumable(
        c0,
        config.part_size_bytes as int,
        rng,
        config.retries,
    ) && (crate::machinery::sequential::nth_response_spec(c0, 1) is StreamPanic
        || crate::machinery::sequential::nth_response_spec(c0, 1) is Panic)
        ==> crate::machinery::sequential::last_err_is_spec(
        s.remaining(),
        crate::errors::CondowErrorKind::Io,
        "panicked while retrying"@,
    ))
}

/// The absolute range a session's request resolves to under its mode.
pub open spec fn session_resolved<RF>(
    s: DownloadSession<SimClient, RF>,
    range: DownloadRange,
) -> Option<crate::range::InclusiveRange> {
    resolved_range_spec(
        range,
        s.get_size_mode_spec(),
        s.config_spec().always_get_size,
        s.client_spec().blob_spec().len() as u64,
    )
}

/// A download session: a downloader together with a shared reporter
/// factory and a size-mode preference.
///
/// The factory itself is driven by the host that replays the recorded
/// events; the session only carries it.
pub struct DownloadSession<C, RF> {
    get_size_mode: GetSizeMode,
    condow: Condow<C>,
    reporter_factory: Arc<RF>,
}

impl<C, RF> DownloadSession<C, RF> {
    /// The configuration the session downloads with.
    pub closed spec fn config_spec(self) -> Config {
        self.condow.config_spec()
    }

    /// The session's size-mode preference.
    pub closed spec fn get_size_mode_spec(self) -> GetSizeMode {
        self.get_size_mode
    }

    /// The session's store client.
    pub closed spec fn client_spec(self) -> C {
        self.condow.client_spec()
    }

    /// Builds a session over a downloader and a shared reporter factory.
    pub fn new_with_reporting_arc(condow: Condow<C>, rep_fac: Arc<RF>) -> (r: Self)
        ensures
            r.config_spec() == condow.config_spec(),
            r.client_spec() == condow.client_spec(),
            r.get_size_mode_spec() == GetSizeMode::Default,
    {
        DownloadSession { condow, get_size_mode: GetSizeMode::Default, reporter_factory: rep_fac }
    }

    /// Changes when the session queries the object size.
    pub fn get_size_mode(self, get_size_mode: GetSizeMode) -> (r: Self)
        ensures
            r.get_size_mode_spec() == get_size_mode,
            r.config_spec() == self.config_spec(),
            r.client_spec() == self.client_spec(),
    {
        DownloadSession { get_size_mode, ..self }
    }

    /// The shared reporter factory.
    pub fn reporter_factory(&self) -> &RF {
        &self.reporter_factory
    }
}

impl<RF> DownloadSession<SimClient, RF> {
    /// Downloads a range under the session's size-mode preference and
    /// returns the stream of chunks.
    pub fn download_chunks(&mut self, range: DownloadRange) -> (r: Result<
        ChunkStream,
        CondowError,
    >)
        requires
            old(self).client_spec().wf_spec(),
            old(self).config_spec().valid_spec(),
            old(self).client_spec().blob_spec().len() <= u64::MAX,
        ensures
            final(self).config_spec() == old(self).config_spec(),
            final(self).get_size_mode_spec() == old(self).get_size_mode_spec(),
            (r is Err <==> !range.valid_spec()),
            (r matches Ok(s) ==> s.is_fresh_spec()),
            (range.valid_spec() && session_resolved(*old(self), range) is None ==> (r matches Ok(
                s,
            ) && s.is_closed_spec() && s.remaining().len() == 0)),
            (range.valid_spec() && session_resolved(*old(self), range) is Some ==> (r matches Ok(
                s,
            ) && chunk_download_ok(
                s,
                old(self).client_spec(),
                old(self).config_spec(),
                session_resolved(*old(self), range)->Some_0,
            ))),
    {
        match crate::machinery::download(
            &mut self.condow.client,
            &self.condow.config,
            range,
            self.get_size_mode,
        ) {
            Ok(swr) => Ok(swr.into_stream()),
            Err(e) => Err(e),
        }
    }

    /// Downloads a range under the session's size-mode preference and
    /// returns the parts in part index order.
    pub fn download(&mut self, range: DownloadRange) -> (r: Result<PartStream, CondowError>)
        requires
            old(self).client_spec().wf_spec(),
            old(self).config_spec().valid_spec(),
            old(self).client_spec().blob_spec().len() <= u64::MAX,
        ensures
            final(self).config_spec() == old(self).config_spec(),
            final(self).get_size_mode_spec() == old(self).get_size_mode_spec(),
            (r is Err <==> !range.valid_spec()),
            (range.valid_spec() && session_resolved(*old(self), range) is None ==> (r matches Ok(
                ps,
            ) && ps.stream_spec().is_closed_spec() && ps.stream_spec().remaining().len() == 0
                && ps.buffered_spec().len() == 0 && ps.next_part_spec() == 0)),
            (range.valid_spec() && session_resolved(*old(self), range) is Some ==> (r matches Ok(
                ps,
            ) && chunk_download_ok(
                ps.stream_spec(),
                old(self).client_spec(),
                old(self).config_spec(),
                session_resolved(*old(self), range)->Some_0,
            ))),
    {
        match self.download_chunks(range) {
            Ok(stream) => {
                match PartStream::from_chunk_stream(stream) {
                    Ok(ps) => Ok(ps),
                    Err(e) => Err(e),
                }
            },
            Err(e) => Err(e),
        }
    }
}

} // verus!
