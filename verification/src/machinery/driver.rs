//! The inner driver of a download: works through the planned parts in
//! part index order and forces the outcome for the script shapes the
//! first responses decide.

use vstd::prelude::*;

use crate::condow_client::{fetch_range_ok, SimClient};
use crate::config::{Config, RetryConfig};
use crate::errors::CondowErrorKind;
use crate::machinery::range_stream::RangeRequest;
use crate::machinery::sequential::{
    appended, download_part, last_err_is_spec, last_err_kind_spec, nonterminal_extension,
    nth_response_spec, part_outcome_forced, PartOutcome,
};
use crate::machinery::{
    failed_download_spec, first_break_resumable, join_completed_part, join_failed_part,
    join_panicked_part, script_all_success, script_tail_success, stream_items_in_range,
};
use crate::range::InclusiveRange;
use crate::reporter::SinkEvent;
use crate::streams::chunk::{items_bytes, items_ok, ChunkStreamItem};
use crate::streams::chunk_stream::items_sequential_from;

verus! {

/// A part processed while every pending response answers `Success` is
/// forced to complete.
proof fn lemma_all_success_completes(
    c0: SimClient,
    client_pre: SimClient,
    req: RangeRequest,
    retries: Option<RetryConfig>,
    outcome: PartOutcome,
    batch: Seq<ChunkStreamItem>,
)
    requires
        client_pre.responses_spec() == c0.responses_spec(),
        client_pre.next_response_spec() >= c0.next_response_spec(),
        client_pre.blob_spec() == c0.blob_spec(),
        0 <= client_pre.next_response_spec(),
        req.blob_range.wf(),
        req.blob_range.1 < c0.blob_spec().len(),
        script_all_success(c0),
        part_outcome_forced(client_pre, req, retries, outcome, batch),
    ensures
        outcome is Completed,
{
    assert(fetch_range_ok(client_pre, req.blob_range));
    assert(nth_response_spec(client_pre, 0) is Success) by {
        if client_pre.next_response_spec() < client_pre.responses_spec().len() {
            assert(c0.responses_spec()[client_pre.next_response_spec()] is Success);
        }
    }
}

/// A part processed after the one scripted stream break, while every
/// later response answers `Success`, is forced to complete: either it
/// is the first part, which resumes once, or its fetches all succeed.
proof fn lemma_resumable_completes(
    c0: SimClient,
    client_pre: SimClient,
    req: RangeRequest,
    retries: Option<RetryConfig>,
    part_size: int,
    range: InclusiveRange,
    is_first: bool,
    outcome: PartOutcome,
    batch: Seq<ChunkStreamItem>,
)
    requires
        client_pre.responses_spec() == c0.responses_spec(),
        client_pre.next_response_spec() >= c0.next_response_spec(),
        client_pre.blob_spec() == c0.blob_spec(),
        0 <= client_pre.next_response_spec(),
        req.blob_range.wf(),
        req.blob_range.1 < c0.blob_spec().len(),
        first_break_resumable(c0, part_size, range, retries),
        script_tail_success(c0),
        (is_first ==> client_pre == c0 && nth_response_spec(c0, 0)->StreamFailure_0
            < req.len_spec()),
        (!is_first ==> client_pre.next_response_spec() > c0.next_response_spec()),
        part_outcome_forced(client_pre, req, retries, outcome, batch),
    ensures
        outcome is Completed,
{
    assert(fetch_range_ok(client_pre, req.blob_range));
    if is_first {
        assert(nth_response_spec(c0, 1) is Success) by {
            if c0.next_response_spec() + 1 < c0.responses_spec().len() {
                assert(c0.responses_spec()[c0.next_response_spec() + 1] is Success);
            }
        }
        assert(crate::machinery::sequential::resumed_once_spec(client_pre, req, retries));
    } else {
        assert(nth_response_spec(client_pre, 0) is Success) by {
            if client_pre.next_response_spec() < client_pre.responses_spec().len() {
                assert(c0.responses_spec()[client_pre.next_response_spec()] is Success);
            }
        }
    }
}

/// Works through the planned parts in part index order, stopping at
/// the first failure or panic. Returns the two flags `(failed,
/// panicked)`; the script-shape clauses force them.
#[verifier::rlimit(100)]
#[verifier::loop_isolation(false)]
pub(crate) fn run_planned_parts(
    client: &mut SimClient,
    range: InclusiveRange,
    config: &Config,
    requests: Vec<RangeRequest>,
    out_items: &mut Vec<ChunkStreamItem>,
    sink: &mut Vec<SinkEvent>,
) -> (flags: (bool, bool))
    requires
        old(client).wf_spec(),
        range.wf(),
        config.valid_spec(),
        crate::machinery::range_stream::is_plan_spec(
            range,
            config.part_size_bytes as int,
            requests@,
        ),
    ensures
        crate::machinery::sequential::client_preserved(*old(client), *final(client)),
        final(client).responses_spec() == old(client).responses_spec(),
        final(client).next_response_spec() >= old(client).next_response_spec(),
        nonterminal_extension(old(sink)@, final(sink)@),
        !(flags.0 && flags.1),
        stream_items_in_range(final(out_items)@, range.0 as int, range.len_spec()),
        (!flags.0 && !flags.1 ==> items_ok(final(out_items)@) && items_sequential_from(
            final(out_items)@,
            0,
        ) && range.1 < old(client).blob_spec().len() && items_bytes(final(out_items)@) == old(
            client,
        ).blob_spec().subrange(range.0 as int, range.1 + 1) && items_bytes(final(out_items)@).len()
            == range.len_spec()),
        (flags.0 ==> failed_download_spec(final(out_items)@)),
        (flags.1 ==> items_ok(final(out_items)@)),
        items_bytes(final(out_items)@).len() <= range.len_spec(),
        (range.1 < old(client).blob_spec().len() && script_all_success(*old(client)) ==> !flags.0
            && !flags.1),
        (range.1 < old(client).blob_spec().len() && first_break_resumable(
            *old(client),
            config.part_size_bytes as int,
            range,
            config.retries,
        ) && script_tail_success(*old(client)) ==> !flags.0 && !flags.1),
        (range.1 < old(client).blob_spec().len() && nth_response_spec(*old(client), 0) is Failure
            && (!nth_response_spec(*old(client), 0)->Failure_0.is_retryable_spec()
            || crate::machinery::sequential::no_retry_budget(config.retries)) ==> flags.0
            && last_err_kind_spec(final(out_items)@, nth_response_spec(*old(client), 0)->Failure_0)),
        (range.1 < old(client).blob_spec().len() && nth_response_spec(*old(client), 0)
            is StreamFailure && crate::machinery::sequential::no_retry_budget(config.retries)
            ==> flags.0 && last_err_kind_spec(final(out_items)@, CondowErrorKind::Io)),
        (range.1 < old(client).blob_spec().len() && (nth_response_spec(*old(client), 0)
            is StreamPanic || nth_response_spec(*old(client), 0) is Panic) && config.retries
            is Some ==> flags.0 && last_err_is_spec(
            final(out_items)@,
            CondowErrorKind::Io,
            "panicked while retrying"@,
        )),
        (range.1 < old(client).blob_spec().len() && first_break_resumable(
            *old(client),
            config.part_size_bytes as int,
            range,
            config.retries,
        ) && (nth_response_spec(*old(client), 1) is StreamPanic || nth_response_spec(
            *old(client),
            1,
        ) is Panic) ==> flags.0 && last_err_is_spec(
            final(out_items)@,
            CondowErrorKind::Io,
            "panicked while retrying"@,
        )),
        (range.1 < old(client).blob_spec().len() && (nth_response_spec(*old(client), 0)
            is StreamPanic || nth_response_spec(*old(client), 0) is Panic) && config.retries
            is None ==> flags.1),
{
    let ghost c0 = *old(client);
    let ghost sink0 = sink@;
    proof {
        assert(sink@.take(sink0.len() as int) =~= sink0);
    }
    let ghost plan = requests@;
    let mut items: Vec<ChunkStreamItem> = Vec::new();
    let mut failed = false;
    let mut panicked = false;
    let mut i: usize = 0;
    proof {
        crate::machinery::range_stream::lemma_plan_covers(
            range,
            config.part_size_bytes as int,
            plan,
        );
        assert(items@ =~= Seq::<ChunkStreamItem>::empty());
        assert(items_bytes(items@) =~= Seq::<u8>::empty());
        assert(plan[0] == crate::machinery::range_stream::planned_part_spec(
            range,
            config.part_size_bytes as int,
            0,
        ));
        assert(plan[0].range_offset == 0);
    }
    // The first part consumes the script's next responses, so its
    // outcome settles every script shape that the first response (or
    // the first resumption) decides.
    let req = requests[0];
    proof {
        assert(plan[0] == req);
        assert(req.blob_range.wf());
        assert(req.blob_range.1 <= range.1);
        assert(req.blob_range.0 == range.0 + req.range_offset);
        assert(req.range_offset + req.len_spec() <= range.len_spec());
        assert(req.range_offset + req.len_spec() <= u64::MAX);
    }
    let ghost items_pre = items@;
    let ghost sink_pre = sink@;
    let outcome = download_part(client, req, &config.retries, &mut items, sink);
    proof {
        let batch = appended(items_pre, items@);
        assert(items_pre + batch =~= items@);
        assert(batch =~= items@);
        if range.1 < c0.blob_spec().len() {
            if script_all_success(c0) {
                lemma_all_success_completes(c0, c0, req, config.retries, outcome, batch);
            }
            if first_break_resumable(c0, config.part_size_bytes as int, range, config.retries)
                && script_tail_success(c0) {
                assert(req.len_spec() == (if config.part_size_bytes as int <= range.len_spec() {
                    config.part_size_bytes as int
                } else {
                    range.len_spec()
                }));
                lemma_resumable_completes(
                    c0,
                    c0,
                    req,
                    config.retries,
                    config.part_size_bytes as int,
                    range,
                    true,
                    outcome,
                    batch,
                );
            }
        }
    }
    match outcome {
        PartOutcome::Completed => {
            proof {
                join_completed_part(c0.blob_spec(), range, req, items_pre, items@);
                crate::machinery::sequential::lemma_nonterminal_trans(sink0, sink_pre, sink@);
                if i + 1 < plan.len() {
                    assert(plan[1].range_offset == plan[0].range_offset + plan[
                        0
                    ].blob_range.len_spec());
                } else {
                    assert(plan[plan.len() - 1].blob_range.1 == range.1);
                    assert(req.blob_range.1 == range.1);
                }
                if items_bytes(items@).len() == range.len_spec() && 1 < plan.len() {
                    assert(plan[1].range_offset < range.len_spec());
                    assert(false);
                }
            }
            i = 1;
        },
        PartOutcome::Failed => {
            proof {
                join_failed_part(range, plan, 0, items_pre, items@, req);
                crate::machinery::sequential::lemma_nonterminal_trans(sink0, sink_pre, sink@);
                assert(items@.len() > 0);
            }
            failed = true;
        },
        PartOutcome::Panicked => {
            proof {
                join_panicked_part(range, plan, 0, items_pre, items@, req);
                crate::machinery::sequential::lemma_nonterminal_trans(sink0, sink_pre, sink@);
            }
            panicked = true;
        },
    }
    while i < requests.len() && !failed && !panicked
        invariant
            client.wf_spec(),
            client.blob_spec() == c0.blob_spec(),
            client.chunk_size_spec() == c0.chunk_size_spec(),
            client.responses_spec() == c0.responses_spec(),
            client.next_response_spec() >= c0.next_response_spec(),
            nonterminal_extension(sink0, sink@),
            0 <= i <= plan.len(),
            (!failed && !panicked ==> 1 <= i),
            stream_items_in_range(items@, range.0 as int, range.len_spec()),
            (!failed && !panicked) ==> {
                &&& items_ok(items@)
                &&& items_sequential_from(items@, 0)
                &&& items_bytes(items@).len() == (if i < plan.len() {
                    plan[i as int].range_offset as int
                } else {
                    range.len_spec()
                })
                &&& (items@.len() == 0 || (range.0 + items_bytes(items@).len()
                    <= c0.blob_spec().len() && items_bytes(items@) == c0.blob_spec().subrange(
                    range.0 as int,
                    range.0 + items_bytes(items@).len(),
                )))
                &&& (items_bytes(items@).len() == range.len_spec() ==> i == plan.len())
                &&& (i == plan.len() ==> range.1 < c0.blob_spec().len() && items_bytes(items@)
                    == c0.blob_spec().subrange(range.0 as int, range.1 + 1))
            },
            failed ==> failed_download_spec(items@),
            panicked ==> items_ok(items@),
            items_bytes(items@).len() <= range.len_spec(),
            !(failed && panicked),
            (range.1 < c0.blob_spec().len() && script_all_success(c0) ==> !failed && !panicked),
            (range.1 < c0.blob_spec().len() && first_break_resumable(
                c0,
                config.part_size_bytes as int,
                range,
                config.retries,
            ) && script_tail_success(c0) ==> !failed && !panicked
                && client.next_response_spec() > c0.next_response_spec()),
            (range.1 < c0.blob_spec().len() && nth_response_spec(c0, 0) is Failure && (
            !nth_response_spec(c0, 0)->Failure_0.is_retryable_spec()
                || crate::machinery::sequential::no_retry_budget(config.retries)) ==> failed
                && last_err_kind_spec(items@, nth_response_spec(c0, 0)->Failure_0)),
            (range.1 < c0.blob_spec().len() && nth_response_spec(c0, 0) is StreamFailure
                && crate::machinery::sequential::no_retry_budget(config.retries) ==> failed
                && last_err_kind_spec(items@, CondowErrorKind::Io)),
            (range.1 < c0.blob_spec().len() && (nth_response_spec(c0, 0) is StreamPanic
                || nth_response_spec(c0, 0) is Panic) && config.retries is Some ==> failed
                && last_err_is_spec(items@, CondowErrorKind::Io, "panicked while retrying"@)),
            (range.1 < c0.blob_spec().len() && first_break_resumable(
                c0,
                config.part_size_bytes as int,
                range,
                config.retries,
            ) && (nth_response_spec(c0, 1) is StreamPanic || nth_response_spec(c0, 1) is Panic)
                ==> failed && last_err_is_spec(
                items@,
                CondowErrorKind::Io,
                "panicked while retrying"@,
            )),
            (range.1 < c0.blob_spec().len() && (nth_response_spec(c0, 0) is StreamPanic
                || nth_response_spec(c0, 0) is Panic) && config.retries is None ==> panicked),
        decreases plan.len() - i, (if !failed && !panicked { 1int } else { 0int }),
    {
        let req = requests[i];
        proof {
            assert(plan[i as int] == req);
            assert(req == crate::machinery::range_stream::planned_part_spec(
                range,
                config.part_size_bytes as int,
                i as int,
            ));
            assert(req.blob_range.wf());
            assert(req.blob_range.1 <= range.1);
            assert(req.blob_range.0 == range.0 + req.range_offset);
            assert(req.range_offset + req.len_spec() <= range.len_spec());
            assert(req.range_offset + req.len_spec() <= u64::MAX);
        }
        let ghost items_pre = items@;
        let ghost sink_pre = sink@;
        let ghost client_pre = *client;
        let outcome = download_part(client, req, &config.retries, &mut items, sink);
        proof {
            let batch = appended(items_pre, items@);
            assert(items_pre + batch =~= items@);
            if range.1 < c0.blob_spec().len() {
                if script_all_success(c0) {
                    lemma_all_success_completes(
                        c0,
                        client_pre,
                        req,
                        config.retries,
                        outcome,
                        batch,
                    );
                }
                if first_break_resumable(c0, config.part_size_bytes as int, range, config.retries)
                    && script_tail_success(c0) {
                    lemma_resumable_completes(
                        c0,
                        client_pre,
                        req,
                        config.retries,
                        config.part_size_bytes as int,
                        range,
                        false,
                        outcome,
                        batch,
                    );
                }
            }
        }
        match outcome {
            PartOutcome::Completed => {
                proof {
                    join_completed_part(c0.blob_spec(), range, req, items_pre, items@);
                    crate::machinery::sequential::lemma_nonterminal_trans(
                        sink0,
                        sink_pre,
                        sink@,
                    );
                    if i + 1 < plan.len() {
                        assert(plan[i + 1].range_offset == plan[i as int].range_offset + plan[
                            i as int
                        ].blob_range.len_spec());
                    } else {
                        assert(plan[plan.len() - 1].blob_range.1 == range.1);
                        assert(req.blob_range.1 == range.1);
                    }
                    if items_bytes(items@).len() == range.len_spec() && i + 1 < plan.len() {
                        assert(plan[i + 1].range_offset < range.len_spec());
                        assert(false);
                    }
                }
                i = i + 1;
            },
            PartOutcome::Failed => {
                proof {
                    join_failed_part(range, plan, i as int, items_pre, items@, req);
                    crate::machinery::sequential::lemma_nonterminal_trans(
                        sink0,
                        sink_pre,
                        sink@,
                    );
                }
                failed = true;
            },
            PartOutcome::Panicked => {
                proof {
                    join_panicked_part(range, plan, i as int, items_pre, items@, req);
                    crate::machinery::sequential::lemma_nonterminal_trans(
                        sink0,
                        sink_pre,
                        sink@,
                    );
                }
                panicked = true;
            },
        }
    }
    *out_items = items;
    (failed, panicked)
}


} // verus!
