use vstd::prelude::*;

use crate::batch::{deletable_messages, lemma_deletable_step, ReceivedMessage};
use crate::event::{CodecError, Event};

verus! {

/// What a polling worker learns from the outside between two decisions.
pub enum WorkerEvent {
    /// The worker has just been started.
    Started,
    /// A receive call came back with these messages (maybe none).
    Received(Vec<ReceivedMessage>),
    /// A delete call came back.
    Acknowledged,
    /// The last call failed in transport.
    Failed,
}

/// What a polling worker does next.
pub enum WorkerAction {
    /// Issue one long-poll receive.
    Receive,
    /// Issue one batch delete for these messages.
    Acknowledge(Vec<ReceivedMessage>),
    /// Leave the loop.
    Stop,
}

/// A received batch is acknowledged when some message in it carries a
/// non-empty receipt handle.
pub open spec fn acknowledges(msgs: Seq<ReceivedMessage>) -> bool {
    deletable_messages(msgs).len() > 0
}

/// Decides a worker's next step from the cancellation signal, checked at
/// every step, and from what the last step brought: stop once cancelled;
/// after a receive that brought anything that can be acknowledged,
/// acknowledge the whole batch; in every other case, including a failed
/// call, poll again.
pub fn next_action(cancelled: bool, event: WorkerEvent) -> (r: WorkerAction)
    ensures
        cancelled ==> r is Stop,
        !cancelled ==> match event {
            WorkerEvent::Received(msgs) => if acknowledges(msgs@) {
                r matches WorkerAction::Acknowledge(batch) && batch@ == msgs@
            } else {
                r is Receive
            },
            _ => r is Receive,
        },
{
    if cancelled {
        return WorkerAction::Stop;
    }
    match event {
        WorkerEvent::Received(msgs) => {
            if has_deletable(&msgs) {
                WorkerAction::Acknowledge(msgs)
            } else {
                WorkerAction::Receive
            }
        },
        _ => WorkerAction::Receive,
    }
}

/// Whether some message carries a non-empty receipt handle.
pub fn has_deletable(msgs: &Vec<ReceivedMessage>) -> (r: bool)
    ensures
        r == (deletable_messages(msgs@).len() > 0),
{
    let mut i: usize = 0;
    proof {
        lemma_deletable_step(msgs@.subrange(0, 0));
    }
    while i < msgs.len()
        invariant
            i <= msgs.len(),
            deletable_messages(msgs@.subrange(0, i as int)).len() == 0,
        decreases msgs.len() - i,
    {
        let ghost after = msgs@.subrange(0, i as int + 1);
        assert(after.drop_last() =~= msgs@.subrange(0, i as int));
        assert(after.last() == msgs@[i as int]);
        proof {
            lemma_deletable_step(after);
        }
        match &msgs[i].receipt_handle {
            Some(h) => {
                if !h.as_str().is_empty() {
                    proof {
                        lemma_deletable_prefix(msgs@, i as int + 1);
                    }
                    return true;
                }
            },
            None => {},
        }
        i += 1;
    }
    assert(msgs@.subrange(0, msgs@.len() as int) =~= msgs@);
    false
}

/// Acknowledgeable messages in a prefix stay acknowledgeable in the whole.
proof fn lemma_deletable_prefix(msgs: Seq<ReceivedMessage>, n: int)
    requires
        0 <= n <= msgs.len(),
    ensures
        deletable_messages(msgs.subrange(0, n)).len() <= deletable_messages(msgs).len(),
    decreases msgs.len() - n,
{
    if n < msgs.len() {
        lemma_deletable_prefix(msgs, n + 1);
        assert(msgs.subrange(0, n + 1).drop_last() =~= msgs.subrange(0, n));
        lemma_deletable_step(msgs.subrange(0, n + 1));
    } else {
        assert(msgs.subrange(0, n) =~= msgs);
    }
}

/// The outcome of decoding a batch of payloads one by one: the records that
/// decoded, in order, and the positions of those that did not.  One bad
/// payload never keeps the others from being handled.
pub struct DecodedBatch {
    pub events: Vec<Event>,
    pub failed: Vec<usize>,
}

/// The records among the outcomes, in order.
pub open spec fn decoded_events(results: Seq<Result<Event, CodecError>>) -> Seq<Event>
    decreases results.len(),
{
    if results.len() == 0 {
        seq![]
    } else {
        let prev = decoded_events(results.drop_last());
        match results.last() {
            Ok(e) => prev.push(e),
            Err(_) => prev,
        }
    }
}

/// Splits per-message decode outcomes into the records kept and the
/// positions dropped.
pub fn split_decoded(results: Vec<Result<Event, CodecError>>) -> (r: DecodedBatch)
    ensures
        r.events@ == decoded_events(results@),
        r.events@.len() + r.failed@.len() == results@.len(),
        forall|k: int|
            0 <= k < r.failed@.len() ==> #[trigger] r.failed@[k] < results@.len()
                && results@[r.failed@[k] as int] is Err,
        forall|a: int, b: int| 0 <= a < b < r.failed@.len() ==> r.failed@[a] < r.failed@[b],
        forall|i: int| 0 <= i < results@.len() && (#[trigger] results@[i]) is Err ==> r.failed@.contains(i as usize),
{
    let mut events: Vec<Event> = Vec::new();
    let mut failed: Vec<usize> = Vec::new();
    let ghost all = results@;
    let mut rest = results;
    let n: usize = rest.len();
    let mut i: usize = 0;
    while rest.len() > 0
        invariant
            i + rest@.len() == all.len(),
            all.len() == n,
            rest@ == all.subrange(i as int, all.len() as int),
            events@ == decoded_events(all.subrange(0, i as int)),
            forall|j: int| 0 <= j < i && (#[trigger] all[j]) is Err ==> failed@.contains(j as usize),
            events@.len() + failed@.len() == i,
            forall|k: int|
                0 <= k < failed@.len() ==> #[trigger] failed@[k] < i && all[failed@[k] as int] is Err,
            forall|a: int, b: int| 0 <= a < b < failed@.len() ==> failed@[a] < failed@[b],
        decreases rest@.len(),
    {
        let ghost after = all.subrange(0, i as int + 1);
        assert(after.drop_last() =~= all.subrange(0, i as int));
        let item = rest.remove(0);
        assert(item == all[i as int]);
        let ghost old_failed = failed@;
        match item {
            Ok(e) => events.push(e),
            Err(_) => failed.push(i),
        }
        proof {
            assert forall|j: int| 0 <= j < i + 1 && (#[trigger] all[j]) is Err implies failed@.contains(j as usize) by {
                if j < i {
                    let k = choose|k: int| 0 <= k < old_failed.len() && old_failed[k] == j as usize;
                    assert(failed@[k] == old_failed[k]);
                } else {
                    assert(failed@[failed@.len() - 1] == i);
                }
            }
        }
        i += 1;
    }
    assert(all.subrange(0, all.len() as int) =~= all);
    DecodedBatch { events, failed }
}

} // verus!
