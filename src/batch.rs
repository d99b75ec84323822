use vstd::prelude::*;

use crate::event::{encode, encoded, Event};

verus! {

/// The most messages one receive call asks for.
pub const MAX_RECEIVE_COUNT: i32 = 10;

/// How long, in seconds, one receive call waits for messages to arrive.
pub const RECEIVE_WAIT_SECONDS: i32 = 20;

/// One item of a batch publish request.
#[derive(Debug)]
pub struct OutboundEntry {
    /// Correlates the item with its outcome in the batch response.
    pub id: String,
    /// The encoded record.
    pub body: String,
}

/// A message as the queue service delivered it.
#[derive(Debug)]
pub struct ReceivedMessage {
    pub message_id: Option<String>,
    /// Proves this particular delivery; needed to acknowledge it.
    pub receipt_handle: Option<String>,
    pub body: Option<String>,
}

/// One item of a batch delete (acknowledge) request.
#[derive(Debug)]
pub struct DeleteEntry {
    pub id: String,
    pub receipt_handle: String,
}

/// Why a batch request could not be built.
#[derive(Debug, Clone, Copy, PartialEq, Eq, Structural)]
pub enum BatchError {
    /// Two freshly drawn identifiers came out equal.
    DuplicateId,
}

/// The identifiers of a publish batch.
pub open spec fn entry_ids(entries: Seq<OutboundEntry>) -> Seq<Seq<char>> {
    entries.map_values(|e: OutboundEntry| e.id@)
}

/// No two items of the sequence are equal.
pub open spec fn all_distinct(s: Seq<Seq<char>>) -> bool {
    forall|i: int, j: int| 0 <= i < j < s.len() ==> s[i] != s[j]
}

/// A message can be acknowledged when it carries a non-empty receipt handle.
pub open spec fn deletable(m: ReceivedMessage) -> bool {
    match m.receipt_handle {
        Some(h) => h@.len() > 0,
        None => false,
    }
}

/// The receipt handle of a message, empty where it has none.
pub open spec fn handle_of(m: ReceivedMessage) -> Seq<char> {
    match m.receipt_handle {
        Some(h) => h@,
        None => seq![],
    }
}

/// The messages that can be acknowledged, in order.
pub open spec fn deletable_messages(msgs: Seq<ReceivedMessage>) -> Seq<ReceivedMessage> {
    msgs.filter(|m: ReceivedMessage| deletable(m))
}

/// One step of `deletable_messages`, from the last message.
pub proof fn lemma_deletable_step(msgs: Seq<ReceivedMessage>)
    ensures
        msgs.len() == 0 ==> deletable_messages(msgs) == Seq::<ReceivedMessage>::empty(),
        msgs.len() > 0 ==> deletable_messages(msgs) == if deletable(msgs.last()) {
            deletable_messages(msgs.drop_last()).push(msgs.last())
        } else {
            deletable_messages(msgs.drop_last())
        },
{
    reveal(Seq::filter);
}

/// Relies on uuid::Uuid::new_v4 and its hyphenated text form: a random
/// identifier, written in 36 characters.
#[verifier::external_body]
fn fresh_id() -> (r: String)
    ensures
        r@.len() == 36,
{
    uuid::Uuid::new_v4().to_string()
}


/// Whether some entry already carries the identifier.
fn id_taken(entries: &Vec<OutboundEntry>, id: &String) -> (r: bool)
    ensures
        r == entry_ids(entries@).contains(id@),
{
    let mut i: usize = 0;
    while i < entries.len()
        invariant
            i <= entries.len(),
            forall|k: int| 0 <= k < i ==> entries@[k].id@ != id@,
        decreases entries.len() - i,
    {
        if entries[i].id == *id {
            assert(entry_ids(entries@)[i as int] == id@);
            return true;
        }
        i += 1;
    }
    proof {
        if entry_ids(entries@).contains(id@) {
            let k = choose|k: int| 0 <= k < entry_ids(entries@).len() && entry_ids(entries@)[k] == id@;
            assert(entries@[k].id@ == id@);
        }
    }
    false
}

/// The views of a sequence of strings.
pub open spec fn views(ids: Seq<String>) -> Seq<Seq<char>> {
    ids.map_values(|s: String| s@)
}

/// Builds the items of one publish request from the given identifiers: the
/// k-th record gets the k-th identifier and its payload.  The batch is
/// refused when the identifiers it would use are not all different.
pub fn send_entries_with_ids(events: &[Event], ids: &Vec<String>) -> (r: Result<
    Vec<OutboundEntry>,
    BatchError,
>)
    requires
        ids@.len() >= events@.len(),
    ensures
        r is Ok <==> all_distinct(views(ids@).take(events@.len() as int)),
        match r {
            Ok(entries) => {
                &&& entries@.len() == events@.len()
                &&& forall|k: int|
                    0 <= k < entries@.len() ==> #[trigger] entries@[k].body@ == encoded(events@[k])
                        && entries@[k].id@ == ids@[k]@
            },
            Err(e) => e == BatchError::DuplicateId,
        },
{
    let mut entries: Vec<OutboundEntry> = Vec::new();
    let mut i: usize = 0;
    while i < events.len()
        invariant
            i <= events.len(),
            ids@.len() >= events@.len(),
            entries@.len() == i,
            forall|k: int|
                0 <= k < i ==> #[trigger] entries@[k].body@ == encoded(events@[k])
                    && entries@[k].id@ == ids@[k]@,
            all_distinct(entry_ids(entries@)),
        decreases events.len() - i,
    {
        let body = encode(&events[i]);
        let id = ids[i].clone();
        if id_taken(&entries, &id) {
            proof {
                let k = choose|k: int|
                    0 <= k < entry_ids(entries@).len() && entry_ids(entries@)[k] == id@;
                let t = views(ids@).take(events@.len() as int);
                assert(entries@[k].body@ == encoded(events@[k]));
                assert(views(ids@).len() == ids@.len());
                assert(views(ids@)[k] == ids@[k]@);
                assert(views(ids@)[i as int] == ids@[i as int]@);
                assert(t[k] == ids@[k]@);
                assert(t[i as int] == ids@[i as int]@);
            }
            return Err(BatchError::DuplicateId);
        }
        let ghost old_entries = entries@;
        entries.push(OutboundEntry { id, body });
        proof {
            let eids = entry_ids(entries@);
            assert forall|a: int, b: int| 0 <= a < b < eids.len() implies eids[a] != eids[b] by {
                assert(entry_ids(old_entries)[a] == eids[a]);
                if b < eids.len() - 1 {
                    assert(entry_ids(old_entries)[b] == eids[b]);
                }
            }
            assert forall|k: int| 0 <= k < i + 1 implies #[trigger] entries@[k].body@ == encoded(
                events@[k],
            ) && entries@[k].id@ == ids@[k]@ by {
                if k < i {
                    assert(entries@[k] == old_entries[k]);
                    assert(old_entries[k].body@ == encoded(events@[k]));
                }
            }
        }
        i += 1;
    }
    proof {
        let t = views(ids@).take(events@.len() as int);
        assert(views(ids@).len() == ids@.len());
        assert forall|a: int, b: int| 0 <= a < b < t.len() implies t[a] != t[b] by {
            assert(entries@[a].body@ == encoded(events@[a]));
            assert(entries@[b].body@ == encoded(events@[b]));
            assert(views(ids@)[a] == ids@[a]@);
            assert(views(ids@)[b] == ids@[b]@);
            assert(entry_ids(entries@)[a] == entries@[a].id@);
            assert(entry_ids(entries@)[b] == entries@[b].id@);
        }
    }
    Ok(entries)
}

/// Draws one fresh random identifier for each of `n` items.
fn fresh_ids(n: usize) -> (r: Vec<String>)
    ensures
        r@.len() == n,
        forall|k: int| 0 <= k < n ==> (#[trigger] r@[k])@.len() == 36,
{
    let mut ids: Vec<String> = Vec::new();
    while ids.len() < n
        invariant
            ids@.len() <= n,
            forall|k: int| 0 <= k < ids@.len() ==> (#[trigger] ids@[k])@.len() == 36,
        decreases n - ids@.len(),
    {
        ids.push(fresh_id());
    }
    ids
}

/// Builds the items of one publish request: each record gets an entry with
/// its payload and a fresh random identifier, in order.
///
/// Every entry's identifier differs from the others'.  In the unlikely case
/// that two freshly drawn identifiers are equal, no batch is built; with at
/// most one record that cannot happen.
pub fn build_send_entries(events: &[Event]) -> (r: Result<Vec<OutboundEntry>, BatchError>)
    ensures
        events@.len() <= 1 ==> r is Ok,
        match r {
            Ok(entries) => {
                &&& entries@.len() == events@.len()
                &&& forall|k: int|
                    0 <= k < entries@.len() ==> #[trigger] entries@[k].body@ == encoded(events@[k])
                &&& forall|k: int| 0 <= k < entries@.len() ==> #[trigger] entries@[k].id@.len() == 36
                &&& all_distinct(entry_ids(entries@))
            },
            Err(e) => e == BatchError::DuplicateId,
        },
{
    let ids = fresh_ids(events.len());
    let r = send_entries_with_ids(events, &ids);
    proof {
        if events@.len() <= 1 {
            let t = views(ids@).take(events@.len() as int);
            assert(views(ids@).len() == ids@.len());
            assert(t.len() <= 1);
        }
        if r is Ok {
            let entries = r->Ok_0;
            let eids = entry_ids(entries@);
            assert forall|a: int, b: int| 0 <= a < b < eids.len() implies eids[a] != eids[b] by {
                assert(entries@[a].body@ == encoded(events@[a]));
                assert(entries@[b].body@ == encoded(events@[b]));
                assert(eids[a] == entries@[a].id@);
                assert(eids[b] == entries@[b].id@);
                let t = views(ids@).take(events@.len() as int);
                assert(t[a] == ids@[a]@);
                assert(t[b] == ids@[b]@);
            }
            assert forall|k: int| 0 <= k < entries@.len() implies #[trigger] entries@[k].id@.len() == 36 by {
                assert(entries@[k].body@ == encoded(events@[k]));
                assert(ids@[k]@.len() == 36);
            }
        }
    }
    r
}

/// The identifier that the k-th delete entry carries: the message's own
/// identifier where it has one, else the given fallback.
pub open spec fn delete_id(m: ReceivedMessage, fallback: Seq<char>) -> Seq<char> {
    match m.message_id {
        Some(mid) => mid@,
        None => fallback,
    }
}

/// The delete entry acknowledges the message, under its own identifier or
/// else under the fallback.
pub open spec fn acknowledges_message(e: DeleteEntry, m: ReceivedMessage, fallback: Seq<char>) -> bool {
    e.receipt_handle@ == handle_of(m) && e.id@ == delete_id(m, fallback)
}

/// Builds the items of one delete request from the given fallback
/// identifiers: one entry for each message that carries a non-empty receipt
/// handle, in order; the k-th entry carries the message's own identifier or,
/// where it has none, the k-th fallback.  Messages without a handle cannot
/// be acknowledged and are left out.
pub fn delete_entries_with_ids(messages: &[ReceivedMessage], fallback: &Vec<String>) -> (r: Vec<
    DeleteEntry,
>)
    requires
        fallback@.len() >= messages@.len(),
    ensures
        r@.len() == deletable_messages(messages@).len(),
        forall|k: int|
            0 <= k < r@.len() ==> acknowledges_message(
                #[trigger] r@[k],
                deletable_messages(messages@)[k],
                fallback@[k]@,
            ),
{
    let mut entries: Vec<DeleteEntry> = Vec::new();
    let mut i: usize = 0;
    proof {
        lemma_deletable_step(messages@.subrange(0, 0));
    }
    while i < messages.len()
        invariant
            i <= messages.len(),
            fallback@.len() >= messages@.len(),
            entries@.len() == deletable_messages(messages@.subrange(0, i as int)).len(),
            entries@.len() <= i,
            forall|k: int|
                0 <= k < entries@.len() ==> acknowledges_message(
                    #[trigger] entries@[k],
                    deletable_messages(messages@.subrange(0, i as int))[k],
                    fallback@[k]@,
                ),
        decreases messages.len() - i,
    {
        let ghost before = messages@.subrange(0, i as int);
        let ghost after = messages@.subrange(0, i as int + 1);
        assert(after.drop_last() =~= before);
        assert(after.last() == messages@[i as int]);
        proof {
            lemma_deletable_step(after);
        }
        let message = &messages[i];
        match &message.receipt_handle {
            Some(handle) => {
                if !handle.as_str().is_empty() {
                    let id = match &message.message_id {
                        Some(mid) => mid.clone(),
                        None => fallback[entries.len()].clone(),
                    };
                    let ghost old_entries = entries@;
                    entries.push(DeleteEntry { id, receipt_handle: handle.clone() });
                    proof {
                        let d = deletable_messages(after);
                        assert(d == deletable_messages(before).push(messages@[i as int]));
                        assert forall|k: int| 0 <= k < entries@.len() implies acknowledges_message(
                            #[trigger] entries@[k],
                            d[k],
                            fallback@[k]@,
                        ) by {
                            if k < old_entries.len() {
                                assert(entries@[k] == old_entries[k]);
                            }
                        }
                    }
                } else {
                    assert(deletable_messages(after) == deletable_messages(before));
                }
            },
            None => {
                assert(deletable_messages(after) == deletable_messages(before));
            },
        }
        i += 1;
    }
    assert(messages@.subrange(0, messages@.len() as int) =~= messages@);
    entries
}

/// Builds the items of one delete request: one entry for each message that
/// carries a non-empty receipt handle, in order, with the message's own
/// identifier or, where it has none, a fresh random one.  Messages without
/// a handle cannot be acknowledged and are left out.
pub fn build_delete_entries(messages: &[ReceivedMessage]) -> (r: Vec<DeleteEntry>)
    ensures
        r@.len() == deletable_messages(messages@).len(),
        forall|k: int|
            0 <= k < r@.len() ==> (#[trigger] r@[k]).receipt_handle@ == handle_of(
                deletable_messages(messages@)[k],
            ),
        forall|k: int|
            0 <= k < r@.len() ==> match deletable_messages(messages@)[k].message_id {
                Some(mid) => (#[trigger] r@[k]).id@ == mid@,
                None => r@[k].id@.len() == 36,
            },
{
    let fallback = fresh_ids(messages.len());
    let r = delete_entries_with_ids(messages, &fallback);
    proof {
        lemma_delete_only_deletable(messages@);
    }
    assert forall|k: int| 0 <= k < r@.len() implies match deletable_messages(messages@)[k].message_id {
        Some(mid) => (#[trigger] r@[k]).id@ == mid@,
        None => r@[k].id@.len() == 36,
    } by {
        assert(acknowledges_message(r@[k], deletable_messages(messages@)[k], fallback@[k]@));
        assert(fallback@[k]@.len() == 36);
    }
    r
}

/// The messages of one receive response: none where the response holds no
/// message list, which is how an empty queue answers once the wait is over.
pub fn received_messages(listed: Option<Vec<ReceivedMessage>>) -> (r: Vec<ReceivedMessage>)
    ensures
        r@ == match listed {
            Some(v) => v@,
            None => Seq::<ReceivedMessage>::empty(),
        },
{
    match listed {
        Some(v) => v,
        None => Vec::new(),
    }
}

/// Only messages with a non-empty receipt handle are acknowledged, every
/// one of them is, and a delete request never has more items than there
/// were messages.
pub proof fn lemma_delete_only_deletable(msgs: Seq<ReceivedMessage>)
    ensures
        deletable_messages(msgs).len() <= msgs.len(),
        forall|k: int|
            0 <= k < deletable_messages(msgs).len() ==> deletable(
                #[trigger] deletable_messages(msgs)[k],
            ) && msgs.contains(deletable_messages(msgs)[k]),
        forall|i: int| 0 <= i < msgs.len() && deletable(#[trigger] msgs[i]) ==> deletable_messages(
            msgs,
        ).contains(msgs[i]),
    decreases msgs.len(),
{
    lemma_deletable_step(msgs);
    if msgs.len() > 0 {
        let prev = msgs.drop_last();
        lemma_delete_only_deletable(prev);
        let d = deletable_messages(msgs);
        let dp = deletable_messages(prev);
        assert forall|k: int| 0 <= k < d.len() implies deletable(#[trigger] d[k]) && msgs.contains(d[k]) by {
            if k < dp.len() {
                assert(d[k] == dp[k]);
                let j = choose|j: int| 0 <= j < prev.len() && prev[j] == dp[k];
                assert(msgs[j] == prev[j]);
            } else {
                assert(d[k] == msgs[msgs.len() - 1]);
            }
        }
        assert forall|i: int| 0 <= i < msgs.len() && deletable(#[trigger] msgs[i]) implies d.contains(msgs[i]) by {
            if i < msgs.len() - 1 {
                assert(prev[i] == msgs[i]);
                assert(dp.contains(prev[i]));
                let k = choose|k: int| 0 <= k < dp.len() && dp[k] == prev[i];
                assert(d[k] == dp[k]);
            } else {
                assert(d[d.len() - 1] == msgs[i]);
            }
        }
    }
}

} // verus!
