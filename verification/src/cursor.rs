//! The update cursor of the long-polling loop: how one round of decoded
//! updates advances the cursor, and which messages it hands to the inbound
//! channel.

use vstd::prelude::*;

use crate::telegram::{Message, Update, UpdateModel};

verus! {

/// The sentinel the cursor starts from: no update has been observed yet.
pub const NO_OFFSET: i64 = -1;

/// The cursor after one identifier has been observed: it never regresses,
/// and moves past the identifier when that lies ahead of it.
pub open spec fn cursor_step(cursor: int, id: int) -> int {
    if id + 1 > cursor {
        id + 1
    } else {
        cursor
    }
}

/// The cursor after a whole sequence of identifiers has been observed, in order.
pub open spec fn cursor_after(cursor: int, ids: Seq<int>) -> int
    decreases ids.len(),
{
    if ids.len() == 0 {
        cursor
    } else {
        cursor_step(cursor_after(cursor, ids.drop_last()), ids.last())
    }
}

/// The largest element of a non-empty sequence of identifiers.
pub open spec fn max_id(ids: Seq<int>) -> int
    recommends
        ids.len() > 0,
    decreases ids.len(),
{
    if ids.len() <= 1 {
        ids[0]
    } else if ids.last() > max_id(ids.drop_last()) {
        ids.last()
    } else {
        max_id(ids.drop_last())
    }
}

/// The identifiers carried by a sequence of updates, in order.
pub open spec fn ids_of(updates: Seq<UpdateModel>) -> Seq<int> {
    updates.map(|i: int, u: UpdateModel| u.update_id as int)
}

/// The messages carried by a sequence of updates, in order.
pub open spec fn messages_of(updates: Seq<UpdateModel>) -> Seq<crate::telegram::MessageModel> {
    updates.map(|i: int, u: UpdateModel| u.message)
}

/// Advances the cursor over one observed identifier: the maximum of the old
/// cursor and the identifier plus one, so the cursor never decreases.
pub fn advance_cursor(cursor: i64, update_id: i64) -> (r: i64)
    requires
        update_id < i64::MAX,
    ensures
        r as int == cursor_step(cursor as int, update_id as int),
        r >= cursor,
{
    let next = update_id + 1;
    if next > cursor {
        next
    } else {
        cursor
    }
}

/// The offset the next long-poll round asks for: the cursor itself once it is
/// positive, and no offset while it still holds the start sentinel.
pub fn poll_offset(cursor: i64) -> (r: Option<i64>)
    ensures
        r == if cursor > 0 {
            Some(cursor)
        } else {
            None::<i64>
        },
{
    if cursor > 0 {
        Some(cursor)
    } else {
        None
    }
}

/// Processes one decoded batch of updates: advances the cursor over every
/// identifier in order and collects the carried messages, preserving the
/// order the endpoint returned them in.
pub fn process_batch(cursor: i64, updates: &Vec<Update>) -> (r: (i64, Vec<Message>))
    requires
        forall|i: int| 0 <= i < updates@.len() ==> (#[trigger] updates@[i]).update_id < i64::MAX,
    ensures
        r.0 as int == cursor_after(cursor as int, ids_of(updates.deep_view())),
        r.1.deep_view() == messages_of(updates.deep_view()),
        r.0 >= cursor,
{
    let mut cur = cursor;
    let mut out: Vec<Message> = Vec::new();
    let mut k: usize = 0;
    while k < updates.len()
        invariant
            k <= updates@.len(),
            forall|i: int| 0 <= i < updates@.len() ==> (#[trigger] updates@[i]).update_id < i64::MAX,
            cur as int == cursor_after(cursor as int, ids_of(updates.deep_view().take(k as int))),
            out.deep_view() == messages_of(updates.deep_view().take(k as int)),
            cur >= cursor,
        decreases updates@.len() - k,
    {
        let u = &updates[k];
        cur = advance_cursor(cur, u.update_id);
        let ghost prev = out.deep_view();
        out.push(u.message.clone());
        proof {
            let uds = updates.deep_view();
            assert(uds.take(k + 1).drop_last() =~= uds.take(k as int));
            assert(ids_of(uds.take(k + 1)).drop_last() =~= ids_of(uds.take(k as int)));
            assert(ids_of(uds.take(k + 1)).last() == uds[k as int].update_id as int);
            assert(out.deep_view() =~= prev.push(uds[k as int].message));
            assert(messages_of(uds.take(k + 1)) =~= prev.push(uds[k as int].message));
        }
        k = k + 1;
    }
    proof {
        assert(updates.deep_view().take(updates@.len() as int) =~= updates.deep_view());
    }
    (cur, out)
}

/// The long-poll request one round sends: ask for one update at the given
/// offset, waiting up to the given timeout, a minute by default.
pub fn get_updates_request(offset: Option<i64>, timeout: Option<u32>) -> (r:
    crate::telegram::TelegramRequest)
    ensures
        r == (crate::telegram::TelegramRequest::Updates {
            offset,
            limit: Some(1i64),
            timeout: (match timeout {
                Some(t) => t,
                None => 60u32,
            }),
        }),
{
    let t: u32 = match timeout {
        Some(t) => t,
        None => 60,
    };
    crate::telegram::TelegramRequest::Updates { offset, limit: Some(1), timeout: t }
}

/// Processing identifiers batch by batch is the same as processing their
/// concatenation in one round: the cursor depends only on the ids ever seen.
pub proof fn lemma_cursor_after_concat(cursor: int, a: Seq<int>, b: Seq<int>)
    ensures
        cursor_after(cursor, a + b) == cursor_after(cursor_after(cursor, a), b),
    decreases b.len(),
{
    if b.len() == 0 {
        assert(a + b =~= a);
    } else {
        lemma_cursor_after_concat(cursor, a, b.drop_last());
        assert((a + b).drop_last() =~= a + b.drop_last());
        assert((a + b).last() == b.last());
    }
}

/// The cursor never decreases, whatever identifiers a round observes.
pub proof fn lemma_cursor_monotone(cursor: int, ids: Seq<int>)
    ensures
        cursor_after(cursor, ids) >= cursor,
    decreases ids.len(),
{
    if ids.len() > 0 {
        lemma_cursor_monotone(cursor, ids.drop_last());
    }
}

/// Starting from the sentinel, the cursor after observing a non-empty
/// sequence of non-negative identifiers is exactly one more than the largest
/// identifier ever seen.
pub proof fn lemma_cursor_is_one_past_max(ids: Seq<int>)
    requires
        ids.len() > 0,
        forall|i: int| 0 <= i < ids.len() ==> ids[i] >= 0,
    ensures
        cursor_after(NO_OFFSET as int, ids) == 1 + max_id(ids),
    decreases ids.len(),
{
    if ids.len() == 1 {
        assert(ids.drop_last().len() == 0);
        assert(cursor_after(NO_OFFSET as int, ids.drop_last()) == NO_OFFSET as int);
    } else {
        lemma_cursor_is_one_past_max(ids.drop_last());
        assert(forall|i: int|
            0 <= i < ids.drop_last().len() ==> ids.drop_last()[i] == ids[i]);
    }
}

} // verus!
