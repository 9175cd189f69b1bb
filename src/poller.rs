//! The long-poll cursor and what to do with each fetch result.
//!
//! The caller runs the loop: it fetches with the poller's cursor, hands the
//! result to [`Poller::handle_fetch`], makes the deliveries it gets back, and
//! fetches again. One fetch is outstanding at a time, and the next one is made
//! only once the deliveries of the previous batch have been made.
use vstd::prelude::*;

use crate::matcher::Matcher;
use crate::message::Update;
use crate::route::{batch_deliveries, delivery_views, handle_updates, Delivery, ForwardConfig};

verus! {

/// The long-poll timeout used unless configured otherwise, in seconds.
pub const DEFAULT_TIMEOUT_SECS: u32 = 60;

/// Why a fetch failed.
#[derive(Clone, Copy, Debug, PartialEq, Eq, Structural)]
pub enum FetchError {
    /// The source could not be reached (connection, timeout, name lookup,
    /// TLS): retried at once.
    Network,
    /// The source answered with an error (authorization, rate limit, a bad
    /// request or response): reported, and retried.
    Api,
}

/// What a fetch result came to.
#[derive(Clone, Debug)]
pub enum PollOutcome {
    /// A non-empty batch: the deliveries it calls for, to be made before the
    /// next fetch.
    Dispatch(Vec<Delivery>),
    /// An empty batch: nothing to do.
    Empty,
    /// A network failure: worth a debug note at most.
    SoftFailure,
    /// An error answer from the source: worth a visible log line.
    HardFailure,
}

/// The largest id in a non-empty batch.
pub open spec fn max_id(us: Seq<Update>) -> int
    recommends
        us.len() > 0,
    decreases us.len(),
{
    if us.len() <= 1 {
        us[0].id as int
    } else {
        let m = max_id(us.drop_last());
        if us.last().id > m {
            us.last().id as int
        } else {
            m
        }
    }
}

/// The cursor after a successful fetch: one past the largest id of a
/// non-empty batch; unchanged after an empty one.
pub open spec fn cursor_after(cursor: int, us: Seq<Update>) -> int {
    if us.len() == 0 {
        cursor
    } else {
        max_id(us) + 1
    }
}

/// The cursor after a series of successful fetches, the batches in the order
/// they came.
pub open spec fn cursor_after_all(cursor: int, batches: Seq<Seq<Update>>) -> int
    decreases batches.len(),
{
    if batches.len() == 0 {
        cursor
    } else {
        cursor_after(cursor_after_all(cursor, batches.drop_last()), batches.last())
    }
}

/// Every update of the batch has an id at or past the cursor: what the source
/// promises of a long-poll from that cursor.
pub open spec fn ids_from(cursor: int, us: Seq<Update>) -> bool {
    forall|i: int| 0 <= i < us.len() ==> cursor <= #[trigger] us[i].id
}

/// `max_id` is an id of the batch, and no id of the batch exceeds it.
pub proof fn lemma_max_id(us: Seq<Update>)
    requires
        us.len() > 0,
    ensures
        exists|i: int| 0 <= i < us.len() && us[i].id == max_id(us),
        forall|i: int| 0 <= i < us.len() ==> us[i].id <= max_id(us),
    decreases us.len(),
{
    if us.len() > 1 {
        let init = us.drop_last();
        lemma_max_id(init);
        assert forall|i: int| 0 <= i < us.len() implies us[i].id <= max_id(us) by {
            if i < us.len() - 1 {
                assert(us[i] == init[i]);
            }
        }
        if us.last().id <= max_id(init) {
            let j = choose|j: int| 0 <= j < init.len() && init[j].id == max_id(init);
            assert(us[j] == init[j]);
        }
    }
}

/// After a non-empty batch fetched from `cursor`, the cursor is one past the
/// batch's largest id, and lies past its prior value.
pub proof fn lemma_cursor_advances(cursor: int, us: Seq<Update>)
    requires
        us.len() > 0,
        ids_from(cursor, us),
    ensures
        cursor_after(cursor, us) == max_id(us) + 1,
        cursor_after(cursor, us) > cursor,
{
    lemma_max_id(us);
    assert(cursor <= us[0].id);
}

/// Over any series of successful fetches, each batch fetched from the cursor
/// that the ones before it left, the cursor never goes back.
pub proof fn lemma_cursor_never_decreases(cursor: int, batches: Seq<Seq<Update>>)
    requires
        forall|k: int| 0 <= k < batches.len() ==> ids_from(cursor_after_all(cursor, batches.take(k)), #[trigger] batches[k]),
    ensures
        cursor_after_all(cursor, batches) >= cursor,
    decreases batches.len(),
{
    if batches.len() > 0 {
        let init = batches.drop_last();
        let k = batches.len() - 1;
        assert forall|j: int| 0 <= j < init.len() implies ids_from(cursor_after_all(cursor, init.take(j)), #[trigger] init[j]) by {
            assert(init.take(j) =~= batches.take(j));
            assert(init[j] == batches[j]);
        }
        lemma_cursor_never_decreases(cursor, init);
        assert(batches.take(k) =~= init);
        assert(ids_from(cursor_after_all(cursor, batches.take(k)), batches[k]));
        if batches.last().len() > 0 {
            lemma_cursor_advances(cursor_after_all(cursor, init), batches.last());
        }
    }
}

/// The long-poll cursor: the smallest update id not yet consumed.
pub struct Poller {
    pub cursor: i64,
    pub timeout: u32,
}

impl Poller {
    /// A poller that starts from id 0.
    pub fn new(timeout: u32) -> (r: Poller)
        ensures
            r.cursor == 0,
            r.timeout == timeout,
    {
        Poller { cursor: 0, timeout }
    }

    /// The cursor that a successful fetch of `updates` leaves.
    pub fn next_cursor(&self, updates: &Vec<Update>) -> (r: i64)
        ensures
            r == cursor_after(self.cursor as int, updates@),
    {
        if updates.len() == 0 {
            return self.cursor;
        }
        let mut best: i32 = updates[0].id;
        let mut i: usize = 1;
        while i < updates.len()
            invariant
                1 <= i <= updates@.len(),
                best == max_id(updates@.subrange(0, i as int)),
            decreases updates@.len() - i,
        {
            let ghost prefix = updates@.subrange(0, i as int + 1);
            assert(prefix.drop_last() =~= updates@.subrange(0, i as int));
            if updates[i].id > best {
                best = updates[i].id;
            }
            i += 1;
        }
        assert(updates@.subrange(0, updates@.len() as int) =~= updates@);
        best as i64 + 1
    }

    /// Decides what a fetch result comes to. On a non-empty batch the cursor
    /// moves to one past its largest id and the batch's deliveries are handed
    /// back; on an empty batch or a failure of either kind the cursor stays,
    /// so that the next fetch asks from the same place.
    pub fn handle_fetch<M: Matcher>(
        &mut self,
        result: Result<Vec<Update>, FetchError>,
        routes: &Vec<ForwardConfig<M>>,
    ) -> (r: PollOutcome)
        ensures
            final(self).timeout == old(self).timeout,
            match result {
                Ok(us) => final(self).cursor == cursor_after(old(self).cursor as int, us@),
                Err(_) => final(self).cursor == old(self).cursor,
            },
            match result {
                Ok(us) => if us@.len() == 0 {
                    r is Empty
                } else {
                    r is Dispatch && delivery_views(r->Dispatch_0@) == batch_deliveries(routes@, us@, us@.len() as nat)
                },
                Err(FetchError::Network) => r is SoftFailure,
                Err(FetchError::Api) => r is HardFailure,
            },
    {
        match result {
            Err(FetchError::Network) => PollOutcome::SoftFailure,
            Err(FetchError::Api) => PollOutcome::HardFailure,
            Ok(updates) => {
                if updates.len() == 0 {
                    PollOutcome::Empty
                } else {
                    let next = self.next_cursor(&updates);
                    let deliveries = handle_updates(&updates, routes);
                    self.cursor = next;
                    PollOutcome::Dispatch(deliveries)
                }
            },
        }
    }
}

} // verus!
