//! The queue of messages that wait for their thread.
//!
//! Each thread has its own queue, ordered by `queue_order`. Its head alone can
//! be claimed; a head that is claimed or failed holds up what stands behind it.

use vstd::prelude::*;

use crate::ids;
use crate::ids::ThreadId;
use crate::state::schedule;
use crate::text;

verus! {

/// What has become of a queued item.
#[derive(Clone, Copy, Debug, PartialEq, Eq, Structural)]
pub enum QueuedItemState {
    Pending,
    Claimed,
    Failed,
}

impl QueuedItemState {
    /// The stored name of the state.
    pub open spec fn name(self) -> Seq<char> {
        match self {
            QueuedItemState::Pending => "pending"@,
            QueuedItemState::Claimed => "claimed"@,
            QueuedItemState::Failed => "failed"@,
        }
    }

    /// The state that a stored name means.
    pub open spec fn named(value: Seq<char>) -> Option<QueuedItemState> {
        if value == "pending"@ {
            Some(QueuedItemState::Pending)
        } else if value == "claimed"@ {
            Some(QueuedItemState::Claimed)
        } else if value == "failed"@ {
            Some(QueuedItemState::Failed)
        } else {
            None
        }
    }

    /// The stored name of the state.
    pub fn as_str(self) -> (r: &'static str)
        ensures
            r@ == self.name(),
            Self::named(r@) == Some(self),
    {
        proof {
            reveal_strlit("pending");
            reveal_strlit("claimed");
            reveal_strlit("failed");
            assert("pending"@[0] != "claimed"@[0]);
            assert("pending"@.len() != "failed"@.len());
            assert("claimed"@.len() != "failed"@.len());
        }
        match self {
            QueuedItemState::Pending => "pending",
            QueuedItemState::Claimed => "claimed",
            QueuedItemState::Failed => "failed",
        }
    }

    /// Reads the stored name of a state.
    pub fn parse(value: &str) -> (r: Result<QueuedItemState, String>)
        ensures
            match r {
                Ok(state) => Self::named(value@) == Some(state),
                Err(e) => Self::named(value@) is None && e@ == "unknown queued item state `"@ + value@ + "`"@,
            },
    {
        if text::str_eq(value, "pending") {
            Ok(QueuedItemState::Pending)
        } else if text::str_eq(value, "claimed") {
            Ok(QueuedItemState::Claimed)
        } else if text::str_eq(value, "failed") {
            Ok(QueuedItemState::Failed)
        } else {
            let mut message: String = "unknown queued item state `".to_owned();
            message.push_str(value);
            message.push_str("`");
            Err(message)
        }
    }
}

/// A queued item. Times are in milliseconds since the epoch.
#[derive(Debug, PartialEq, Eq)]
pub struct QueuedItemRecord {
    pub queued_item_id: String,
    pub thread_id: ThreadId,
    pub payload_jsonb: Vec<u8>,
    pub queue_order: i64,
    pub state: QueuedItemState,
    pub failure_jsonb: Option<Vec<u8>>,
    pub created_at_ms: i64,
    pub updated_at_ms: i64,
}

/// A queued item that was claimed, with the token that proves the claim.
#[derive(Debug, PartialEq, Eq)]
pub struct QueuedItemClaim {
    pub item: QueuedItemRecord,
    pub claim_token: String,
}

/// A queued item as it is stored.
#[derive(Debug, PartialEq, Eq)]
pub struct QueuedItemRow {
    pub queued_item_id: String,
    pub thread_id: String,
    pub payload_jsonb: Vec<u8>,
    pub queue_order: i64,
    pub state: String,
    pub failure_jsonb: Option<Vec<u8>>,
    pub created_at_ms: i64,
    pub updated_at_ms: i64,
}

/// Whether the calendar holds the millisecond.
pub open spec fn millis_in_calendar(ms: int) -> bool {
    schedule::in_calendar(ms / 1000)
}

fn check_millis(ms: i64) -> (r: Result<(), String>)
    ensures
        match r {
            Ok(_) => millis_in_calendar(ms as int),
            Err(e) => !millis_in_calendar(ms as int) && e@ == "invalid unix timestamp millis: "@ + text::signed_decimal(
                ms as int,
            ),
        },
{
    let below: i64 = ms % 1000;
    let seconds: i64 = if below < 0 {
        ms / 1000 - 1
    } else {
        ms / 1000
    };
    assert(seconds == ms as int / 1000);
    if schedule::is_datetime(seconds) {
        return Ok(());
    }
    let mut message: String = "invalid unix timestamp millis: ".to_owned();
    text::push_signed_decimal(&mut message, ms);
    Err(message)
}

/// What is wrong with a stored item, if anything; the first fault counts.
pub open spec fn row_fault(row: QueuedItemRow) -> Option<Seq<char>> {
    if ids::uuid_outcome(row.thread_id@) is Err {
        Some(ids::uuid_outcome(row.thread_id@)->Err_0)
    } else if QueuedItemState::named(row.state@) is None {
        Some("unknown queued item state `"@ + row.state@ + "`"@)
    } else if !millis_in_calendar(row.created_at_ms as int) {
        Some("invalid unix timestamp millis: "@ + text::signed_decimal(row.created_at_ms as int))
    } else if !millis_in_calendar(row.updated_at_ms as int) {
        Some("invalid unix timestamp millis: "@ + text::signed_decimal(row.updated_at_ms as int))
    } else {
        None
    }
}

/// Reads a stored item.
pub fn record_from_row(row: QueuedItemRow) -> (r: Result<QueuedItemRecord, String>)
    ensures
        match r {
            Ok(item) => {
                &&& row_fault(row) is None
                &&& item.queued_item_id == row.queued_item_id
                &&& ids::uuid_value(row.thread_id@) == Some(item.thread_id.value)
                &&& item.payload_jsonb == row.payload_jsonb
                &&& item.queue_order == row.queue_order
                &&& QueuedItemState::named(row.state@) == Some(item.state)
                &&& item.failure_jsonb == row.failure_jsonb
                &&& item.created_at_ms == row.created_at_ms
                &&& item.updated_at_ms == row.updated_at_ms
            },
            Err(e) => row_fault(row) == Some(e@),
        },
{
    let thread_id = match ThreadId::from_string(row.thread_id.as_str()) {
        Ok(id) => id,
        Err(e) => return Err(e),
    };
    let state = match QueuedItemState::parse(row.state.as_str()) {
        Ok(state) => state,
        Err(e) => return Err(e),
    };
    match check_millis(row.created_at_ms) {
        Ok(_) => {},
        Err(e) => return Err(e),
    }
    match check_millis(row.updated_at_ms) {
        Ok(_) => {},
        Err(e) => return Err(e),
    }
    Ok(
        QueuedItemRecord {
            queued_item_id: row.queued_item_id,
            thread_id,
            payload_jsonb: row.payload_jsonb,
            queue_order: row.queue_order,
            state,
            failure_jsonb: row.failure_jsonb,
            created_at_ms: row.created_at_ms,
            updated_at_ms: row.updated_at_ms,
        },
    )
}

/// An item in the store.
#[derive(Debug, PartialEq, Eq)]
pub struct QueuedItem {
    pub record: QueuedItemRecord,
    pub claim_token: Option<String>,
}

/// What is stored of an item.
#[verifier::ext_equal]
pub struct Item {
    pub id: Seq<char>,
    pub thread: ThreadId,
    pub payload: Seq<u8>,
    pub order: int,
    pub state: QueuedItemState,
    pub failure: Option<Seq<u8>>,
    pub token: Option<Seq<char>>,
    pub created: int,
    pub updated: int,
}

/// The bytes that are there.
pub open spec fn opt_bytes(v: Option<Vec<u8>>) -> Option<Seq<u8>> {
    match v {
        Some(b) => Some(b@),
        None => None,
    }
}

impl View for QueuedItem {
    type V = Item;

    open spec fn view(&self) -> Item {
        Item {
            id: self.record.queued_item_id@,
            thread: self.record.thread_id,
            payload: self.record.payload_jsonb@,
            order: self.record.queue_order as int,
            state: self.record.state,
            failure: opt_bytes(self.record.failure_jsonb),
            token: text::opt_view(self.claim_token),
            created: self.record.created_at_ms as int,
            updated: self.record.updated_at_ms as int,
        }
    }
}

/// Whether the record shows the item.
pub open spec fn shows(r: QueuedItemRecord, i: Item) -> bool {
    &&& r.queued_item_id@ == i.id
    &&& r.thread_id == i.thread
    &&& r.payload_jsonb@ == i.payload
    &&& r.queue_order == i.order
    &&& r.state == i.state
    &&& opt_bytes(r.failure_jsonb) == i.failure
    &&& r.created_at_ms == i.created
    &&& r.updated_at_ms == i.updated
}

fn clone_bytes(b: &Vec<u8>) -> (r: Vec<u8>)
    ensures
        r@ == b@,
{
    let mut out: Vec<u8> = Vec::new();
    let mut i: usize = 0;
    while i < b.len()
        invariant
            i <= b.len(),
            out@ == b@.take(i as int),
        decreases b.len() - i,
    {
        out.push(b[i]);
        i = i + 1;
    }
    out
}

fn clone_record(r: &QueuedItemRecord, Ghost(i): Ghost<Item>) -> (c: QueuedItemRecord)
    requires
        shows(*r, i),
    ensures
        shows(c, i),
{
    QueuedItemRecord {
        queued_item_id: r.queued_item_id.clone(),
        thread_id: r.thread_id,
        payload_jsonb: clone_bytes(&r.payload_jsonb),
        queue_order: r.queue_order,
        state: r.state,
        failure_jsonb: match &r.failure_jsonb {
            Some(b) => Some(clone_bytes(b)),
            None => None,
        },
        created_at_ms: r.created_at_ms,
        updated_at_ms: r.updated_at_ms,
    }
}

// ---------------------------------------------------------------------
// The store
// ---------------------------------------------------------------------

/// The items of all queues.
#[derive(Debug)]
pub struct QueueStore {
    pub items: Vec<QueuedItem>,
}

impl View for QueueStore {
    type V = Seq<Item>;

    open spec fn view(&self) -> Seq<Item> {
        self.items@.map_values(|i: QueuedItem| i@)
    }
}

/// Whether clients see the item: it waits or has failed.
pub open spec fn is_visible(i: Item, thread: ThreadId) -> bool {
    i.thread == thread && !(i.state is Claimed)
}

/// Whether the item is claimed under the token.
pub open spec fn claimed_with(i: Item, id: Seq<char>, token: Seq<char>) -> bool {
    i.id == id && i.state is Claimed && i.token == Some(token)
}

/// Whether identifiers are unique, no two items of a thread share a place, and
/// exactly the claimed items have a token.
pub open spec fn items_ok(s: Seq<Item>) -> bool {
    &&& forall|i: int, j: int| 0 <= i < j < s.len() ==> (#[trigger] s[i]).id != (#[trigger] s[j]).id
    &&& forall|i: int, j: int|
        0 <= i < j < s.len() && (#[trigger] s[i]).thread == (#[trigger] s[j]).thread ==> s[i].order != s[j].order
    &&& forall|i: int| 0 <= i < s.len() ==> ((#[trigger] s[i]).state is Claimed <==> s[i].token is Some)
}

/// Whether the item at `i` is the head of its thread's queue.
pub open spec fn is_head(s: Seq<Item>, thread: ThreadId, i: int) -> bool {
    &&& 0 <= i < s.len()
    &&& s[i].thread == thread
    &&& forall|j: int| 0 <= j < s.len() && (#[trigger] s[j]).thread == thread ==> s[i].order <= s[j].order
}

/// Whether the positions are those of the visible items of a thread, in the
/// order of its queue.
pub open spec fn is_listing(s: Seq<Item>, thread: ThreadId, at: Seq<int>) -> bool {
    &&& forall|k: int| 0 <= k < at.len() ==> 0 <= #[trigger] at[k] < s.len() && is_visible(s[at[k]], thread)
    &&& forall|k: int, l: int| 0 <= k < l < at.len() ==> s[#[trigger] at[k]].order < s[#[trigger] at[l]].order
    &&& forall|i: int| 0 <= i < s.len() && is_visible(#[trigger] s[i], thread) ==> at.contains(i)
}

/// Whether the records are those of the items at the positions, from the offset
/// on and no more than the limit.
pub open spec fn is_page(page: Seq<QueuedItemRecord>, s: Seq<Item>, at: Seq<int>, offset: int, limit: int) -> bool {
    let n = if offset >= at.len() {
        0
    } else if limit <= at.len() - offset {
        limit
    } else {
        at.len() - offset
    };
    &&& page.len() == n
    &&& forall|k: int| 0 <= k < n ==> shows(#[trigger] page[k], s[at[offset + k]])
}

/// The positions as whole numbers.
pub open spec fn spots(v: Seq<usize>) -> Seq<int> {
    v.map_values(|i: usize| i as int)
}

/// Whether the positions are those of the visible items of a thread among the
/// first `n`, in the order of its queue.
spec fn lists_first(s: Seq<Item>, thread: ThreadId, out: Seq<usize>, n: int) -> bool {
    &&& forall|k: int| 0 <= k < out.len() ==> #[trigger] out[k] < n && is_visible(s[out[k] as int], thread)
    &&& forall|k: int, l: int|
        0 <= k < l < out.len() ==> s[#[trigger] out[k] as int].order < s[#[trigger] out[l] as int].order
    &&& forall|j: int| 0 <= j < n && is_visible(#[trigger] s[j], thread) ==> spots(out).contains(j)
}

proof fn lemma_listed_first(s: Seq<Item>, thread: ThreadId, before: Seq<usize>, k: int, i: usize)
    requires
        i < s.len(),
        is_visible(s[i as int], thread),
        lists_first(s, thread, before, i as int),
        0 <= k <= before.len(),
        forall|m: int| 0 <= m < k ==> s[#[trigger] before[m] as int].order < s[i as int].order,
        forall|m: int| k <= m < before.len() ==> s[i as int].order < s[#[trigger] before[m] as int].order,
    ensures
        lists_first(s, thread, before.insert(k, i), i + 1),
{
    let out = before.insert(k, i);
    assert forall|m: int| 0 <= m < out.len() implies #[trigger] out[m] < i + 1 && is_visible(
        s[out[m] as int],
        thread,
    ) by {
        if m < k {
            assert(out[m] == before[m]);
        } else if m > k {
            assert(out[m] == before[m - 1]);
        }
    }
    assert forall|m: int, l: int| 0 <= m < l < out.len() implies s[#[trigger] out[m] as int].order < s[
    #[trigger] out[l] as int].order by {
        let x = if m < k {
            m
        } else {
            m - 1
        };
        let y = if l < k {
            l
        } else {
            l - 1
        };
        if m != k {
            assert(out[m] == before[x]);
        }
        if l != k {
            assert(out[l] == before[y]);
        }
    }
    assert forall|j: int| 0 <= j < i + 1 && is_visible(#[trigger] s[j], thread) implies spots(out).contains(j) by {
        if j < i {
            let m = choose|m: int| 0 <= m < before.len() && spots(before)[m] == j;
            if m < k {
                assert(spots(out)[m] == j);
            } else {
                assert(spots(out)[m + 1] == j);
            }
        } else {
            assert(spots(out)[k] == j);
        }
    }
}

proof fn lemma_lists_all(s: Seq<Item>, thread: ThreadId, out: Seq<usize>)
    requires
        lists_first(s, thread, out, s.len() as int),
    ensures
        is_listing(s, thread, spots(out)),
{
    let at = spots(out);
    assert forall|k: int| 0 <= k < at.len() implies 0 <= #[trigger] at[k] < s.len() && is_visible(
        s[at[k]],
        thread,
    ) by {
        assert(out[k] < s.len());
    }
    assert forall|k: int, l: int| 0 <= k < l < at.len() implies s[#[trigger] at[k]].order < s[
    #[trigger] at[l]].order by {
        assert(s[out[k] as int].order < s[out[l] as int].order);
    }
}

impl QueueStore {
    /// The rules that every operation keeps.
    pub open spec fn wf(self) -> bool {
        items_ok(self@)
    }

    /// An empty store.
    pub fn new() -> (r: QueueStore)
        ensures
            r.wf(),
            r@.len() == 0,
    {
        QueueStore { items: Vec::new() }
    }

    /// The largest place in a thread's queue, or minus one in an empty one.
    fn last_order(&self, thread_id: ThreadId) -> (r: i64)
        ensures
            forall|i: int| 0 <= i < self@.len() && (#[trigger] self@[i]).thread == thread_id ==> self@[i].order <= r,
            r == -1 && (forall|i: int| 0 <= i < self@.len() ==> (#[trigger] self@[i]).thread != thread_id) || exists|
                i: int,
            |
                0 <= i < self@.len() && (#[trigger] self@[i]).thread == thread_id && self@[i].order == r,
    {
        let mut best: i64 = -1;
        let mut found: bool = false;
        let mut i: usize = 0;
        while i < self.items.len()
            invariant
                i <= self.items@.len(),
                !found ==> best == -1 && forall|j: int| 0 <= j < i ==> (#[trigger] self@[j]).thread != thread_id,
                found ==> exists|j: int|
                    0 <= j < i && (#[trigger] self@[j]).thread == thread_id && self@[j].order == best,
                forall|j: int| 0 <= j < i && (#[trigger] self@[j]).thread == thread_id ==> self@[j].order <= best,
            decreases self.items@.len() - i,
        {
            let item = &self.items[i];
            assert(self@[i as int] == item@);
            if item.record.thread_id == thread_id {
                if !found || item.record.queue_order > best {
                    best = item.record.queue_order;
                }
                found = true;
            }
            i = i + 1;
        }
        best
    }

    /// Puts an item at the end of a thread's queue, under a fresh identifier.
    /// The payload is the JSON text that the database makes of it; what is no
    /// JSON it refuses before it comes here.
    pub fn enqueue(&mut self, thread_id: ThreadId, queued_item_id: String, payload_json: Vec<u8>, now_ms: i64) -> (r: Result<
        QueuedItemRecord,
        String,
    >)
        requires
            old(self).wf(),
            forall|i: int| 0 <= i < old(self)@.len() ==> (#[trigger] old(self)@[i]).id != queued_item_id@,
            forall|i: int|
                0 <= i < old(self)@.len() && (#[trigger] old(self)@[i]).thread == thread_id ==> old(self)@[i].order
                    < i64::MAX,
        ensures
            final(self).wf(),
            match r {
                Ok(record) => {
                    let item = final(self)@.last();
                    &&& vstd::utf8::valid_utf8(payload_json@)
                    &&& final(self)@ == old(self)@.push(item)
                    &&& shows(record, item)
                    &&& item.id == queued_item_id@
                    &&& item.thread == thread_id
                    &&& item.payload == payload_json@
                    &&& item.state is Pending
                    &&& item.failure is None
                    &&& item.token is None
                    &&& item.created == now_ms
                    &&& item.updated == now_ms
                    &&& forall|i: int|
                        0 <= i < old(self)@.len() && (#[trigger] old(self)@[i]).thread == thread_id
                            ==> old(self)@[i].order < item.order
                    &&& item.order == 0 && (forall|i: int|
                        0 <= i < old(self)@.len() ==> (#[trigger] old(self)@[i]).thread != thread_id) || exists|
                        i: int,
                    |
                        0 <= i < old(self)@.len() && (#[trigger] old(self)@[i]).thread == thread_id && item.order
                            == old(self)@[i].order + 1
                },
                Err(e) => !vstd::utf8::valid_utf8(payload_json@) && e@ == text::utf8_fault(payload_json@) && final(self)@
                    == old(self)@,
            },
    {
        match text::from_utf8(clone_bytes(&payload_json)) {
            Ok(_) => {},
            Err(e) => return Err(e),
        }
        let ghost before = self@;
        let last = self.last_order(thread_id);
        assert(last < i64::MAX);
        let record = QueuedItemRecord {
            queued_item_id,
            thread_id,
            payload_jsonb: payload_json,
            queue_order: last + 1,
            state: QueuedItemState::Pending,
            failure_jsonb: None,
            created_at_ms: now_ms,
            updated_at_ms: now_ms,
        };
        let item = QueuedItem { record, claim_token: None };
        let copy = clone_record(&item.record, Ghost(item@));
        self.items.push(item);
        assert(self@ =~= before.push(item@));
        Ok(copy)
    }

    /// Where the item belongs among positions that are in the order of the queue.
    fn place_among(&self, out: &Vec<usize>, i: usize, Ghost(thread): Ghost<ThreadId>) -> (r: usize)
        requires
            self.wf(),
            i < self@.len(),
            is_visible(self@[i as int], thread),
            lists_first(self@, thread, out@, i as int),
        ensures
            r <= out@.len(),
            forall|m: int| 0 <= m < r ==> self@[#[trigger] out@[m] as int].order < self@[i as int].order,
            forall|m: int| r <= m < out@.len() ==> self@[i as int].order < self@[#[trigger] out@[m] as int].order,
    {
        let ghost s = self@;
        assert(s[i as int] == self.items@[i as int]@);
        let mut k: usize = 0;
        while k < out.len() && self.items[out[k]].record.queue_order < self.items[i].record.queue_order
            invariant
                k <= out@.len(),
                i < self.items@.len(),
                s == self@,
                s[i as int] == self.items@[i as int]@,
                lists_first(s, thread, out@, i as int),
                forall|m: int| 0 <= m < k ==> s[#[trigger] out@[m] as int].order < s[i as int].order,
            decreases out@.len() - k,
        {
            assert(s[out@[k as int] as int] == self.items@[out@[k as int] as int]@);
            k = k + 1;
        }
        proof {
            if k < out@.len() {
                let p = out@[k as int] as int;
                assert(s[p] == self.items@[p]@);
                assert(s[p].thread == s[i as int].thread);
                assert(s[p].order != s[i as int].order);
            }
        }
        k
    }

    /// The positions of the visible items of a thread, in the order of its
    /// queue.
    fn listing(&self, thread_id: ThreadId) -> (r: Vec<usize>)
        requires
            self.wf(),
        ensures
            is_listing(self@, thread_id, spots(r@)),
    {
        let ghost s = self@;
        let mut out: Vec<usize> = Vec::new();
        let mut i: usize = 0;
        while i < self.items.len()
            invariant
                i <= self.items@.len(),
                s == self@,
                self.wf(),
                lists_first(s, thread_id, out@, i as int),
            decreases self.items@.len() - i,
        {
            let item = &self.items[i];
            assert(s[i as int] == item@);
            let claimed = match item.record.state {
                QueuedItemState::Claimed => true,
                _ => false,
            };
            if item.record.thread_id == thread_id && !claimed {
                let k = self.place_among(&out, i, Ghost(thread_id));
                proof {
                    lemma_listed_first(s, thread_id, out@, k as int, i);
                }
                out.insert(k, i);
            }
            i = i + 1;
        }
        proof {
            lemma_lists_all(s, thread_id, out@);
        }
        out
    }

    /// A page of the visible items of a thread, in the order of its queue. The
    /// database counts in signed numbers: what they do not hold is an error.
    pub fn list_page(&self, thread_id: ThreadId, offset: usize, limit: usize) -> (r: Result<
        Vec<QueuedItemRecord>,
        String,
    >)
        requires
            self.wf(),
        ensures
            match r {
                Ok(page) => offset <= i64::MAX && limit <= i64::MAX && exists|at: Seq<int>| #[trigger]
                    is_listing(self@, thread_id, at) && is_page(page@, self@, at, offset as int, limit as int),
                Err(e) => (offset > i64::MAX || limit > i64::MAX) && e@
                    == "out of range integral type conversion attempted"@,
            },
    {
        if limit as u64 > 9223372036854775807 || offset as u64 > 9223372036854775807 {
            return Err("out of range integral type conversion attempted".to_string());
        }
        let at = self.listing(thread_id);
        let ghost places = spots(at@);
        let mut out: Vec<QueuedItemRecord> = Vec::new();
        let mut i: usize = offset;
        while i < at.len() && out.len() < limit
            invariant
                places == spots(at@),
                is_listing(self@, thread_id, places),
                offset <= i,
                out@.len() == i - offset,
                out@.len() <= limit,
                i <= at@.len() || i == offset,
                forall|k: int| 0 <= k < out@.len() ==> shows(#[trigger] out@[k], self@[places[offset + k]]),
            decreases at@.len() - i,
        {
            assert(places[i as int] == at@[i as int]);
            let item = &self.items[at[i]];
            assert(self@[places[i as int]] == item@);
            out.push(clone_record(&item.record, Ghost(item@)));
            i = i + 1;
        }
        Ok(out)
    }

    /// Removes a visible item.
    pub fn delete(&mut self, thread_id: ThreadId, queued_item_id: &str) -> (r: bool)
        requires
            old(self).wf(),
        ensures
            final(self).wf(),
            match r {
                true => exists|i: int|
                    0 <= i < old(self)@.len() && is_visible(#[trigger] old(self)@[i], thread_id) && old(self)@[i].id
                        == queued_item_id@ && final(self)@ == old(self)@.remove(i),
                false => final(self)@ == old(self)@ && forall|i: int|
                    0 <= i < old(self)@.len() && is_visible(#[trigger] old(self)@[i], thread_id) ==> old(self)@[i].id
                        != queued_item_id@,
            },
    {
        let ghost s = self@;
        let mut i: usize = 0;
        while i < self.items.len()
            invariant
                i <= self.items@.len(),
                s == self@,
                s == old(self)@,
                items_ok(s),
                forall|j: int| 0 <= j < i && is_visible(#[trigger] s[j], thread_id) ==> s[j].id != queued_item_id@,
            decreases self.items@.len() - i,
        {
            let item = &self.items[i];
            assert(s[i as int] == item@);
            let claimed = match item.record.state {
                QueuedItemState::Claimed => true,
                _ => false,
            };
            if item.record.thread_id == thread_id && !claimed && text::str_eq(
                item.record.queued_item_id.as_str(),
                queued_item_id,
            ) {
                let _ = self.items.remove(i);
                assert(self@ =~= s.remove(i as int));
                proof {
                    lemma_remove_ok(s, i as int);
                }
                assert(is_visible(s[i as int], thread_id));
                return true;
            }
            i = i + 1;
        }
        false
    }

    /// Puts the visible items of a thread in the given order, where each of
    /// them is named exactly once. They share out the places that they had.
    pub fn reorder(&mut self, thread_id: ThreadId, ordered_ids: &Vec<String>, now_ms: i64) -> (r: bool)
        requires
            old(self).wf(),
        ensures
            final(self).wf(),
            match r {
                true => exists|at: Seq<int>| #[trigger]
                    is_listing(old(self)@, thread_id, at) && same_ids_at(old(self)@, at, text::views(ordered_ids@))
                        && reordered(
                        old(self)@,
                        final(self)@,
                        thread_id,
                        at,
                        text::views(ordered_ids@),
                        now_ms as int,
                    ) && lists_as(final(self)@, thread_id, text::views(ordered_ids@)),
                false => final(self)@ == old(self)@ && exists|at: Seq<int>| #[trigger]
                    is_listing(old(self)@, thread_id, at) && !same_ids_at(
                        old(self)@,
                        at,
                        text::views(ordered_ids@),
                    ),
            },
    {
        let ghost s = self@;
        let ghost wanted = text::views(ordered_ids@);
        let at = self.listing(thread_id);
        let ghost places = spots(at@);
        let mut ids: Vec<String> = Vec::new();
        let mut orders: Vec<i64> = Vec::new();
        let mut i: usize = 0;
        while i < at.len()
            invariant
                i <= at@.len(),
                s == self@,
                places == spots(at@),
                is_listing(s, thread_id, places),
                ids@.len() == i,
                orders@.len() == i,
                forall|k: int| 0 <= k < i ==> (#[trigger] ids@[k])@ == s[places[k]].id,
                forall|k: int| 0 <= k < i ==> #[trigger] orders@[k] == s[places[k]].order,
            decreases at@.len() - i,
        {
            assert(places[i as int] == at@[i as int]);
            let item = &self.items[at[i]];
            assert(s[places[i as int]] == item@);
            ids.push(item.record.queued_item_id.clone());
            orders.push(item.record.queue_order);
            i = i + 1;
        }
        assert(text::views(ids@) =~= ids_at(s, places));
        if !same_multiset(&ids, ordered_ids) {
            return false;
        }
        let mut j: usize = 0;
        while j < self.items.len()
            invariant
                j <= self.items@.len(),
                self@.len() == s.len(),
                places == spots(at@),
                wanted == text::views(ordered_ids@),
                is_listing(s, thread_id, places),
                same_ids_at(s, places, wanted),
                orders@.len() == places.len(),
                forall|k: int| 0 <= k < orders@.len() ==> #[trigger] orders@[k] == s[places[k]].order,
                forall|m: int| 0 <= m < j ==> moved(#[trigger] s[m], self@[m], thread_id, s, places, wanted, now_ms as int),
                forall|m: int| j <= m < s.len() ==> self@[m] == s[m],
            decreases self.items@.len() - j,
        {
            let ghost now = self@;
            proof {
                assert(self@[j as int] == self.items@[j as int]@);
                assert(self@[j as int] == s[j as int]);
            }
            let claimed = match self.items[j].record.state {
                QueuedItemState::Claimed => true,
                _ => false,
            };
            if !claimed && self.items[j].record.thread_id == thread_id {
                proof {
                    lemma_named(s, thread_id, places, wanted, j as int);
                }
                let mut k: usize = 0;
                while k < ordered_ids.len() && !text::str_eq(
                    ordered_ids[k].as_str(),
                    self.items[j].record.queued_item_id.as_str(),
                )
                    invariant
                        k <= ordered_ids@.len(),
                        j < self.items@.len(),
                        self.items@[j as int]@ == s[j as int],
                        wanted == text::views(ordered_ids@),
                        wanted.contains(s[j as int].id),
                        forall|m: int| 0 <= m < k ==> #[trigger] wanted[m] != s[j as int].id,
                    decreases ordered_ids@.len() - k,
                {
                    assert(wanted[k as int] == ordered_ids@[k as int]@);
                    k = k + 1;
                }
                proof {
                    if k == ordered_ids@.len() {
                        let m = choose|m: int| 0 <= m < wanted.len() && wanted[m] == s[j as int].id;
                        assert(false);
                    }
                    lemma_same_len(s, places, wanted);
                    assert(wanted[k as int] == s[j as int].id);
                }
                let mut item = self.items.remove(j);
                item.record.queue_order = orders[k];
                item.record.updated_at_ms = now_ms;
                let ghost changed = item@;
                self.items.insert(j, item);
                assert(self@ =~= now.update(j as int, changed));
                assert(at_place(changed, s[j as int], s, places, wanted, now_ms as int, k as int));
            }
            j = j + 1;
        }
        proof {
            lemma_reordered(s, self@, thread_id, places, wanted, now_ms as int);
        }
        true
    }

    /// The position of the head of a thread's queue.
    fn head(&self, thread_id: ThreadId) -> (r: Option<usize>)
        ensures
            match r {
                Some(i) => is_head(self@, thread_id, i as int),
                None => forall|i: int| 0 <= i < self@.len() ==> (#[trigger] self@[i]).thread != thread_id,
            },
    {
        let ghost s = self@;
        let mut best: Option<usize> = None;
        let mut i: usize = 0;
        while i < self.items.len()
            invariant
                i <= self.items@.len(),
                s == self@,
                match best {
                    Some(b) => b < i && s[b as int].thread == thread_id && forall|j: int|
                        0 <= j < i && (#[trigger] s[j]).thread == thread_id ==> s[b as int].order <= s[j].order,
                    None => forall|j: int| 0 <= j < i ==> (#[trigger] s[j]).thread != thread_id,
                },
            decreases self.items@.len() - i,
        {
            assert(s[i as int] == self.items@[i as int]@);
            if self.items[i].record.thread_id == thread_id {
                match best {
                    Some(b) => {
                        assert(s[b as int] == self.items@[b as int]@);
                        if self.items[i].record.queue_order < self.items[b].record.queue_order {
                            best = Some(i);
                        }
                    },
                    None => {
                        best = Some(i);
                    },
                }
            }
            i = i + 1;
        }
        best
    }

    /// Claims the head of a thread's queue under a fresh token, where it is
    /// pending. A head that failed or is claimed already blocks what stands
    /// behind it.
    pub fn claim_next(&mut self, thread_id: ThreadId, claim_token: String, now_ms: i64) -> (r: Option<QueuedItemClaim>)
        requires
            old(self).wf(),
        ensures
            final(self).wf(),
            match r {
                Some(claim) => exists|i: int| #[trigger]
                    is_head(old(self)@, thread_id, i) && old(self)@[i].state is Pending && {
                        let item = Item {
                            state: QueuedItemState::Claimed,
                            token: Some(claim_token@),
                            updated: now_ms as int,
                            ..old(self)@[i]
                        };
                        &&& final(self)@ == old(self)@.update(i, item)
                        &&& shows(claim.item, item)
                        &&& claim.claim_token@ == claim_token@
                    },
                None => final(self)@ == old(self)@ && forall|i: int| #[trigger]
                    is_head(old(self)@, thread_id, i) ==> !(old(self)@[i].state is Pending),
            },
    {
        let ghost s = self@;
        let at = match self.head(thread_id) {
            Some(at) => at,
            None => {
                assert forall|i: int| #[trigger] is_head(s, thread_id, i) implies !(s[i].state is Pending) by {
                    assert(s[i].thread == thread_id);
                }
                return None;
            },
        };
        assert(s[at as int] == self.items@[at as int]@);
        match self.items[at].record.state {
            QueuedItemState::Pending => {},
            _ => {
                proof {
                    lemma_one_head(s, thread_id, at as int);
                }
                return None;
            },
        }
        let token = claim_token.clone();
        let mut item = self.items.remove(at);
        item.record.state = QueuedItemState::Claimed;
        item.record.updated_at_ms = now_ms;
        item.claim_token = Some(claim_token);
        let copy = clone_record(&item.record, Ghost(item@));
        let ghost changed = item@;
        self.items.insert(at, item);
        assert(self@ =~= s.update(at as int, changed));
        proof {
            lemma_change_ok(s, at as int, changed);
        }
        Some(QueuedItemClaim { item: copy, claim_token: token })
    }

    /// Whether an item of the thread is claimed.
    pub fn has_claimed_item(&self, thread_id: ThreadId) -> (r: bool)
        ensures
            r == exists|i: int|
                0 <= i < self@.len() && (#[trigger] self@[i]).thread == thread_id && self@[i].state is Claimed,
    {
        let mut i: usize = 0;
        while i < self.items.len()
            invariant
                i <= self.items@.len(),
                forall|j: int|
                    0 <= j < i ==> !((#[trigger] self@[j]).thread == thread_id && self@[j].state is Claimed),
            decreases self.items@.len() - i,
        {
            assert(self@[i as int] == self.items@[i as int]@);
            let claimed = match self.items[i].record.state {
                QueuedItemState::Claimed => true,
                _ => false,
            };
            if claimed && self.items[i].record.thread_id == thread_id {
                return true;
            }
            i = i + 1;
        }
        false
    }

    /// The position of the item that is claimed under the token.
    fn claim_position(&self, queued_item_id: &str, claim_token: &str) -> (r: Option<usize>)
        ensures
            match r {
                Some(i) => i < self@.len() && claimed_with(self@[i as int], queued_item_id@, claim_token@),
                None => forall|i: int|
                    0 <= i < self@.len() ==> !claimed_with(#[trigger] self@[i], queued_item_id@, claim_token@),
            },
    {
        let mut i: usize = 0;
        while i < self.items.len()
            invariant
                i <= self.items@.len(),
                forall|j: int| 0 <= j < i ==> !claimed_with(#[trigger] self@[j], queued_item_id@, claim_token@),
            decreases self.items@.len() - i,
        {
            assert(self@[i as int] == self.items@[i as int]@);
            let item = &self.items[i];
            let claimed = match item.record.state {
                QueuedItemState::Claimed => true,
                _ => false,
            };
            let owns = match &item.claim_token {
                Some(t) => text::str_eq(t.as_str(), claim_token),
                None => false,
            };
            if claimed && owns && text::str_eq(item.record.queued_item_id.as_str(), queued_item_id) {
                return Some(i);
            }
            i = i + 1;
        }
        None
    }

    /// Puts a claimed item back to wait. Only the holder of the claim can.
    pub fn release_claim(&mut self, queued_item_id: &str, claim_token: &str, now_ms: i64) -> (r: bool)
        requires
            old(self).wf(),
        ensures
            final(self).wf(),
            settles(old(self)@, final(self)@, queued_item_id@, claim_token@, r, QueuedItemState::Pending, None, now_ms as int),
    {
        let ghost s = self@;
        let at = match self.claim_position(queued_item_id, claim_token) {
            Some(at) => at,
            None => return false,
        };
        let mut item = self.items.remove(at);
        item.record.state = QueuedItemState::Pending;
        item.record.updated_at_ms = now_ms;
        item.record.failure_jsonb = None;
        item.claim_token = None;
        let ghost changed = item@;
        self.items.insert(at, item);
        assert(self@ =~= s.update(at as int, changed));
        proof {
            lemma_change_ok(s, at as int, changed);
        }
        true
    }

    /// Removes a claimed item that is done. Only the holder of the claim can.
    pub fn complete_claim(&mut self, queued_item_id: &str, claim_token: &str) -> (r: bool)
        requires
            old(self).wf(),
        ensures
            final(self).wf(),
            match r {
                true => exists|i: int|
                    0 <= i < old(self)@.len() && claimed_with(#[trigger] old(self)@[i], queued_item_id@, claim_token@)
                        && final(self)@ == old(self)@.remove(i),
                false => final(self)@ == old(self)@ && forall|i: int|
                    0 <= i < old(self)@.len() ==> !claimed_with(
                        #[trigger] old(self)@[i],
                        queued_item_id@,
                        claim_token@,
                    ),
            },
    {
        let ghost s = self@;
        let at = match self.claim_position(queued_item_id, claim_token) {
            Some(at) => at,
            None => return false,
        };
        let _ = self.items.remove(at);
        assert(self@ =~= s.remove(at as int));
        proof {
            lemma_remove_ok(s, at as int);
        }
        assert(claimed_with(s[at as int], queued_item_id@, claim_token@));
        true
    }

    /// Marks a claimed item failed. Only the holder of the claim can. The
    /// failure is UTF-8 text.
    pub fn fail_claim(&mut self, queued_item_id: &str, claim_token: &str, failure_json: Vec<u8>, now_ms: i64) -> (r: Result<
        bool,
        String,
    >)
        requires
            old(self).wf(),
        ensures
            final(self).wf(),
            match r {
                Ok(done) => vstd::utf8::valid_utf8(failure_json@) && settles(
                    old(self)@,
                    final(self)@,
                    queued_item_id@,
                    claim_token@,
                    done,
                    QueuedItemState::Failed,
                    Some(failure_json@),
                    now_ms as int,
                ),
                Err(e) => !vstd::utf8::valid_utf8(failure_json@) && e@ == text::utf8_fault(failure_json@) && final(self)@
                    == old(self)@,
            },
    {
        match text::from_utf8(clone_bytes(&failure_json)) {
            Ok(_) => {},
            Err(e) => return Err(e),
        }
        let ghost s = self@;
        let at = match self.claim_position(queued_item_id, claim_token) {
            Some(at) => at,
            None => return Ok(false),
        };
        let mut item = self.items.remove(at);
        item.record.state = QueuedItemState::Failed;
        item.record.updated_at_ms = now_ms;
        item.record.failure_jsonb = Some(failure_json);
        item.claim_token = None;
        let ghost changed = item@;
        self.items.insert(at, item);
        assert(self@ =~= s.update(at as int, changed));
        proof {
            lemma_change_ok(s, at as int, changed);
        }
        Ok(true)
    }

    /// Marks the claims of a thread that were last touched at or before
    /// `stale_before_ms` failed, and counts them. The failure is UTF-8 text.
    pub fn recover_claims_as_failed_before(
        &mut self,
        thread_id: ThreadId,
        stale_before_ms: i64,
        failure_json: Vec<u8>,
        now_ms: i64,
    ) -> (r: Result<u64, String>)
        requires
            old(self).wf(),
            old(self)@.len() <= u64::MAX,
        ensures
            final(self).wf(),
            match r {
                Ok(n) => vstd::utf8::valid_utf8(failure_json@) && final(self)@ == recovered(
                    old(self)@,
                    thread_id,
                    stale_before_ms as int,
                    failure_json@,
                    now_ms as int,
                ) && n == stale_count(old(self)@, thread_id, stale_before_ms as int),
                Err(e) => !vstd::utf8::valid_utf8(failure_json@) && e@ == text::utf8_fault(failure_json@) && final(self)@
                    == old(self)@,
            },
    {
        match text::from_utf8(clone_bytes(&failure_json)) {
            Ok(_) => {},
            Err(e) => return Err(e),
        }
        let ghost s = self@;
        let ghost out = recovered(s, thread_id, stale_before_ms as int, failure_json@, now_ms as int);
        let mut count: u64 = 0;
        let mut i: usize = 0;
        assert(s.take(0) =~= Seq::empty());
        while i < self.items.len()
            invariant
                i <= self.items@.len(),
                self@.len() == s.len(),
                s.len() <= u64::MAX,
                out == recovered(s, thread_id, stale_before_ms as int, failure_json@, now_ms as int),
                forall|j: int| 0 <= j < i ==> self@[j] == out[j],
                forall|j: int| i <= j < s.len() ==> self@[j] == s[j],
                count == stale_count(s.take(i as int), thread_id, stale_before_ms as int),
                count <= i,
            decreases self.items@.len() - i,
        {
            let ghost now = self@;
            proof {
                assert(s.take(i + 1).drop_last() =~= s.take(i as int));
                assert(self@[i as int] == self.items@[i as int]@);
                assert(self@[i as int] == s[i as int]);
            }
            let claimed = match self.items[i].record.state {
                QueuedItemState::Claimed => true,
                _ => false,
            };
            if claimed && self.items[i].record.thread_id == thread_id && self.items[i].record.updated_at_ms
                <= stale_before_ms {
                let mut item = self.items.remove(i);
                item.record.state = QueuedItemState::Failed;
                item.record.updated_at_ms = now_ms;
                item.record.failure_jsonb = Some(clone_bytes(&failure_json));
                item.claim_token = None;
                let ghost changed = item@;
                self.items.insert(i, item);
                assert(self@ =~= now.update(i as int, changed));
                count = count + 1;
            }
            i = i + 1;
        }
        assert(s.take(s.len() as int) =~= s);
        assert(self@ =~= out);
        proof {
            lemma_recovered_ok(s, thread_id, stale_before_ms as int, failure_json@, now_ms as int);
        }
        Ok(count)
    }

    /// Removes all items of a thread.
    pub fn delete_thread_queue(&mut self, thread_id: ThreadId) -> (r: bool)
        requires
            old(self).wf(),
        ensures
            final(self).wf(),
            final(self)@ == old(self)@.filter(|i: Item| i.thread != thread_id),
            r == exists|i: int| 0 <= i < old(self)@.len() && (#[trigger] old(self)@[i]).thread == thread_id,
    {
        broadcast use vstd::seq_lib::group_filter_ensures;

        let ghost s = self@;
        let ghost keep = |i: Item| i.thread != thread_id;
        let mut rest: Vec<QueuedItem> = Vec::new();
        let mut removed: bool = false;
        let mut todo: Vec<QueuedItem> = Vec::new();
        std::mem::swap(&mut todo, &mut self.items);
        let ghost all = todo@;
        let ghost mut n: int = 0;
        assert(s.take(0) =~= Seq::empty());
        assert(todo@ =~= all.skip(0));
        assert(views(rest@) =~= s.take(0).filter(keep));
        while todo.len() > 0
            invariant
                0 <= n <= all.len(),
                todo@ == all.skip(n),
                s == views(all),
                keep == (|i: Item| i.thread != thread_id),
                views(rest@) == s.take(n).filter(keep),
                removed == exists|i: int| 0 <= i < n && (#[trigger] s[i]).thread == thread_id,
            decreases todo.len(),
        {
            let item = todo.remove(0);
            let ghost before = rest@;
            proof {
                assert(item == all[n]);
                assert(s[n] == item@);
                assert(todo@ =~= all.skip(n + 1));
                assert(s.take(n + 1) =~= s.take(n).push(s[n]));
                lemma_filter_push(s.take(n), s[n], keep);
            }
            if item.record.thread_id == thread_id {
                removed = true;
            } else {
                rest.push(item);
                assert(views(rest@) =~= views(before).push(item@));
            }
            proof {
                n = n + 1;
            }
        }
        assert(s.take(n) =~= s);
        self.items = rest;
        assert(self@ =~= s.filter(keep));
        proof {
            lemma_filter_ok(s, keep);
        }
        removed
    }
}

/// The identifiers of the items at the positions.
pub open spec fn ids_at(s: Seq<Item>, at: Seq<int>) -> Seq<Seq<char>> {
    at.map_values(|i: int| s[i].id)
}

/// Whether the identifiers are those of the items at the positions, in
/// whatever order.
pub open spec fn same_ids_at(s: Seq<Item>, at: Seq<int>, ids: Seq<Seq<char>>) -> bool {
    ids_at(s, at).to_multiset() == ids.to_multiset()
}

/// Whether the item has the place that its position among the wanted
/// identifiers gives it.
pub open spec fn at_place(
    after: Item,
    before: Item,
    s: Seq<Item>,
    at: Seq<int>,
    wanted: Seq<Seq<char>>,
    now: int,
    k: int,
) -> bool {
    &&& 0 <= k < wanted.len()
    &&& wanted[k] == before.id
    &&& after == (Item { order: s[at[k]].order, updated: now, ..before })
}

/// Whether a visible item has moved to its place and any other has stayed.
pub open spec fn moved(
    before: Item,
    after: Item,
    thread: ThreadId,
    s: Seq<Item>,
    at: Seq<int>,
    wanted: Seq<Seq<char>>,
    now: int,
) -> bool {
    if is_visible(before, thread) {
        exists|k: int| #[trigger] at_place(after, before, s, at, wanted, now, k)
    } else {
        after == before
    }
}

/// Whether every visible item has moved to its place and every other has
/// stayed.
pub open spec fn reordered(
    s: Seq<Item>,
    after: Seq<Item>,
    thread: ThreadId,
    at: Seq<int>,
    wanted: Seq<Seq<char>>,
    now: int,
) -> bool {
    after.len() == s.len() && forall|m: int|
        0 <= m < s.len() ==> moved(#[trigger] s[m], after[m], thread, s, at, wanted, now)
}

/// Whether the visible items of a thread, in the order of its queue, have the
/// given identifiers.
pub open spec fn lists_as(s: Seq<Item>, thread: ThreadId, ids: Seq<Seq<char>>) -> bool {
    exists|at: Seq<int>| #[trigger] is_listing(s, thread, at) && ids_at(s, at) == ids
}

/// Whether the two lists hold the same strings, each as often.
fn same_multiset(a: &Vec<String>, b: &Vec<String>) -> (r: bool)
    ensures
        r == (text::views(a@).to_multiset() == text::views(b@).to_multiset()),
{
    broadcast use vstd::seq_lib::group_to_multiset_ensures;

    let ghost x = text::views(a@);
    let ghost y = text::views(b@);
    let mut rest = text::clone_strings(b);
    let mut i: usize = 0;
    proof {
        assert(x.take(0) =~= Seq::empty());
        assert(text::views(rest@).to_multiset().add(x.take(0).to_multiset()) =~= y.to_multiset());
    }
    while i < a.len()
        invariant
            i <= a.len(),
            x == text::views(a@),
            y == text::views(b@),
            text::views(rest@).to_multiset().add(x.take(i as int).to_multiset()) == y.to_multiset(),
        decreases a.len() - i,
    {
        assert(x.len() == a.len());
        let ghost here = text::views(rest@);
        proof {
            assert(x.take(i + 1) =~= x.take(i as int).push(x[i as int]));
            assert(x[i as int] == a@[i as int]@);
        }
        let mut k: usize = 0;
        while k < rest.len() && !text::str_eq(rest[k].as_str(), a[i].as_str())
            invariant
                k <= rest.len(),
                i < a.len(),
                x[i as int] == a@[i as int]@,
                here == text::views(rest@),
                forall|m: int| 0 <= m < k ==> #[trigger] here[m] != x[i as int],
            decreases rest.len() - k,
        {
            assert(here[k as int] == rest@[k as int]@);
            k = k + 1;
        }
        if k == rest.len() {
            proof {
                broadcast use vstd::seq_lib::group_to_multiset_ensures;

                assert(!here.contains(x[i as int]));
                assert(here.to_multiset().count(x[i as int]) == 0);
                lemma_prefix_count(x, i + 1, x[i as int]);
                assert(x.to_multiset().count(x[i as int]) > y.to_multiset().count(x[i as int]));
            }
            return false;
        }
        let _ = rest.remove(k);
        proof {
            broadcast use vstd::seq_lib::group_to_multiset_ensures;

            assert(text::views(rest@) =~= here.remove(k as int));
            assert(here[k as int] == x[i as int]);
            assert(text::views(rest@).to_multiset().add(x.take(i + 1).to_multiset()) =~= y.to_multiset());
        }
        i = i + 1;
    }
    proof {
        assert(x.take(x.len() as int) =~= x);
        let left = text::views(rest@);
        if left.len() == 0 {
            assert(left.to_multiset().add(x.to_multiset()) =~= x.to_multiset()) by {
                assert(left =~= Seq::empty());
            }
        } else {
            assert(left.contains(left[0]));
            assert(left.to_multiset().count(left[0]) > 0);
            assert(y.to_multiset().count(left[0]) > x.to_multiset().count(left[0]));
        }
    }
    rest.len() == 0
}

proof fn lemma_prefix_count(x: Seq<Seq<char>>, n: int, e: Seq<char>)
    requires
        0 <= n <= x.len(),
    ensures
        x.take(n).to_multiset().count(e) <= x.to_multiset().count(e),
    decreases x.len(),
{
    broadcast use vstd::seq_lib::group_to_multiset_ensures;

    if n < x.len() {
        lemma_prefix_count(x.drop_last(), n, e);
        assert(x.drop_last().take(n) =~= x.take(n));
        assert(x =~= x.drop_last().push(x.last()));
    } else {
        assert(x.take(n) =~= x);
    }
}

proof fn lemma_same_len(s: Seq<Item>, at: Seq<int>, wanted: Seq<Seq<char>>)
    requires
        same_ids_at(s, at, wanted),
    ensures
        wanted.len() == at.len(),
{
    broadcast use vstd::seq_lib::group_to_multiset_ensures;

    assert(ids_at(s, at).to_multiset().len() == wanted.to_multiset().len());
}

proof fn lemma_named(s: Seq<Item>, thread: ThreadId, at: Seq<int>, wanted: Seq<Seq<char>>, j: int)
    requires
        is_listing(s, thread, at),
        same_ids_at(s, at, wanted),
        0 <= j < s.len(),
        is_visible(s[j], thread),
    ensures
        wanted.contains(s[j].id),
{
    broadcast use vstd::seq_lib::group_to_multiset_ensures;

    let k = choose|k: int| 0 <= k < at.len() && at[k] == j;
    assert(ids_at(s, at)[k] == s[j].id);
    assert(ids_at(s, at).contains(s[j].id));
    assert(wanted.to_multiset().contains(s[j].id));
}

proof fn lemma_wanted(s: Seq<Item>, at: Seq<int>, wanted: Seq<Seq<char>>, k: int) -> (m: int)
    requires
        same_ids_at(s, at, wanted),
        0 <= k < wanted.len(),
    ensures
        0 <= m < at.len(),
        s[at[m]].id == wanted[k],
{
    broadcast use vstd::seq_lib::group_to_multiset_ensures;

    assert(wanted.contains(wanted[k]));
    assert(ids_at(s, at).to_multiset().contains(wanted[k]));
    assert(ids_at(s, at).contains(wanted[k]));
    let m = choose|m: int| 0 <= m < at.len() && ids_at(s, at)[m] == wanted[k];
    m
}

proof fn lemma_wanted_distinct(s: Seq<Item>, thread: ThreadId, at: Seq<int>, wanted: Seq<Seq<char>>, k: int, l: int)
    requires
        items_ok(s),
        is_listing(s, thread, at),
        same_ids_at(s, at, wanted),
        0 <= k < l < wanted.len(),
    ensures
        wanted[k] != wanted[l],
{
    broadcast use vstd::seq_lib::group_to_multiset_ensures;

    let ids = ids_at(s, at);
    assert(ids.no_duplicates()) by {
        assert forall|a: int, b: int| 0 <= a < b < ids.len() implies ids[a] != ids[b] by {
            assert(s[at[a]].order < s[at[b]].order);
        }
    }
    ids.lemma_multiset_has_no_duplicates();
    if wanted[k] == wanted[l] {
        lemma_count_two(wanted, k, l);
        assert(ids.to_multiset().contains(wanted[k]));
        assert(false);
    }
}

proof fn lemma_count_two(w: Seq<Seq<char>>, k: int, l: int)
    requires
        0 <= k < l < w.len(),
        w[k] == w[l],
    ensures
        w.to_multiset().count(w[k]) >= 2,
{
    broadcast use vstd::seq_lib::group_to_multiset_ensures;

    let rest = w.remove(l);
    assert(rest[k] == w[k]);
    assert(rest.contains(w[k]));
    assert(rest.to_multiset().count(w[k]) >= 1);
    assert(w =~= rest.insert(l, w[l]));
}

#[verifier::spinoff_prover]
#[verifier::rlimit(30)]
proof fn lemma_reordered_ok(s: Seq<Item>, after: Seq<Item>, thread: ThreadId, at: Seq<int>, wanted: Seq<Seq<char>>, now: int)
    requires
        items_ok(s),
        is_listing(s, thread, at),
        same_ids_at(s, at, wanted),
        reordered(s, after, thread, at, wanted, now),
    ensures
        items_ok(after),
{
    lemma_same_len(s, at, wanted);
    assert forall|i: int| 0 <= i < s.len() implies (#[trigger] after[i]).id == s[i].id && after[i].thread == s[i].thread
        && after[i].state == s[i].state && after[i].token == s[i].token by {
        assert(moved(s[i], after[i], thread, s, at, wanted, now));
    }
    assert forall|i: int, j: int| 0 <= i < j < after.len() && (#[trigger] after[i]).thread == (
    #[trigger] after[j]).thread implies after[i].order != after[j].order by {
        assert(moved(s[i], after[i], thread, s, at, wanted, now));
        assert(moved(s[j], after[j], thread, s, at, wanted, now));
        assert(s[i].id != s[j].id);
        if is_visible(s[i], thread) && is_visible(s[j], thread) {
            let k = choose|k: int| #[trigger] at_place(after[i], s[i], s, at, wanted, now, k);
            let l = choose|l: int| #[trigger] at_place(after[j], s[j], s, at, wanted, now, l);
            assert(k != l);
            if k < l {
                assert(s[at[k]].order < s[at[l]].order);
            } else {
                assert(s[at[l]].order < s[at[k]].order);
            }
        } else if is_visible(s[i], thread) {
            let k = choose|k: int| #[trigger] at_place(after[i], s[i], s, at, wanted, now, k);
            assert(is_visible(s[at[k]], thread));
            assert(at[k] != j);
        } else if is_visible(s[j], thread) {
            let l = choose|l: int| #[trigger] at_place(after[j], s[j], s, at, wanted, now, l);
            assert(is_visible(s[at[l]], thread));
            assert(at[l] != i);
        }
    }
}

#[verifier::spinoff_prover]
#[verifier::rlimit(30)]
proof fn lemma_reordered(s: Seq<Item>, after: Seq<Item>, thread: ThreadId, at: Seq<int>, wanted: Seq<Seq<char>>, now: int)
    requires
        items_ok(s),
        is_listing(s, thread, at),
        same_ids_at(s, at, wanted),
        reordered(s, after, thread, at, wanted, now),
    ensures
        items_ok(after),
        lists_as(after, thread, wanted),
{
    lemma_reordered_ok(s, after, thread, at, wanted, now);
    lemma_same_len(s, at, wanted);
    assert forall|i: int| 0 <= i < s.len() implies (#[trigger] after[i]).id == s[i].id && after[i].thread == s[i].thread
        && after[i].state == s[i].state && after[i].token == s[i].token by {
        assert(moved(s[i], after[i], thread, s, at, wanted, now));
    }
    let spot = |k: int| choose|i: int| 0 <= i < s.len() && is_visible(#[trigger] s[i], thread) && s[i].id == wanted[k];
    let fresh = Seq::new(wanted.len(), spot);
    assert forall|k: int| 0 <= k < fresh.len() implies 0 <= #[trigger] fresh[k] < s.len() && is_visible(
        after[fresh[k]],
        thread,
    ) && after[fresh[k]].id == wanted[k] && after[fresh[k]].order == s[at[k]].order by {
        let m = lemma_wanted(s, at, wanted, k);
        assert(is_visible(s[at[m]], thread));
        let i = fresh[k];
        assert(0 <= i < s.len() && is_visible(s[i], thread) && s[i].id == wanted[k]);
        assert(moved(s[i], after[i], thread, s, at, wanted, now));
        let l = choose|l: int| #[trigger] at_place(after[i], s[i], s, at, wanted, now, l);
        if l < k {
            lemma_wanted_distinct(s, thread, at, wanted, l, k);
        } else if k < l {
            lemma_wanted_distinct(s, thread, at, wanted, k, l);
        }
    }
    assert forall|k: int, l: int| 0 <= k < l < fresh.len() implies after[#[trigger] fresh[k]].order < after[
    #[trigger] fresh[l]].order by {
        assert(s[at[k]].order < s[at[l]].order);
    }
    assert forall|i: int| 0 <= i < after.len() && is_visible(#[trigger] after[i], thread) implies fresh.contains(i) by {
        assert(is_visible(s[i], thread));
        lemma_named(s, thread, at, wanted, i);
        let k = choose|k: int| 0 <= k < wanted.len() && wanted[k] == s[i].id;
        let f = fresh[k];
        assert(after[f].id == wanted[k]);
        if f != i {
            if f < i {
                assert(s[f].id != s[i].id);
            } else {
                assert(s[i].id != s[f].id);
            }
        }
        assert(fresh[k] == i);
    }
    assert(ids_at(after, fresh) =~= wanted);
    assert(is_listing(after, thread, fresh));
}

/// What is stored of the items.
pub open spec fn views(v: Seq<QueuedItem>) -> Seq<Item> {
    v.map_values(|i: QueuedItem| i@)
}

/// Whether the claim on an item was settled: where the token holds it, the item
/// takes the given state and failure and loses its token; and otherwise nothing
/// changes.
pub open spec fn settles(
    before: Seq<Item>,
    after: Seq<Item>,
    id: Seq<char>,
    token: Seq<char>,
    done: bool,
    state: QueuedItemState,
    failure: Option<Seq<u8>>,
    now: int,
) -> bool {
    if done {
        exists|i: int|
            0 <= i < before.len() && claimed_with(#[trigger] before[i], id, token) && after == before.update(
                i,
                Item { state, failure, token: None, updated: now, ..before[i] },
            )
    } else {
        after == before && forall|i: int| 0 <= i < before.len() ==> !claimed_with(#[trigger] before[i], id, token)
    }
}

/// Whether the item is a stale claim.
pub open spec fn is_stale(i: Item, thread: ThreadId, stale_before: int) -> bool {
    i.thread == thread && i.state is Claimed && i.updated <= stale_before
}

/// The items with the stale claims of a thread marked failed.
pub open spec fn recovered(s: Seq<Item>, thread: ThreadId, stale_before: int, failure: Seq<u8>, now: int) -> Seq<Item> {
    s.map_values(
        |i: Item|
            if is_stale(i, thread, stale_before) {
                Item { state: QueuedItemState::Failed, failure: Some(failure), token: None, updated: now, ..i }
            } else {
                i
            },
    )
}

/// The number of stale claims of a thread.
pub open spec fn stale_count(s: Seq<Item>, thread: ThreadId, stale_before: int) -> nat
    decreases s.len(),
{
    if s.len() == 0 {
        0
    } else {
        stale_count(s.drop_last(), thread, stale_before) + if is_stale(s.last(), thread, stale_before) {
            1nat
        } else {
            0nat
        }
    }
}

proof fn lemma_remove_ok(s: Seq<Item>, at: int)
    requires
        items_ok(s),
        0 <= at < s.len(),
    ensures
        items_ok(s.remove(at)),
{
    let t = s.remove(at);
    assert forall|i: int| 0 <= i < t.len() implies #[trigger] t[i] == s[if i < at {
        i
    } else {
        i + 1
    }] by {}
}

proof fn lemma_change_ok(s: Seq<Item>, at: int, item: Item)
    requires
        items_ok(s),
        0 <= at < s.len(),
        item.id == s[at].id,
        item.thread == s[at].thread,
        item.order == s[at].order,
        item.state is Claimed <==> item.token is Some,
    ensures
        items_ok(s.update(at, item)),
{
}

proof fn lemma_recovered_ok(s: Seq<Item>, thread: ThreadId, stale_before: int, failure: Seq<u8>, now: int)
    requires
        items_ok(s),
    ensures
        items_ok(recovered(s, thread, stale_before, failure, now)),
{
}

proof fn lemma_filter_push(s: Seq<Item>, x: Item, keep: spec_fn(Item) -> bool)
    ensures
        s.push(x).filter(keep) == (if keep(x) {
            s.filter(keep).push(x)
        } else {
            s.filter(keep)
        }),
{
    reveal(Seq::filter);
    assert(s.push(x).drop_last() =~= s);
}

proof fn lemma_filter_ok(s: Seq<Item>, keep: spec_fn(Item) -> bool)
    requires
        items_ok(s),
    ensures
        items_ok(s.filter(keep)),
        forall|i: int| 0 <= i < s.filter(keep).len() ==> s.contains(#[trigger] s.filter(keep)[i]),
    decreases s.len(),
{
    reveal(Seq::filter);
    if s.len() > 0 {
        let t = s.drop_last();
        assert forall|i: int| 0 <= i < t.len() implies #[trigger] t[i] == s[i] by {}
        assert(items_ok(t));
        lemma_filter_ok(t, keep);
        lemma_filter_push(t, s.last(), keep);
        assert(t.push(s.last()) =~= s);
        let f = t.filter(keep);
        let g = s.filter(keep);
        assert forall|i: int| 0 <= i < f.len() implies s.contains(#[trigger] f[i]) by {
            assert(t.contains(f[i]));
            let k = choose|k: int| 0 <= k < t.len() && t[k] == f[i];
            assert(s[k] == f[i]);
        }
        assert(s.contains(s.last())) by {
            assert(s[s.len() - 1] == s.last());
        }
        if keep(s.last()) {
            assert forall|i: int, j: int| 0 <= i < j < g.len() implies (#[trigger] g[i]).id != (#[trigger] g[j]).id && (
            g[i].thread == g[j].thread ==> g[i].order != g[j].order) by {
                if j == f.len() {
                    assert(t.contains(f[i]));
                    let k = choose|k: int| 0 <= k < t.len() && t[k] == f[i];
                    assert(s[k] == g[i] && s[s.len() - 1] == g[j]);
                } else {
                    assert(g[i] == f[i] && g[j] == f[j]);
                }
            }
        }
    }
}

proof fn lemma_one_head(s: Seq<Item>, thread: ThreadId, at: int)
    requires
        items_ok(s),
        is_head(s, thread, at),
    ensures
        forall|i: int| #[trigger] is_head(s, thread, i) ==> i == at,
{
    assert forall|i: int| #[trigger] is_head(s, thread, i) implies i == at by {
        assert(s[i].thread == s[at].thread);
        assert(s[i].order <= s[at].order);
        assert(s[at].order <= s[i].order);
    }
}

/// Of two claims in a row only the first can win: while the head of a queue is
/// claimed, or has failed, no item of the queue can be claimed.
pub proof fn law_head_blocks_queue(s: Seq<Item>, thread: ThreadId, at: int, item: Item)
    requires
        items_ok(s),
        is_head(s, thread, at),
        item.id == s[at].id,
        item.thread == s[at].thread,
        item.order == s[at].order,
        item.state is Claimed <==> item.token is Some,
        !(item.state is Pending),
    ensures
        forall|i: int| #[trigger] is_head(s.update(at, item), thread, i) ==> !(s.update(at, item)[i].state is Pending),
{
    let t = s.update(at, item);
    lemma_change_ok(s, at, item);
    assert(is_head(t, thread, at)) by {
        assert forall|j: int| 0 <= j < t.len() && (#[trigger] t[j]).thread == thread implies t[at].order <= t[j].order by {
            assert(s[j].thread == thread);
        }
    }
    lemma_one_head(t, thread, at);
}

/// A token that was given up proves nothing: once an item is claimed under
/// another token, the old one settles no claim on it.
pub proof fn law_stale_token_is_refused(s: Seq<Item>, id: Seq<char>, old_token: Seq<char>, new_token: Seq<char>, at: int)
    requires
        items_ok(s),
        0 <= at < s.len(),
        claimed_with(s[at], id, new_token),
        old_token != new_token,
    ensures
        forall|i: int| 0 <= i < s.len() ==> !claimed_with(#[trigger] s[i], id, old_token),
{
}

/// An item that is put in a queue is claimed after all that stood there
/// before: it becomes the head only when the queue holds nothing else.
pub proof fn law_queue_is_fifo(s: Seq<Item>, item: Item, i: int)
    requires
        items_ok(s.push(item)),
        forall|j: int| 0 <= j < s.len() && (#[trigger] s[j]).thread == item.thread ==> s[j].order < item.order,
        is_head(s, item.thread, i),
    ensures
        is_head(s.push(item), item.thread, i),
{
    let t = s.push(item);
    assert(s[i].thread == item.thread);
    assert forall|j: int| 0 <= j < t.len() && (#[trigger] t[j]).thread == item.thread implies t[i].order <= t[j].order by {
        if j < s.len() {
            assert(s[j] == t[j]);
        }
    }
}

/// A state is read from its own name and from nothing else.
pub proof fn law_state_names(value: Seq<char>)
    ensures
        QueuedItemState::named(value) == Some(QueuedItemState::Pending) <==> value == "pending"@,
        QueuedItemState::named(value) == Some(QueuedItemState::Claimed) <==> value == "claimed"@,
        QueuedItemState::named(value) == Some(QueuedItemState::Failed) <==> value == "failed"@,
        forall|state: QueuedItemState| #[trigger] QueuedItemState::named(state.name()) == Some(state),
{
    reveal_strlit("pending");
    reveal_strlit("claimed");
    reveal_strlit("failed");
    assert("pending"@[0] != "claimed"@[0]);
    assert("failed"@.len() == 6 && "pending"@.len() == 7 && "claimed"@.len() == 7);
    assert forall|state: QueuedItemState| #[trigger] QueuedItemState::named(state.name()) == Some(state) by {
        match state {
            QueuedItemState::Pending => {},
            QueuedItemState::Claimed => {},
            QueuedItemState::Failed => {},
        }
    }
}

/// A row is read exactly where its thread can be, its state is a name, and its
/// times lie in the calendar; of several faults the first in that order is told.
pub proof fn law_queue_row_is_read_where_nothing_is_wrong(row: QueuedItemRow)
    ensures
        row_fault(row) is None <==> ids::uuid_outcome(row.thread_id@) is Ok && (row.state@ == "pending"@ || row.state@
            == "claimed"@ || row.state@ == "failed"@) && schedule::in_calendar(row.created_at_ms as int / 1000)
            && schedule::in_calendar(row.updated_at_ms as int / 1000),
        ids::uuid_outcome(row.thread_id@) matches Err(e) ==> row_fault(row) == Some(e),
        ids::uuid_outcome(row.thread_id@) is Ok && row.state@ != "pending"@ && row.state@ != "claimed"@ && row.state@
            != "failed"@ ==> row_fault(row) == Some("unknown queued item state `"@ + row.state@ + "`"@),
        ids::uuid_outcome(row.thread_id@) is Ok && row.state@ == "pending"@ && !schedule::in_calendar(
            row.created_at_ms as int / 1000,
        ) ==> row_fault(row) == Some("invalid unix timestamp millis: "@ + text::signed_decimal(row.created_at_ms as int)),
{
    law_state_names(row.state@);
}

/// What is seen of a thread's queue is what waits or has failed there, and
/// nothing that is being worked on or belongs to another thread.
pub proof fn law_claimed_items_are_not_seen(i: Item, thread: ThreadId)
    ensures
        is_visible(i, thread) <==> i.thread == thread && (i.state is Pending || i.state is Failed),
{
}

/// A page holds so many items as are asked for, or as are left, from the offset
/// on, one behind the other; pages of one size that follow each other leave out
/// nothing.
pub proof fn law_pages_follow_each_other(
    first: Seq<QueuedItemRecord>,
    second: Seq<QueuedItemRecord>,
    whole: Seq<QueuedItemRecord>,
    s: Seq<Item>,
    at: Seq<int>,
    offset: int,
    limit: int,
    k: int,
)
    requires
        0 <= offset,
        0 <= limit,
        is_page(first, s, at, offset, limit),
        is_page(second, s, at, offset + limit, limit),
        is_page(whole, s, at, offset, 2 * limit),
    ensures
        first.len() + second.len() == whole.len(),
        first.len() <= limit,
        first.len() < limit ==> second.len() == 0,
        offset + limit <= at.len() ==> first.len() == limit,
        0 <= k < first.len() ==> first[k].queued_item_id@ == s[at[offset + k]].id && whole[k].queued_item_id@
            == s[at[offset + k]].id,
        0 <= k < second.len() ==> second[k].queued_item_id@ == s[at[offset + limit + k]].id,
{
    if 0 <= k < first.len() {
        assert(shows(first[k], s[at[offset + k]]));
        assert(shows(whole[k], s[at[offset + k]]));
    }
    if 0 <= k < second.len() {
        assert(shows(second[k], s[at[offset + limit + k]]));
    }
}

/// The list of a thread's queue goes from the smallest place to the largest.
pub proof fn law_queue_is_listed_by_place(s: Seq<Item>, thread: ThreadId, at: Seq<int>, i: int, j: int)
    requires
        is_listing(s, thread, at),
        0 <= i < s.len(),
        0 <= j < s.len(),
        is_visible(s[i], thread),
        is_visible(s[j], thread),
        s[i].order < s[j].order,
    ensures
        exists|k: int, l: int| 0 <= k < l < at.len() && #[trigger] at[k] == i && #[trigger] at[l] == j,
{
    let k = choose|k: int| 0 <= k < at.len() && at[k] == i;
    let l = choose|l: int| 0 <= l < at.len() && at[l] == j;
    if l < k {
        assert(s[at[l]].order < s[at[k]].order);
    }
    assert(k < l);
}

/// Settling a claim changes the state, the failure and the time of the item that
/// was claimed with the token, frees it, and leaves everything else as it was.
/// Where no item is claimed with the token, nothing changes.
pub proof fn law_settling_frees_the_claimed_item(
    before: Seq<Item>,
    after: Seq<Item>,
    id: Seq<char>,
    token: Seq<char>,
    done: bool,
    state: QueuedItemState,
    failure: Option<Seq<u8>>,
    now: int,
    i: int,
)
    requires
        items_ok(before),
        settles(before, after, id, token, done, state, failure, now),
        0 <= i < before.len(),
    ensures
        after.len() == before.len(),
        done <==> exists|k: int|
            0 <= k < before.len() && (#[trigger] before[k]).id == id && before[k].state is Claimed && before[k].token
                == Some(token),
        !done || before[i].id != id ==> after[i] == before[i],
        done && before[i].id == id ==> {
            &&& after[i].state == state && after[i].failure == failure && after[i].updated == now
            &&& after[i].token is None
            &&& after[i].id == id && after[i].thread == before[i].thread && after[i].payload == before[i].payload
            &&& after[i].order == before[i].order && after[i].created == before[i].created
        },
{
    if done {
        let k = choose|k: int|
            0 <= k < before.len() && claimed_with(#[trigger] before[k], id, token) && after == before.update(
                k,
                Item { state, failure, token: None, updated: now, ..before[k] },
            );
        assert(before[k].id == id);
        if before[i].id == id {
            if i < k {
                assert(before[i].id != before[k].id);
            } else if k < i {
                assert(before[k].id != before[i].id);
            }
        }
    } else {
        assert forall|k: int|
            0 <= k < before.len() && (#[trigger] before[k]).id == id && before[k].state is Claimed && before[k].token
                == Some(token) implies false by {
            assert(claimed_with(before[k], id, token));
        }
    }
}

/// Recovering fails exactly what was claimed in the thread and has not been
/// touched since the given time, keeps what was asked for and its place, and
/// leaves everything else as it was.
pub proof fn law_recovering_fails_what_was_left_behind(
    s: Seq<Item>,
    thread: ThreadId,
    stale_before: int,
    failure: Seq<u8>,
    now: int,
    i: int,
)
    requires
        0 <= i < s.len(),
    ensures
        recovered(s, thread, stale_before, failure, now).len() == s.len(),
        s[i].thread == thread && s[i].state is Claimed && s[i].updated <= stale_before ==> {
            let item = recovered(s, thread, stale_before, failure, now)[i];
            &&& item.state is Failed && item.failure == Some(failure) && item.token is None && item.updated == now
            &&& item.id == s[i].id && item.thread == thread && item.payload == s[i].payload
            &&& item.order == s[i].order && item.created == s[i].created
        },
        s[i].thread != thread || !(s[i].state is Claimed) || s[i].updated > stale_before ==> recovered(
            s,
            thread,
            stale_before,
            failure,
            now,
        )[i] == s[i],
{
}

/// What is counted is what is recovered.
pub proof fn law_recovered_items_are_counted(s: Seq<Item>, thread: ThreadId, stale_before: int)
    ensures
        stale_count(s, thread, stale_before) == s.filter(
            |i: Item| i.thread == thread && i.state is Claimed && i.updated <= stale_before,
        ).len(),
    decreases s.len(),
{
    reveal(Seq::filter);
    if s.len() > 0 {
        law_recovered_items_are_counted(s.drop_last(), thread, stale_before);
    }
}

/// The head of a thread's queue is its item with the smallest place, and what
/// other threads have queued does not matter.
pub proof fn law_head_has_the_smallest_place(s: Seq<Item>, thread: ThreadId, i: int, j: int)
    requires
        items_ok(s),
        is_head(s, thread, i),
        0 <= j < s.len(),
        j != i,
        s[j].thread == thread,
    ensures
        s[i].thread == thread,
        s[i].order < s[j].order,
        !is_head(s, thread, j),
{
    if i < j {
        assert(s[i].order != s[j].order);
    } else {
        assert(s[j].order != s[i].order);
    }
}

/// Reordering gives an item another place and notes the time, and changes nothing
/// else of it; what is not seen, and what belongs to other threads, stays as it
/// is. The places that are given are those that were there.
pub proof fn law_reordering_changes_places_alone(
    s: Seq<Item>,
    after: Seq<Item>,
    thread: ThreadId,
    at: Seq<int>,
    wanted: Seq<Seq<char>>,
    now: int,
    i: int,
)
    requires
        is_listing(s, thread, at),
        same_ids_at(s, at, wanted),
        reordered(s, after, thread, at, wanted, now),
        0 <= i < s.len(),
    ensures
        after.len() == s.len(),
        after[i].id == s[i].id && after[i].thread == s[i].thread && after[i].payload == s[i].payload,
        after[i].state == s[i].state && after[i].failure == s[i].failure && after[i].token == s[i].token,
        after[i].created == s[i].created,
        s[i].thread != thread || s[i].state is Claimed ==> after[i] == s[i],
        s[i].thread == thread && !(s[i].state is Claimed) ==> after[i].updated == now && exists|k: int|
            0 <= k < wanted.len() && #[trigger] wanted[k] == s[i].id && after[i].order == s[at[k]].order,
{
    assert(moved(s[i], after[i], thread, s, at, wanted, now));
    if is_visible(s[i], thread) {
        let k = choose|k: int| #[trigger] at_place(after[i], s[i], s, at, wanted, now, k);
        assert(wanted[k] == s[i].id);
    }
}

} // verus!
