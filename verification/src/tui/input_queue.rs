//! The messages that wait for a turn.

use vstd::prelude::*;

use crate::text;

verus! {

/// Where a queued item comes from.
pub enum QueuedItemProvenance {
    User,
    ExternalEvent { source: String },
}

/// How a queued item stands.
pub enum QueuedItemStatus {
    Pending,
    Claimed,
    Failed { error: String },
}

/// An item that the server queues: its message and the number of its images.
pub struct QueuedItem {
    pub id: String,
    pub message: String,
    pub image_count: usize,
    pub provenance: QueuedItemProvenance,
    pub status: QueuedItemStatus,
}

/// A page of the server's queue.
pub struct ThreadQueueListResponse {
    pub data: Vec<QueuedItem>,
    pub next_cursor: Option<String>,
}

/// The server's queue as it was last seen.
pub struct UserMessageQueueState {
    pub items: Vec<QueuedItem>,
    pub has_more: bool,
    pub refresh_in_flight: bool,
}

/// A message of the user.
pub struct UserMessage {
    pub text: String,
}

/// What is remembered of a message: its text, or another one.
pub enum UserMessageHistoryRecord {
    UserMessageText,
    Override { text: String },
}

/// A message that is to steer a turn.
pub struct PendingSteer {
    pub user_message: UserMessage,
    pub history_record: UserMessageHistoryRecord,
}

/// The messages that wait, as they are shown.
#[derive(Debug, PartialEq)]
pub struct PendingInputPreview {
    pub queued_messages: Vec<String>,
    pub pending_steers: Vec<String>,
    pub rejected_steers: Vec<String>,
    pub has_editable_queued_message: bool,
}

/// The messages that wait.
pub struct InputQueueState {
    pub user_message_queue: UserMessageQueueState,
    pub queued_user_messages: Vec<UserMessage>,
    pub queued_user_message_history_records: Vec<UserMessageHistoryRecord>,
    pub user_turn_pending_start: bool,
    pub rejected_steers_queue: Vec<UserMessage>,
    pub rejected_steer_history_records: Vec<UserMessageHistoryRecord>,
    pub pending_steers: Vec<PendingSteer>,
    pub submit_pending_steers_after_interrupt: bool,
    pub suppress_queue_autosend: bool,
}

// ---------------------------------------------------------------------
// Previews
// ---------------------------------------------------------------------

/// A message as it is shown: what is remembered of it, or else its text.
pub open spec fn message_preview(message: UserMessage, record: Option<UserMessageHistoryRecord>) -> Seq<char> {
    match record {
        Some(UserMessageHistoryRecord::Override { text }) => if text@.len() > 0 {
            text@
        } else {
            message.text@
        },
        _ => message.text@,
    }
}

/// The record that belongs to the message at the place.
pub open spec fn record_at(records: Seq<UserMessageHistoryRecord>, i: int) -> Option<UserMessageHistoryRecord> {
    if i < records.len() {
        Some(records[i])
    } else {
        None
    }
}

/// The messages as they are shown. A message without a record is shown by its
/// text.
pub open spec fn message_previews(
    messages: Seq<UserMessage>,
    records: Seq<UserMessageHistoryRecord>,
) -> Seq<Seq<char>> {
    Seq::new(messages.len(), |i: int| message_preview(messages[i], record_at(records, i)))
}

/// The steers as they are shown.
pub open spec fn steer_previews(steers: Seq<PendingSteer>) -> Seq<Seq<char>> {
    steers.map_values(|s: PendingSteer| message_preview(s.user_message, Some(s.history_record)))
}

/// What stands for the images of an item.
pub open spec fn image_parts(count: nat) -> Seq<Seq<char>> {
    Seq::new(count, |i: int| "[image]"@)
}

/// What an item holds, line by line.
pub open spec fn item_parts(item: QueuedItem) -> Seq<Seq<char>> {
    let parts = (if item.message@.len() > 0 {
        seq![item.message@]
    } else {
        Seq::empty()
    }) + image_parts(item.image_count as nat);
    if parts.len() == 0 {
        seq!["[queued input]"@]
    } else {
        parts
    }
}

/// A queued item as it is shown: why it failed, if it did, where it comes from,
/// if not from the user, and what it holds.
pub open spec fn item_preview(item: QueuedItem) -> Seq<char> {
    let held = text::joined(item_parts(item), "\n"@);
    let sourced = match item.provenance {
        QueuedItemProvenance::ExternalEvent { source } => "["@ + source@ + "] "@ + held,
        QueuedItemProvenance::User => held,
    };
    match item.status {
        QueuedItemStatus::Failed { error } => "[failed: "@ + error@ + "] "@ + sourced,
        _ => sourced,
    }
}

/// The queued items as they are shown.
pub open spec fn item_previews(items: Seq<QueuedItem>) -> Seq<Seq<char>> {
    items.map_values(|i: QueuedItem| item_preview(i))
}

fn user_message_preview_text(message: &UserMessage, record: Option<&UserMessageHistoryRecord>) -> (r: String)
    ensures
        r@ == message_preview(
            *message,
            match record {
                Some(record) => Some(*record),
                None => None,
            },
        ),
{
    match record {
        Some(UserMessageHistoryRecord::Override { text: shown }) => if text::char_vec(shown.as_str()).len() > 0 {
            shown.clone()
        } else {
            message.text.clone()
        },
        _ => message.text.clone(),
    }
}

/// A queued item as it is shown.
pub fn server_queued_item_preview(item: &QueuedItem) -> (r: String)
    ensures
        r@ == item_preview(*item),
{
    let mut parts: Vec<String> = Vec::new();
    if text::char_vec(item.message.as_str()).len() > 0 {
        parts.push(item.message.clone());
    }
    let ghost start = text::views(parts@);
    assert(start =~= (if item.message@.len() > 0 {
        seq![item.message@]
    } else {
        Seq::empty()
    }));
    let mut i: usize = 0;
    assert(text::views(parts@) =~= start + image_parts(0));
    while i < item.image_count
        invariant
            i <= item.image_count,
            text::views(parts@) == start + image_parts(i as nat),
        decreases item.image_count - i,
    {
        let ghost held = text::views(parts@);
        parts.push("[image]".to_string());
        assert(text::views(parts@) =~= held.push("[image]"@));
        assert(text::views(parts@) =~= start + image_parts((i + 1) as nat));
        i = i + 1;
    }
    assert(text::views(parts@).len() == parts@.len());
    if parts.len() == 0 {
        parts.push("[queued input]".to_string());
        assert(text::views(parts@) =~= seq!["[queued input]"@]);
    }
    let held = text::join(&parts, "\n");
    let sourced = match &item.provenance {
        QueuedItemProvenance::ExternalEvent { source } => {
            let mut preview = "[".to_string();
            preview.push_str(source.as_str());
            preview.push_str("] ");
            preview.push_str(held.as_str());
            preview
        },
        QueuedItemProvenance::User => held,
    };
    match &item.status {
        QueuedItemStatus::Failed { error } => {
            let mut preview = "[failed: ".to_string();
            preview.push_str(error.as_str());
            preview.push_str("] ");
            preview.push_str(sourced.as_str());
            preview
        },
        _ => sourced,
    }
}

fn preview_messages(messages: &Vec<UserMessage>, records: &Vec<UserMessageHistoryRecord>) -> (r: Vec<String>)
    ensures
        text::views(r@) == message_previews(messages@, records@),
{
    let mut out: Vec<String> = Vec::new();
    let mut i: usize = 0;
    while i < messages.len()
        invariant
            i <= messages@.len(),
            out@.len() == i,
            forall|k: int|
                0 <= k < i ==> (#[trigger] out@[k])@ == message_preview(messages@[k], record_at(records@, k)),
        decreases messages@.len() - i,
    {
        let record = if i < records.len() {
            Some(&records[i])
        } else {
            None
        };
        out.push(user_message_preview_text(&messages[i], record));
        i = i + 1;
    }
    assert(text::views(out@) =~= message_previews(messages@, records@));
    out
}

impl UserMessageQueueState {
    /// Takes over a page of the server's queue.
    pub fn set_snapshot(&mut self, response: ThreadQueueListResponse)
        ensures
            final(self).items@ == response.data@,
            final(self).has_more == (response.next_cursor is Some),
            !final(self).refresh_in_flight,
    {
        self.has_more = response.next_cursor.is_some();
        self.items = response.data;
        self.refresh_in_flight = false;
    }

    /// Forgets the server's queue.
    pub fn clear(&mut self)
        ensures
            final(self).items@.len() == 0,
            !final(self).has_more,
            !final(self).refresh_in_flight,
    {
        self.items = Vec::new();
        self.has_more = false;
        self.refresh_in_flight = false;
    }
}

impl InputQueueState {
    /// Nothing waits.
    pub fn new() -> (r: Self)
        ensures
            r.is_empty(),
            !r.suppress_queue_autosend,
    {
        InputQueueState {
            user_message_queue: UserMessageQueueState { items: Vec::new(), has_more: false, refresh_in_flight: false },
            queued_user_messages: Vec::new(),
            queued_user_message_history_records: Vec::new(),
            user_turn_pending_start: false,
            rejected_steers_queue: Vec::new(),
            rejected_steer_history_records: Vec::new(),
            pending_steers: Vec::new(),
            submit_pending_steers_after_interrupt: false,
            suppress_queue_autosend: false,
        }
    }

    /// Whether nothing waits.
    pub open spec fn is_empty(self) -> bool {
        &&& self.user_message_queue.items@.len() == 0
        &&& !self.user_message_queue.has_more
        &&& !self.user_message_queue.refresh_in_flight
        &&& self.queued_user_messages@.len() == 0
        &&& self.queued_user_message_history_records@.len() == 0
        &&& !self.user_turn_pending_start
        &&& self.rejected_steers_queue@.len() == 0
        &&& self.rejected_steer_history_records@.len() == 0
        &&& self.pending_steers@.len() == 0
        &&& !self.submit_pending_steers_after_interrupt
    }

    /// Whether messages wait here.
    pub open spec fn local_follow_ups(self) -> bool {
        self.rejected_steers_queue@.len() > 0 || self.queued_user_messages@.len() > 0
    }

    /// Whether messages wait at the server, as far as is known: there are more
    /// than were seen, or one that was seen is pending.
    pub open spec fn server_follow_ups(self) -> bool {
        self.user_message_queue.has_more || exists|i: int|
            0 <= i < self.user_message_queue.items@.len() && (#[trigger] self.user_message_queue.items@[i]).status
                is Pending
    }

    /// Whether messages wait here.
    pub fn has_local_follow_up_messages(&self) -> (r: bool)
        ensures
            r == self.local_follow_ups(),
    {
        self.rejected_steers_queue.len() > 0 || self.queued_user_messages.len() > 0
    }

    /// Whether messages wait here or at the server.
    pub fn has_queued_follow_up_messages(&self) -> (r: bool)
        ensures
            r == (self.server_follow_ups() || self.local_follow_ups()),
    {
        self.has_server_follow_up_messages() || self.has_local_follow_up_messages()
    }

    /// Whether messages that wait here may not be sent: others wait at the
    /// server, or may, as its queue is being read.
    pub fn blocks_local_queue_autosend(&self) -> (r: bool)
        ensures
            r == (self.user_message_queue.refresh_in_flight || self.server_follow_ups()),
    {
        self.user_message_queue.refresh_in_flight || self.has_server_follow_up_messages()
    }

    /// Whether messages wait at the server, as far as is known.
    pub fn has_server_follow_up_messages(&self) -> (r: bool)
        ensures
            r == self.server_follow_ups(),
    {
        if self.user_message_queue.has_more {
            return true;
        }
        let mut i: usize = 0;
        while i < self.user_message_queue.items.len()
            invariant
                i <= self.user_message_queue.items@.len(),
                forall|k: int| 0 <= k < i ==> !((#[trigger] self.user_message_queue.items@[k]).status is Pending),
            decreases self.user_message_queue.items@.len() - i,
        {
            match self.user_message_queue.items[i].status {
                QueuedItemStatus::Pending => {
                    assert(self.user_message_queue.items@[i as int].status is Pending);
                    return true;
                },
                _ => {},
            }
            i = i + 1;
        }
        false
    }

    /// Forgets all that waits.
    pub fn clear(&mut self)
        ensures
            final(self).is_empty(),
            final(self).suppress_queue_autosend == old(self).suppress_queue_autosend,
    {
        self.user_message_queue.clear();
        self.queued_user_messages = Vec::new();
        self.queued_user_message_history_records = Vec::new();
        self.user_turn_pending_start = false;
        self.rejected_steers_queue = Vec::new();
        self.rejected_steer_history_records = Vec::new();
        self.pending_steers = Vec::new();
        self.submit_pending_steers_after_interrupt = false;
    }

    /// The messages that wait, as they are shown: those at the server before
    /// those here.
    pub fn preview(&self) -> (r: PendingInputPreview)
        ensures
            text::views(r.queued_messages@) == item_previews(self.user_message_queue.items@) + message_previews(
                self.queued_user_messages@,
                self.queued_user_message_history_records@,
            ),
            text::views(r.pending_steers@) == steer_previews(self.pending_steers@),
            text::views(r.rejected_steers@) == message_previews(
                self.rejected_steers_queue@,
                self.rejected_steer_history_records@,
            ),
            r.has_editable_queued_message == (self.queued_user_messages@.len() > 0),
    {
        let mut queued_messages: Vec<String> = Vec::new();
        let mut i: usize = 0;
        let ghost items = item_previews(self.user_message_queue.items@);
        assert(text::views(queued_messages@) =~= items.take(0));
        while i < self.user_message_queue.items.len()
            invariant
                i <= self.user_message_queue.items@.len(),
                items == item_previews(self.user_message_queue.items@),
                text::views(queued_messages@) == items.take(i as int),
            decreases self.user_message_queue.items@.len() - i,
        {
            let ghost held = text::views(queued_messages@);
            let shown = server_queued_item_preview(&self.user_message_queue.items[i]);
            let ghost said = shown@;
            queued_messages.push(shown);
            assert(text::views(queued_messages@) =~= held.push(said));
            assert(text::views(queued_messages@) =~= items.take(i + 1));
            i = i + 1;
        }
        assert(items.take(items.len() as int) =~= items);
        let mut local = preview_messages(
            &self.queued_user_messages,
            &self.queued_user_message_history_records,
        );
        let ghost mine = local@;
        let ghost theirs = queued_messages@;
        queued_messages.append(&mut local);
        proof {
            assert(queued_messages@ =~= theirs + mine);
            assert(text::views(queued_messages@) =~= text::views(theirs) + text::views(mine));
        }
        let mut pending_steers: Vec<String> = Vec::new();
        let mut k: usize = 0;
        while k < self.pending_steers.len()
            invariant
                k <= self.pending_steers@.len(),
                pending_steers@.len() == k,
                forall|n: int|
                    0 <= n < k ==> (#[trigger] pending_steers@[n])@ == message_preview(
                        self.pending_steers@[n].user_message,
                        Some(self.pending_steers@[n].history_record),
                    ),
            decreases self.pending_steers@.len() - k,
        {
            let steer = &self.pending_steers[k];
            pending_steers.push(user_message_preview_text(&steer.user_message, Some(&steer.history_record)));
            k = k + 1;
        }
        assert(text::views(pending_steers@) =~= steer_previews(self.pending_steers@));
        let rejected_steers = preview_messages(&self.rejected_steers_queue, &self.rejected_steer_history_records);
        PendingInputPreview {
            queued_messages,
            pending_steers,
            rejected_steers,
            has_editable_queued_message: self.queued_user_messages.len() > 0,
        }
    }
}

/// Where nothing waits, nothing blocks and nothing follows.
pub proof fn law_empty_queue_blocks_nothing(state: InputQueueState)
    requires
        state.is_empty(),
    ensures
        !state.server_follow_ups(),
        !state.local_follow_ups(),
{
}

/// What is shown of a queued item is its message, a line for each of its images,
/// or that it is queued input where it has neither; in front of that where it
/// came from, and in front of all why it failed.
pub proof fn law_preview_of_a_queued_item(item: QueuedItem, source: String, error: String)
    requires
        item.provenance is User,
        item.status is Pending,
    ensures
        item.message@.len() > 0 && item.image_count == 0 ==> item_preview(item) == item.message@,
        item.message@.len() == 0 && item.image_count == 0 ==> item_preview(item) == "[queued input]"@,
        item.message@.len() > 0 && item.image_count == 1 ==> item_preview(item) == item.message@ + "\n"@ + "[image]"@,
        item.message@.len() == 0 && item.image_count == 1 ==> item_preview(item) == "[image]"@,
        item_preview(QueuedItem { status: QueuedItemStatus::Claimed, ..item }) == item_preview(item),
        item_preview(QueuedItem { status: QueuedItemStatus::Failed { error }, ..item }) == "[failed: "@ + error@ + "] "@
            + item_preview(item),
        item_preview(QueuedItem { provenance: QueuedItemProvenance::ExternalEvent { source }, ..item }) == "["@
            + source@ + "] "@ + item_preview(item),
        item_preview(
            QueuedItem {
                provenance: QueuedItemProvenance::ExternalEvent { source },
                status: QueuedItemStatus::Failed { error },
                ..item
            },
        ) == "[failed: "@ + error@ + "] "@ + ("["@ + source@ + "] "@ + item_preview(item)),
{
    reveal_with_fuel(text::joined, 3);
    let parts = item_parts(item);
    if item.message@.len() > 0 && item.image_count == 0 {
        assert(parts =~= seq![item.message@]);
    }
    if item.message@.len() > 0 && item.image_count == 1 {
        assert(parts =~= seq![item.message@, "[image]"@]);
        assert(parts.drop_last() =~= seq![item.message@]);
    }
    if item.message@.len() == 0 && item.image_count == 1 {
        assert(parts =~= seq!["[image]"@]);
    }
}

/// Every image has a part of its own, behind the message.
pub proof fn law_parts_of_a_queued_item(item: QueuedItem, i: int)
    ensures
        item.message@.len() > 0 ==> item_parts(item).len() == 1 + item.image_count && item_parts(item)[0]
            == item.message@,
        item.message@.len() == 0 && item.image_count > 0 ==> item_parts(item).len() == item.image_count,
        item.image_count > 0 && item_parts(item).len() - item.image_count <= i < item_parts(item).len() ==> item_parts(
            item,
        )[i] == "[image]"@,
{
}

/// A message is shown as the history tells it where that says something else than
/// the message, and by its own text otherwise; each goes with the record at its
/// own place.
pub proof fn law_preview_of_a_message(
    messages: Seq<UserMessage>,
    records: Seq<UserMessageHistoryRecord>,
    i: int,
)
    requires
        0 <= i < messages.len(),
    ensures
        message_previews(messages, records).len() == messages.len(),
        message_previews(messages, records)[i] == (if i < records.len() && records[i] is Override
            && records[i]->text@.len() > 0 {
            records[i]->text@
        } else {
            messages[i].text@
        }),
{
}

/// The server has more to follow where it says so, or where an item still waits;
/// items that are being worked on or have failed do not count.
pub proof fn law_waiting_items_follow_up(state: InputQueueState)
    ensures
        state.user_message_queue.has_more ==> state.server_follow_ups(),
        !state.user_message_queue.has_more && (forall|i: int|
            0 <= i < state.user_message_queue.items@.len() ==> ((#[trigger] state.user_message_queue.items@[i]).status
                is Claimed || state.user_message_queue.items@[i].status is Failed)) ==> !state.server_follow_ups(),
        (exists|i: int|
            0 <= i < state.user_message_queue.items@.len() && (#[trigger] state.user_message_queue.items@[i]).status
                is Pending) ==> state.server_follow_ups(),
        state.local_follow_ups() <==> state.rejected_steers_queue@.len() + state.queued_user_messages@.len() > 0,
{
}

/// What waits is shown item by item, in order.
pub proof fn law_items_are_shown_in_order(items: Seq<QueuedItem>, steers: Seq<PendingSteer>, i: int)
    ensures
        item_previews(items).len() == items.len(),
        0 <= i < items.len() ==> item_previews(items)[i] == item_preview(items[i]),
        steer_previews(steers).len() == steers.len(),
        0 <= i < steers.len() ==> steer_previews(steers)[i] == (if steers[i].history_record is Override
            && steers[i].history_record->text@.len() > 0 {
            steers[i].history_record->text@
        } else {
            steers[i].user_message.text@
        }),
{
}

} // verus!
