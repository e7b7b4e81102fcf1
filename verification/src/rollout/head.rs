//! What a listing takes from the first records of a rollout file.

use vstd::prelude::*;

use crate::ids::ThreadId;
use crate::text;

verus! {

/// How many records a listing reads at the head of a file.
pub const HEAD_RECORD_LIMIT: usize = 10;

/// How many more records it reads to find the first user message.
pub const USER_EVENT_SCAN_LIMIT: usize = 200;

/// The mark behind which the user's own words stand in a message.
pub const USER_MESSAGE_BEGIN: &'static str = "## My request for Codex:";

/// The session metadata at the head of a rollout file.
#[derive(Debug, PartialEq)]
pub struct SessionMeta {
    pub id: ThreadId,
    pub timestamp: String,
    pub cwd: String,
    pub source: String,
    pub parent_thread_id: Option<ThreadId>,
    pub agent_nickname: Option<String>,
    pub agent_role: Option<String>,
    pub model_provider: Option<String>,
    pub cli_version: String,
    pub git: Option<GitMeta>,
}

/// The state of the repository that a session was started in.
#[derive(Debug, PartialEq)]
pub struct GitMeta {
    pub branch: Option<String>,
    pub commit_hash: Option<String>,
    pub repository_url: Option<String>,
}

/// A message that the user sent.
#[derive(Debug, PartialEq)]
pub struct UserMessage {
    pub message: String,
    pub image_count: usize,
    pub local_image_count: usize,
}

/// An event that a rollout file records.
#[derive(Debug, PartialEq)]
pub enum RolloutEvent {
    UserMessage(UserMessage),
    ThreadGoalUpdated { objective: String },
    Other,
}

/// One record of a rollout file.
#[derive(Debug, PartialEq)]
pub enum RolloutRecord {
    SessionMeta(SessionMeta),
    ResponseItem,
    InterAgentCommunication,
    TurnContext,
    Compacted,
    Event(RolloutEvent),
}

/// What a line of a rollout file holds.
#[derive(Debug, PartialEq)]
pub enum HeadLine {
    /// Nothing but white space.
    Blank,
    /// Something that is no record.
    Unreadable,
    Record(RolloutRecord),
}

/// What the head of a rollout file says of its session.
#[derive(Debug, PartialEq)]
pub struct HeadTailSummary {
    pub saw_session_meta: bool,
    pub thread_id: Option<ThreadId>,
    pub first_user_message: Option<String>,
    pub preview: Option<String>,
    pub cwd: Option<String>,
    pub git_branch: Option<String>,
    pub git_sha: Option<String>,
    pub git_origin_url: Option<String>,
    pub source: Option<String>,
    pub parent_thread_id: Option<ThreadId>,
    pub agent_nickname: Option<String>,
    pub agent_role: Option<String>,
    pub model_provider: Option<String>,
    pub cli_version: Option<String>,
    pub created_at: Option<String>,
    pub updated_at: Option<String>,
}

impl HeadTailSummary {
    /// A summary of nothing.
    pub open spec fn is_empty_summary(self) -> bool {
        &&& !self.saw_session_meta
        &&& self.thread_id is None
        &&& self.first_user_message is None
        &&& self.preview is None
        &&& self.cwd is None
        &&& self.git_branch is None
        &&& self.git_sha is None
        &&& self.git_origin_url is None
        &&& self.source is None
        &&& self.parent_thread_id is None
        &&& self.agent_nickname is None
        &&& self.agent_role is None
        &&& self.model_provider is None
        &&& self.cli_version is None
        &&& self.created_at is None
        &&& self.updated_at is None
    }

    /// A summary of nothing.
    pub fn empty() -> (r: HeadTailSummary)
        ensures
            r.is_empty_summary(),
    {
        HeadTailSummary {
            saw_session_meta: false,
            thread_id: None,
            first_user_message: None,
            preview: None,
            cwd: None,
            git_branch: None,
            git_sha: None,
            git_origin_url: None,
            source: None,
            parent_thread_id: None,
            agent_nickname: None,
            agent_role: None,
            model_provider: None,
            cli_version: None,
            created_at: None,
            updated_at: None,
        }
    }
}

// ---------------------------------------------------------------------
// Previews
// ---------------------------------------------------------------------

/// The least position at which `n` stands in `h`, or the length of `h` plus one.
pub open spec fn first_at(h: Seq<char>, n: Seq<char>, from: int) -> int
    decreases h.len() + 1 - from,
{
    if from + n.len() > h.len() {
        (h.len() + 1) as int
    } else if h.subrange(from, from + n.len()) == n {
        from
    } else {
        first_at(h, n, from + 1)
    }
}

/// A message without what stands before the user's own words, trimmed.
pub open spec fn own_words(message: Seq<char>) -> Seq<char> {
    let mark = USER_MESSAGE_BEGIN@;
    let at = first_at(message, mark, 0);
    if at <= message.len() {
        text::trimmed(message.skip(at + mark.len()))
    } else {
        text::trimmed(message)
    }
}

/// What stands behind the first mark of a user message, trimmed; all of the
/// message where there is no mark.
pub fn strip_user_message_prefix(message: &str) -> (r: String)
    ensures
        r@ == own_words(message@),
{
    let h = text::char_vec(message);
    let n = text::char_vec(USER_MESSAGE_BEGIN);
    let mut i: usize = 0;
    while n.len() <= h.len() - i
        invariant
            h@ == message@,
            n@ == USER_MESSAGE_BEGIN@,
            i <= h.len(),
            first_at(h@, n@, 0) == first_at(h@, n@, i as int),
        decreases h.len() - i,
    {
        let piece = text::slice_of(&h, i, i + n.len());
        assert(i == h.len() ==> piece@ =~= n@);
        if text::str_eq(piece.as_str(), USER_MESSAGE_BEGIN) {
            let rest = text::slice_of(&h, i + n.len(), h.len());
            assert(h@.subrange(i + n@.len(), h@.len() as int) =~= message@.skip(i + n@.len()));
            return text::trim(rest.as_str());
        }
        i = i + 1;
    }
    text::trim(message)
}

/// What a listing shows of an event.
pub open spec fn event_preview(event: RolloutEvent) -> Option<Seq<char>> {
    match event {
        RolloutEvent::UserMessage(user) => {
            let words = own_words(user.message@);
            if words.len() > 0 {
                Some(words)
            } else if user.image_count > 0 || user.local_image_count > 0 {
                Some("[Image]"@)
            } else {
                None
            }
        },
        RolloutEvent::ThreadGoalUpdated { objective } => {
            let words = text::trimmed(objective@);
            if words.len() > 0 {
                Some(words)
            } else {
                None
            }
        },
        RolloutEvent::Other => None,
    }
}

/// What a listing shows of an event: the user's words, a placeholder for a
/// message that holds images alone, or the objective of a goal.
pub fn event_msg_preview(event: &RolloutEvent) -> (r: Option<String>)
    ensures
        text::opt_view(r) == event_preview(*event),
{
    match event {
        RolloutEvent::UserMessage(user) => {
            let words = strip_user_message_prefix(user.message.as_str());
            if !words.as_str().is_empty() {
                Some(words)
            } else if user.image_count > 0 || user.local_image_count > 0 {
                Some("[Image]".to_owned())
            } else {
                None
            }
        },
        RolloutEvent::ThreadGoalUpdated { objective } => {
            let words = text::trim(objective.as_str());
            if !words.as_str().is_empty() {
                Some(words)
            } else {
                None
            }
        },
        RolloutEvent::Other => None,
    }
}

// ---------------------------------------------------------------------
// The summary of the head
// ---------------------------------------------------------------------

/// Whether the reader asks for another line: within the head limit always, and
/// behind it while a session that was seen still lacks its preview or its
/// first user message.
pub open spec fn wants_line(s: HeadTailSummary, scanned: nat, head_limit: nat) -> bool {
    &&& !head_complete(s)
    &&& (scanned < head_limit || (s.saw_session_meta && (s.preview is None || s.first_user_message is None)
        && scanned < head_limit + USER_EVENT_SCAN_LIMIT))
}

/// Whether nothing more is to be learnt.
pub open spec fn head_complete(s: HeadTailSummary) -> bool {
    s.saw_session_meta && s.preview is Some && s.first_user_message is Some
}

/// The summary that takes its metadata from `meta`.
pub open spec fn with_meta(s: HeadTailSummary, meta: SessionMeta) -> HeadTailSummary {
    HeadTailSummary {
        saw_session_meta: true,
        thread_id: Some(meta.id),
        cwd: Some(meta.cwd),
        git_branch: match meta.git {
            Some(git) => git.branch,
            None => None,
        },
        git_sha: match meta.git {
            Some(git) => git.commit_hash,
            None => None,
        },
        git_origin_url: match meta.git {
            Some(git) => git.repository_url,
            None => None,
        },
        source: Some(meta.source),
        parent_thread_id: meta.parent_thread_id,
        agent_nickname: meta.agent_nickname,
        agent_role: meta.agent_role,
        model_provider: meta.model_provider,
        cli_version: Some(meta.cli_version),
        created_at: Some(meta.timestamp),
        ..s
    }
}

/// Whether `after` is what a summary becomes by the given line: the first
/// session metadata and the first preview and user message are kept.
pub open spec fn absorbs(before: HeadTailSummary, line: HeadLine, after: HeadTailSummary) -> bool {
    match line {
        HeadLine::Record(RolloutRecord::SessionMeta(meta)) => if before.saw_session_meta {
            after == before
        } else {
            after == with_meta(before, meta)
        },
        HeadLine::Record(RolloutRecord::Event(event)) => {
            &&& after == (HeadTailSummary {
                preview: after.preview,
                first_user_message: after.first_user_message,
                ..before
            })
            &&& text::opt_view(after.preview) == first_of(text::opt_view(before.preview), event_preview(event))
            &&& text::opt_view(after.first_user_message) == (if event is UserMessage {
                first_of(text::opt_view(before.first_user_message), event_preview(event))
            } else {
                text::opt_view(before.first_user_message)
            })
        },
        _ => after == before,
    }
}

/// The first of the two that is there.
pub open spec fn first_of(a: Option<Seq<char>>, b: Option<Seq<char>>) -> Option<Seq<char>> {
    match a {
        Some(x) => Some(x),
        None => b,
    }
}

/// Reads the head of a rollout file line by line.
pub struct HeadReader {
    pub summary: HeadTailSummary,
    pub lines_scanned: usize,
    pub head_limit: usize,
}

impl HeadReader {
    /// The bound on the lines that are counted.
    pub open spec fn wf(self) -> bool {
        &&& self.head_limit <= usize::MAX - USER_EVENT_SCAN_LIMIT
        &&& self.lines_scanned <= self.head_limit + USER_EVENT_SCAN_LIMIT
    }

    /// A reader at the start of a file.
    pub fn new(head_limit: usize) -> (r: HeadReader)
        requires
            head_limit <= usize::MAX - USER_EVENT_SCAN_LIMIT,
        ensures
            r.wf(),
            r.summary.is_empty_summary(),
            r.lines_scanned == 0,
            r.head_limit == head_limit,
    {
        HeadReader { summary: HeadTailSummary::empty(), lines_scanned: 0, head_limit }
    }

    /// Whether another line is to be read.
    pub fn wants_more(&self) -> (r: bool)
        requires
            self.wf(),
        ensures
            r == wants_line(self.summary, self.lines_scanned as nat, self.head_limit as nat),
    {
        let s = &self.summary;
        !(s.saw_session_meta && s.preview.is_some() && s.first_user_message.is_some()) && (self.lines_scanned
            < self.head_limit || (s.saw_session_meta && (s.preview.is_none() || s.first_user_message.is_none())
            && self.lines_scanned < self.head_limit + USER_EVENT_SCAN_LIMIT))
    }

    /// Takes in one line. A blank line is not counted.
    pub fn feed(&mut self, line: HeadLine)
        requires
            old(self).wf(),
            wants_line(old(self).summary, old(self).lines_scanned as nat, old(self).head_limit as nat),
        ensures
            final(self).wf(),
            final(self).head_limit == old(self).head_limit,
            final(self).lines_scanned == old(self).lines_scanned + (if line is Blank {
                0int
            } else {
                1int
            }),
            absorbs(old(self).summary, line, final(self).summary),
    {
        match line {
            HeadLine::Blank => {
                return ;
            },
            _ => {},
        }
        self.lines_scanned = self.lines_scanned + 1;
        match line {
            HeadLine::Record(RolloutRecord::SessionMeta(meta)) => {
                if !self.summary.saw_session_meta {
                    self.summary.source = Some(meta.source);
                    self.summary.parent_thread_id = meta.parent_thread_id;
                    self.summary.agent_nickname = meta.agent_nickname;
                    self.summary.agent_role = meta.agent_role;
                    self.summary.model_provider = meta.model_provider;
                    self.summary.thread_id = Some(meta.id);
                    self.summary.cwd = Some(meta.cwd);
                    match meta.git {
                        Some(git) => {
                            self.summary.git_branch = git.branch;
                            self.summary.git_sha = git.commit_hash;
                            self.summary.git_origin_url = git.repository_url;
                        },
                        None => {
                            self.summary.git_branch = None;
                            self.summary.git_sha = None;
                            self.summary.git_origin_url = None;
                        },
                    }
                    self.summary.cli_version = Some(meta.cli_version);
                    self.summary.created_at = Some(meta.timestamp);
                    self.summary.saw_session_meta = true;
                }
            },
            HeadLine::Record(RolloutRecord::Event(event)) => {
                match event_msg_preview(&event) {
                    Some(preview) => {
                        if self.summary.preview.is_none() {
                            self.summary.preview = Some(preview.clone());
                        }
                        match event {
                            RolloutEvent::UserMessage(_) => {
                                if self.summary.first_user_message.is_none() {
                                    self.summary.first_user_message = Some(preview);
                                }
                            },
                            _ => {},
                        }
                    },
                    None => {},
                }
            },
            _ => {},
        }
    }
}

/// Whether `s` and `n` are the summary and the line count after the reader has
/// taken the first `taken` of the lines, asking for each of them.
pub open spec fn read_run(lines: Seq<HeadLine>, taken: nat, head_limit: nat, s: HeadTailSummary, n: nat) -> bool
    decreases taken,
{
    if taken == 0 {
        s.is_empty_summary() && n == 0
    } else {
        taken <= lines.len() && exists|before: HeadTailSummary, m: nat|
            read_run(lines, (taken - 1) as nat, head_limit, before, m) && #[trigger] read_step(
                before,
                m,
                lines[taken - 1],
                head_limit,
                s,
                n,
            )
    }
}

/// Whether the reader asks for the line and comes by it to the summary `s` and
/// the count `n`.
pub open spec fn read_step(
    before: HeadTailSummary,
    m: nat,
    line: HeadLine,
    head_limit: nat,
    s: HeadTailSummary,
    n: nat,
) -> bool {
    &&& wants_line(before, m, head_limit)
    &&& absorbs(before, line, s)
    &&& n == m + (if line is Blank {
        0nat
    } else {
        1nat
    })
}

/// Reads the head of a rollout file whose lines are given: line after line
/// while the reader asks for more and there are any.
pub fn read_head_summary(lines: Vec<HeadLine>, head_limit: usize) -> (r: HeadTailSummary)
    requires
        head_limit <= usize::MAX - USER_EVENT_SCAN_LIMIT,
    ensures
        exists|taken: nat, n: nat|
            #[trigger] read_run(lines@, taken, head_limit as nat, r, n) && (taken == lines@.len() || !wants_line(
                r,
                n,
                head_limit as nat,
            )),
{
    let mut reader = HeadReader::new(head_limit);
    let mut queue = lines;
    let ghost mut taken: int = 0;
    assert(read_run(lines@, 0, head_limit as nat, reader.summary, 0));
    assert(queue@ =~= lines@.skip(0));
    while queue.len() > 0 && reader.wants_more()
        invariant
            reader.wf(),
            reader.head_limit == head_limit,
            0 <= taken <= lines@.len(),
            queue@ == lines@.skip(taken),
            read_run(lines@, taken as nat, head_limit as nat, reader.summary, reader.lines_scanned as nat),
        decreases queue.len(),
    {
        let ghost before = reader.summary;
        let ghost m = reader.lines_scanned as nat;
        let line = queue.remove(0);
        assert(line == lines@[taken as int]);
        assert(queue@ =~= lines@.skip(taken + 1));
        reader.feed(line);
        proof {
            taken = taken + 1;
            assert(read_step(
                before,
                m,
                lines@[taken - 1],
                head_limit as nat,
                reader.summary,
                reader.lines_scanned as nat,
            ));
        }
    }
    reader.summary
}

/// The preview that a line gives.
pub open spec fn line_preview(line: HeadLine) -> Option<Seq<char>> {
    match line {
        HeadLine::Record(RolloutRecord::Event(event)) => event_preview(event),
        _ => None,
    }
}

/// The preview of the user message on a line.
pub open spec fn line_message(line: HeadLine) -> Option<Seq<char>> {
    match line {
        HeadLine::Record(RolloutRecord::Event(event)) => if event is UserMessage {
            event_preview(event)
        } else {
            None
        },
        _ => None,
    }
}

/// The first preview that the lines give.
pub open spec fn first_preview(lines: Seq<HeadLine>) -> Option<Seq<char>>
    decreases lines.len(),
{
    if lines.len() == 0 {
        None
    } else {
        first_of(first_preview(lines.drop_last()), line_preview(lines.last()))
    }
}

/// The preview of the first user message on the lines.
pub open spec fn first_message(lines: Seq<HeadLine>) -> Option<Seq<char>>
    decreases lines.len(),
{
    if lines.len() == 0 {
        None
    } else {
        first_of(first_message(lines.drop_last()), line_message(lines.last()))
    }
}

/// Whether what the summary says of the session comes from the line, which is the
/// first with session metadata.
pub open spec fn tells_of(s: HeadTailSummary, lines: Seq<HeadLine>, i: int) -> bool {
    &&& 0 <= i < lines.len()
    &&& forall|j: int| 0 <= j < i ==> !is_meta(#[trigger] lines[j])
    &&& lines[i] matches HeadLine::Record(RolloutRecord::SessionMeta(meta)) && with_meta(s, meta) == s
}

/// However many lines a file has, the reader counts no more of them than the
/// head limit and the scan limit together; what it says of the session's
/// metadata comes from the first metadata record among those that it took, and
/// the preview and the user message are the first that they give, so that once
/// one is found it stays.
pub proof fn law_head_scan_is_bounded(lines: Seq<HeadLine>, taken: nat, head_limit: nat, s: HeadTailSummary, n: nat)
    requires
        read_run(lines, taken, head_limit, s, n),
    ensures
        n <= head_limit + USER_EVENT_SCAN_LIMIT,
        n <= taken <= lines.len(),
        !s.saw_session_meta ==> n <= head_limit,
        s.saw_session_meta <==> exists|i: int| 0 <= i < taken && is_meta(#[trigger] lines[i]),
        s.saw_session_meta ==> exists|i: int| #[trigger] tells_of(s, lines.take(taken as int), i),
        text::opt_view(s.preview) == first_preview(lines.take(taken as int)),
        text::opt_view(s.first_user_message) == first_message(lines.take(taken as int)),
    decreases taken,
{
    if taken == 0 {
        assert(lines.take(0).len() == 0);
    }
    if taken > 0 {
        let (before, m) = choose|before: HeadTailSummary, m: nat|
            read_run(lines, (taken - 1) as nat, head_limit, before, m) && #[trigger] read_step(
                before,
                m,
                lines[taken - 1],
                head_limit,
                s,
                n,
            );
        law_head_scan_is_bounded(lines, (taken - 1) as nat, head_limit, before, m);
        let read = lines.take(taken as int);
        assert(read.drop_last() =~= lines.take(taken - 1));
        assert(read.last() == lines[taken - 1]);
        if s.saw_session_meta {
            lemma_first_metadata(before, s, lines.take(taken - 1), lines[taken - 1]);
            assert(read =~= lines.take(taken - 1).push(lines[taken - 1]));
        }
        if s.saw_session_meta {
            if before.saw_session_meta {
                let i = choose|i: int| 0 <= i < taken - 1 && is_meta(#[trigger] lines[i]);
                assert(0 <= i < taken && is_meta(lines[i]));
            } else {
                assert(is_meta(lines[taken - 1]));
            }
        } else {
            assert(!before.saw_session_meta);
            assert forall|i: int| 0 <= i < taken implies !is_meta(#[trigger] lines[i]) by {
                if i == taken - 1 {
                } else {
                    assert(!is_meta(lines[i]));
                }
            }
        }
    }
}

proof fn lemma_first_metadata(before: HeadTailSummary, after: HeadTailSummary, lines: Seq<HeadLine>, line: HeadLine)
    requires
        absorbs(before, line, after),
        before.saw_session_meta ==> exists|i: int| #[trigger] tells_of(before, lines, i),
        !before.saw_session_meta ==> forall|j: int| 0 <= j < lines.len() ==> !is_meta(#[trigger] lines[j]),
        after.saw_session_meta,
    ensures
        exists|i: int| #[trigger] tells_of(after, lines.push(line), i),
{
    let all = lines.push(line);
    if before.saw_session_meta {
        let i = choose|i: int| #[trigger] tells_of(before, lines, i);
        assert(all[i] == lines[i]);
        assert forall|j: int| 0 <= j < i implies !is_meta(#[trigger] all[j]) by {
            assert(all[j] == lines[j]);
        }
        assert(tells_of(after, all, i));
    } else {
        let i = lines.len() as int;
        assert(all[i] == line);
        assert forall|j: int| 0 <= j < i implies !is_meta(#[trigger] all[j]) by {
            assert(all[j] == lines[j]);
        }
        assert(tells_of(after, all, i));
    }
}

/// Whether the line records session metadata.
pub open spec fn is_meta(line: HeadLine) -> bool {
    line matches HeadLine::Record(RolloutRecord::SessionMeta(_))
}

// ---------------------------------------------------------------------
// The session metadata line
// ---------------------------------------------------------------------

/// What reading a rollout file for its session metadata comes to.
#[derive(Debug, PartialEq)]
pub enum MetaLine {
    Found(SessionMeta),
    /// The first conversation record stands before any metadata.
    NotAtStart,
    Empty,
}

/// Whether the line is passed over in the search for session metadata.
pub open spec fn passed_over(line: HeadLine) -> bool {
    match line {
        HeadLine::Record(RolloutRecord::SessionMeta(_)) => false,
        HeadLine::Record(RolloutRecord::ResponseItem) => false,
        HeadLine::Record(RolloutRecord::InterAgentCommunication) => false,
        _ => true,
    }
}

/// What one line says of the session metadata; `None` where the next line
/// decides.
pub open spec fn meta_of(line: HeadLine) -> Option<MetaLine> {
    match line {
        HeadLine::Record(RolloutRecord::SessionMeta(meta)) => Some(MetaLine::Found(meta)),
        HeadLine::Record(RolloutRecord::ResponseItem) => Some(MetaLine::NotAtStart),
        HeadLine::Record(RolloutRecord::InterAgentCommunication) => Some(MetaLine::NotAtStart),
        _ => None,
    }
}

/// What one line says of the session metadata.
pub fn session_meta_step(line: HeadLine) -> (r: Option<MetaLine>)
    ensures
        r == meta_of(line),
{
    match line {
        HeadLine::Record(RolloutRecord::SessionMeta(meta)) => Some(MetaLine::Found(meta)),
        HeadLine::Record(RolloutRecord::ResponseItem) => Some(MetaLine::NotAtStart),
        HeadLine::Record(RolloutRecord::InterAgentCommunication) => Some(MetaLine::NotAtStart),
        _ => None,
    }
}

/// Reads the session metadata from the lines of a rollout file: the first line
/// that is not passed over decides.
pub fn read_session_meta_line(lines: Vec<HeadLine>) -> (r: MetaLine)
    ensures
        match r {
            MetaLine::Empty => forall|i: int| 0 <= i < lines@.len() ==> passed_over(#[trigger] lines@[i]),
            _ => exists|i: int|
                0 <= i < lines@.len() && meta_of(#[trigger] lines@[i]) == Some(r) && forall|j: int|
                    0 <= j < i ==> passed_over(#[trigger] lines@[j]),
        },
{
    let mut queue = lines;
    let ghost mut taken: int = 0;
    assert(queue@ =~= lines@.skip(0));
    while queue.len() > 0
        invariant
            0 <= taken <= lines@.len(),
            queue@ == lines@.skip(taken),
            forall|i: int| 0 <= i < taken ==> passed_over(#[trigger] lines@[i]),
        decreases queue.len(),
    {
        let line = queue.remove(0);
        assert(line == lines@[taken as int]);
        assert(queue@ =~= lines@.skip(taken + 1));
        match session_meta_step(line) {
            Some(found) => return found,
            None => {},
        }
        proof {
            taken = taken + 1;
        }
    }
    MetaLine::Empty
}

/// The message for a rollout without session metadata.
pub fn session_meta_error(path: &str, found: &MetaLine) -> (r: Option<String>)
    ensures
        text::opt_view(r) == (match *found {
            MetaLine::Found(_) => None,
            MetaLine::NotAtStart => Some("rollout at "@ + path@ + " does not start with session metadata"@),
            MetaLine::Empty => Some("rollout at "@ + path@ + " is empty"@),
        }),
{
    let tail: &str = match found {
        MetaLine::Found(_) => return None,
        MetaLine::NotAtStart => " does not start with session metadata",
        MetaLine::Empty => " is empty",
    };
    let mut out: String = "rollout at ".to_owned();
    out.push_str(path);
    out.push_str(tail);
    Some(out)
}

/// Whether a record belongs in the head that summaries are made from.
pub fn counts_in_head(record: &RolloutRecord) -> (r: bool)
    ensures
        r == (record is SessionMeta || record is ResponseItem || record is InterAgentCommunication),
{
    match record {
        RolloutRecord::SessionMeta(_) => true,
        RolloutRecord::ResponseItem => true,
        RolloutRecord::InterAgentCommunication => true,
        _ => false,
    }
}

/// Whether the line holds a record that belongs in the head.
pub open spec fn line_counts(line: HeadLine) -> bool {
    line matches HeadLine::Record(record) && (record is SessionMeta || record is ResponseItem
        || record is InterAgentCommunication)
}

/// The numbers of the first lines that make up the head.
pub open spec fn head_lines(lines: Seq<HeadLine>) -> Seq<usize>
    decreases lines.len(),
{
    if lines.len() == 0 {
        Seq::empty()
    } else {
        let before = head_lines(lines.drop_last());
        if before.len() < HEAD_RECORD_LIMIT && line_counts(lines.last()) {
            before.push((lines.len() - 1) as usize)
        } else {
            before
        }
    }
}

/// The numbers of the first lines that make up the head that summaries are made
/// from.
pub fn read_head_for_summary(lines: &Vec<HeadLine>) -> (r: Vec<usize>)
    ensures
        r@ == head_lines(lines@),
{
    let mut head: Vec<usize> = Vec::new();
    let mut i: usize = 0;
    while i < lines.len()
        invariant
            i <= lines@.len(),
            head@ == head_lines(lines@.take(i as int)),
        decreases lines.len() - i,
    {
        assert(lines@.take(i + 1).drop_last() =~= lines@.take(i as int));
        let counts = match &lines[i] {
            HeadLine::Record(record) => counts_in_head(record),
            _ => false,
        };
        if head.len() < HEAD_RECORD_LIMIT && counts {
            head.push(i);
        }
        i = i + 1;
    }
    assert(lines@.take(i as int) =~= lines@);
    head
}

/// The head is made of at most so many lines, each with a record that belongs
/// in it, in the order in which they stand.
pub proof fn law_head_is_bounded(lines: Seq<HeadLine>)
    requires
        lines.len() <= usize::MAX,
    ensures
        head_lines(lines).len() <= HEAD_RECORD_LIMIT,
        forall|i: int|
            0 <= i < head_lines(lines).len() ==> #[trigger] head_lines(lines)[i] < lines.len() && line_counts(
                lines[head_lines(lines)[i] as int],
            ),
        forall|i: int, j: int|
            0 <= i < j < head_lines(lines).len() ==> #[trigger] head_lines(lines)[i] < #[trigger] head_lines(lines)[j],
    decreases lines.len(),
{
    if lines.len() > 0 {
        law_head_is_bounded(lines.drop_last());
    }
}

/// What the user asked for stands behind the first mark that says so, and is all
/// of the message where there is none.
pub proof fn law_own_words_stand_behind_the_mark(message: Seq<char>)
    ensures
        own_words(message) == (match text::sub_index(message, "## My request for Codex:"@) {
            Some(i) => text::trimmed(message.skip(i + 24)),
            None => text::trimmed(message),
        }),
{
    let mark = "## My request for Codex:"@;
    reveal_strlit("## My request for Codex:");
    text::law_text_is_found_where_it_first_stands(message, mark);
    lemma_first_at(message, mark, 0);
    let at = first_at(message, mark, 0);
    match text::sub_index(message, mark) {
        Some(i) => {
            if at > i {
                assert(message.subrange(i, i + mark.len()) != mark);
            }
            if at < i {
                assert(message.subrange(at, at + mark.len()) != mark);
            }
        },
        None => {
            if at <= message.len() {
                assert(message.subrange(at, at + mark.len()) != mark);
            }
        },
    }
}

proof fn lemma_first_at(h: Seq<char>, n: Seq<char>, from: int)
    requires
        0 <= from,
        n.len() > 0,
    ensures
        first_at(h, n, from) <= h.len() ==> from <= first_at(h, n, from) <= h.len() - n.len() && h.subrange(
            first_at(h, n, from),
            first_at(h, n, from) + n.len(),
        ) == n,
        forall|j: int|
            from <= j <= h.len() - n.len() && j < first_at(h, n, from) ==> #[trigger] h.subrange(j, j + n.len()) != n,
    decreases h.len() + 1 - from,
{
    if from + n.len() <= h.len() && h.subrange(from, from + n.len()) != n {
        lemma_first_at(h, n, from + 1);
    }
}

/// What is shown of a message is what the user asked for, or that it holds an
/// image where it holds nothing else; a goal is shown as it stands; nothing is
/// shown of any other event, nor of what is blank.
pub proof fn law_preview_of_an_event(user: UserMessage, objective: String)
    ensures
        own_words(user.message@).len() > 0 ==> event_preview(RolloutEvent::UserMessage(user)) == Some(
            own_words(user.message@),
        ),
        own_words(user.message@).len() == 0 && user.image_count + user.local_image_count > 0 ==> event_preview(
            RolloutEvent::UserMessage(user),
        ) == Some("[Image]"@),
        own_words(user.message@).len() == 0 && user.image_count + user.local_image_count == 0 ==> event_preview(
            RolloutEvent::UserMessage(user),
        ) is None,
        text::trimmed(objective@).len() > 0 ==> event_preview(RolloutEvent::ThreadGoalUpdated { objective }) == Some(
            text::trimmed(objective@),
        ),
        text::trimmed(objective@).len() == 0 ==> event_preview(RolloutEvent::ThreadGoalUpdated { objective }) is None,
        event_preview(RolloutEvent::Other) is None,
{
}

/// A head is read on until it tells the session, a preview and a message; up to
/// the limit for anything, and up to 200 lines more only for the other two once
/// the session is known.
pub proof fn law_head_is_read_until_it_tells_all(s: HeadTailSummary, scanned: nat, head_limit: nat)
    ensures
        s.saw_session_meta && s.preview is Some && s.first_user_message is Some ==> !wants_line(s, scanned, head_limit),
        scanned < head_limit && !(s.saw_session_meta && s.preview is Some && s.first_user_message is Some)
            ==> wants_line(s, scanned, head_limit),
        scanned >= head_limit && !s.saw_session_meta ==> !wants_line(s, scanned, head_limit),
        scanned >= head_limit + 200 ==> !wants_line(s, scanned, head_limit),
        head_limit <= scanned < head_limit + 200 && s.saw_session_meta && (s.preview is None || s.first_user_message
            is None) ==> wants_line(s, scanned, head_limit),
{
}

/// The first line that tells a session, a preview or a message is the one that
/// counts; a line tells the one and leaves the others as they were.
pub proof fn law_first_line_that_tells_counts(before: HeadTailSummary, line: HeadLine, after: HeadTailSummary)
    requires
        absorbs(before, line, after),
    ensures
        before.saw_session_meta ==> after == (HeadTailSummary {
            preview: after.preview,
            first_user_message: after.first_user_message,
            ..before
        }),
        before.preview is Some ==> text::opt_view(after.preview) == text::opt_view(before.preview),
        before.first_user_message is Some ==> text::opt_view(after.first_user_message) == text::opt_view(
            before.first_user_message,
        ),
        after.updated_at == before.updated_at,
        is_meta(line) ==> after.preview == before.preview && after.first_user_message == before.first_user_message
            && after.saw_session_meta,
        !is_meta(line) ==> after.saw_session_meta == before.saw_session_meta && after.thread_id == before.thread_id
            && after.cwd == before.cwd && after.created_at == before.created_at && after.source == before.source,
        line is Blank || line is Unreadable ==> after == before,
        line matches HeadLine::Record(RolloutRecord::SessionMeta(meta)) ==> !before.saw_session_meta ==> {
            &&& after.thread_id == Some(meta.id) && after.cwd == Some(meta.cwd) && after.source == Some(meta.source)
            &&& after.created_at == Some(meta.timestamp) && after.cli_version == Some(meta.cli_version)
            &&& after.parent_thread_id == meta.parent_thread_id && after.agent_nickname == meta.agent_nickname
            &&& after.agent_role == meta.agent_role && after.model_provider == meta.model_provider
            &&& after.git_branch == (if meta.git is Some {
                meta.git->0.branch
            } else {
                None
            })
            &&& after.git_sha == (if meta.git is Some {
                meta.git->0.commit_hash
            } else {
                None
            })
            &&& after.git_origin_url == (if meta.git is Some {
                meta.git->0.repository_url
            } else {
                None
            })
        },
        line matches HeadLine::Record(RolloutRecord::Event(event)) ==> {
            &&& before.preview is None ==> text::opt_view(after.preview) == event_preview(event)
            &&& before.first_user_message is None && event is UserMessage ==> text::opt_view(after.first_user_message)
                == event_preview(event)
            &&& !(event is UserMessage) ==> text::opt_view(after.first_user_message) == text::opt_view(
                before.first_user_message,
            )
        },
{
}

/// The session is told by the first line that is no event and no other record
/// that may stand before it; a conversation that begins before it is told as
/// such.
pub proof fn law_session_stands_before_the_conversation(line: HeadLine)
    ensures
        passed_over(line) <==> meta_of(line) is None,
        meta_of(line) matches Some(MetaLine::Found(meta)) ==> line == HeadLine::Record(
            RolloutRecord::SessionMeta(meta),
        ),
        is_meta(line) ==> meta_of(line) is Some && meta_of(line)->0 is Found,
        meta_of(line) == Some(MetaLine::NotAtStart) <==> line == HeadLine::Record(RolloutRecord::ResponseItem) || line
            == HeadLine::Record(RolloutRecord::InterAgentCommunication),
        line is Blank || line is Unreadable ==> passed_over(line),
        line matches HeadLine::Record(record) ==> (record is TurnContext || record is Compacted || record is Event)
            ==> passed_over(line),
{
}

/// The head holds the first ten lines that count, and every one where there are
/// no more than ten.
pub proof fn law_head_leaves_out_nothing(lines: Seq<HeadLine>, i: int)
    requires
        lines.len() <= usize::MAX,
        0 <= i < lines.len(),
        line_counts(lines[i]),
    ensures
        head_lines(lines).contains(i as usize) || (head_lines(lines).len() == 10 && forall|k: int|
            0 <= k < 10 ==> #[trigger] head_lines(lines)[k] < i),
    decreases lines.len(),
{
    law_head_is_bounded(lines);
    let front = lines.drop_last();
    let before = head_lines(front);
    law_head_is_bounded(front);
    if i < front.len() {
        assert(front[i] == lines[i]);
        law_head_leaves_out_nothing(front, i);
        if before.contains(i as usize) {
            let k = choose|k: int| 0 <= k < before.len() && before[k] == i as usize;
            assert(head_lines(lines)[k] == i as usize);
        }
    } else if before.len() < 10 {
        assert(head_lines(lines).last() == i as usize);
        assert(head_lines(lines)[before.len() as int] == i as usize);
    }
}

/// The preview of lines is that of the first that has one, and so is the message.
pub proof fn law_first_preview_is_the_earliest(lines: Seq<HeadLine>, more: HeadLine)
    ensures
        first_preview(Seq::empty()) is None,
        first_message(Seq::empty()) is None,
        first_preview(lines) is Some ==> first_preview(lines.push(more)) == first_preview(lines),
        first_preview(lines) is None ==> first_preview(lines.push(more)) == line_preview(more),
        first_message(lines) is Some ==> first_message(lines.push(more)) == first_message(lines),
        first_message(lines) is None ==> first_message(lines.push(more)) == line_message(more),
{
    assert(lines.push(more).drop_last() =~= lines);
}

} // verus!
