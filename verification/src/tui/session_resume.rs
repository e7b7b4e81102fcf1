//! What is read of a saved session before it is resumed.

use vstd::prelude::*;
use vstd::slice::*;
use vstd::utf8::*;

use crate::ids;
use crate::ids::ThreadId;
use crate::json;
use crate::json::JShape;
use crate::json::JView;
use crate::json::Json;
use crate::json::JsonShape;
use crate::paths;
use crate::text;

verus! {

/// How many bytes are read at a time from the end of a session's file.
pub const ROLLOUT_RESUME_TAIL_READ_CHUNK_SIZE: usize = 65536;

// ---------------------------------------------------------------------
// Records
// ---------------------------------------------------------------------

/// What the first record of a session says.
#[derive(Debug, PartialEq)]
pub struct SessionMetadata {
    pub id: u128,
    pub cwd: String,
}

/// What a turn was run with.
#[derive(Debug, PartialEq)]
pub struct TurnContextResumeState {
    pub cwd: String,
    pub model: String,
}

/// What the first record of a session says, in characters.
#[verifier::ext_equal]
pub struct MetaView {
    pub id: u128,
    pub cwd: Seq<char>,
}

/// What a turn was run with, in characters.
#[verifier::ext_equal]
pub struct TurnView {
    pub cwd: Seq<char>,
    pub model: Seq<char>,
}

impl View for SessionMetadata {
    type V = MetaView;

    open spec fn view(&self) -> MetaView {
        MetaView { id: self.id, cwd: self.cwd@ }
    }
}

impl View for TurnContextResumeState {
    type V = TurnView;

    open spec fn view(&self) -> TurnView {
        TurnView { cwd: self.cwd@, model: self.model@ }
    }
}

/// What a turn was run with, where it is known.
pub open spec fn opt_turn(turn: Option<TurnContextResumeState>) -> Option<TurnView> {
    match turn {
        Some(turn) => Some(turn@),
        None => None,
    }
}

/// What the first record says, where it is known.
pub open spec fn opt_meta(meta: Option<SessionMetadata>) -> Option<MetaView> {
    match meta {
        Some(meta) => Some(meta@),
        None => None,
    }
}

/// A line of a session's file, as far as it matters here.
pub enum ResumeRecord {
    /// No record.
    Malformed,
    /// A record that says nothing.
    Bare,
    /// A record on the session.
    Session(Option<SessionMetadata>),
    /// A record on a turn.
    Turn(Option<TurnContextResumeState>),
    /// Some other record.
    Other,
}

/// A line of a session's file, in characters.
pub enum RecordView {
    Malformed,
    Bare,
    Session(Option<MetaView>),
    Turn(Option<TurnView>),
    Other,
}

impl View for ResumeRecord {
    type V = RecordView;

    open spec fn view(&self) -> RecordView {
        match *self {
            ResumeRecord::Malformed => RecordView::Malformed,
            ResumeRecord::Bare => RecordView::Bare,
            ResumeRecord::Session(meta) => RecordView::Session(opt_meta(meta)),
            ResumeRecord::Turn(turn) => RecordView::Turn(opt_turn(turn)),
            ResumeRecord::Other => RecordView::Other,
        }
    }
}

/// The member of a value with two members: that of the name in an object, and
/// that at the place in an array of two.
pub open spec fn member_of(v: JView, name: Seq<char>, place: int) -> Option<JView> {
    match v.shape {
        JShape::Object(fields) => json::field_of(fields, name),
        JShape::Array(items) => if items.len() == 2 {
            Some(items[place])
        } else {
            None
        },
        _ => None,
    }
}

/// The string that a member of the value holds.
pub open spec fn string_in(v: JView, name: Seq<char>, place: int) -> Option<Seq<char>> {
    match member_of(v, name, place) {
        Some(member) => match member.shape {
            JShape::Str(s) => Some(s),
            _ => None,
        },
        None => None,
    }
}

/// What the payload of a record on a session says.
pub open spec fn meta_of(payload: JView) -> Option<MetaView> {
    match (string_in(payload, "id"@, 0), string_in(payload, "cwd"@, 1)) {
        (Some(id), Some(cwd)) => match ids::uuid_value(id) {
            Some(id) => Some(MetaView { id, cwd }),
            None => None,
        },
        _ => None,
    }
}

/// What the payload of a record on a turn says.
pub open spec fn turn_of(payload: JView) -> Option<TurnView> {
    match (string_in(payload, "cwd"@, 0), string_in(payload, "model"@, 1)) {
        (Some(cwd), Some(model)) => Some(TurnView { cwd, model }),
        _ => None,
    }
}

/// The payload of a record.
pub open spec fn payload_of(v: JView) -> Option<JView> {
    match member_of(v, "payload"@, 1) {
        Some(payload) => if payload.shape is Null {
            None
        } else {
            Some(payload)
        },
        None => None,
    }
}

/// The record that a value is. Of an entry that is written twice the last
/// counts.
pub open spec fn record_of(v: JView) -> RecordView {
    match string_in(v, "type"@, 0) {
        None => RecordView::Malformed,
        Some(kind) => match payload_of(v) {
            None => RecordView::Bare,
            Some(payload) => if kind == "session_meta"@ {
                RecordView::Session(meta_of(payload))
            } else if kind == "turn_context"@ {
                RecordView::Turn(turn_of(payload))
            } else {
                RecordView::Other
            },
        },
    }
}

/// The record that a text writes.
pub open spec fn record_in(s: Seq<char>) -> RecordView {
    match json::json_value(s) {
        Ok(v) => record_of(v),
        Err(_) => RecordView::Malformed,
    }
}

fn find_member<'a>(v: &'a Json, name: &str, place: usize) -> (r: Option<&'a Json>)
    requires
        place < 2,
    ensures
        (match r {
            Some(member) => Some(member@),
            None => None,
        }) == member_of(v@, name@, place as int),
{
    match &v.shape {
        JsonShape::Object(fields) => json::get_field(fields, name),
        JsonShape::Array(items) => {
            proof {
                json::lemma_jviews(items@);
            }
            if items.len() == 2 {
                Some(&items[place])
            } else {
                None
            }
        },
        _ => None,
    }
}

fn find_string(v: &Json, name: &str, place: usize) -> (r: Option<String>)
    requires
        place < 2,
    ensures
        text::opt_view(r) == string_in(v@, name@, place as int),
{
    match find_member(v, name, place) {
        Some(member) => match &member.shape {
            JsonShape::Str(s) => Some(s.clone()),
            _ => None,
        },
        None => None,
    }
}

fn parse_meta(payload: &Json) -> (r: Option<SessionMetadata>)
    ensures
        opt_meta(r) == meta_of(payload@),
{
    match (find_string(payload, "id", 0), find_string(payload, "cwd", 1)) {
        (Some(id), Some(cwd)) => match ThreadId::from_string(id.as_str()) {
            Ok(id) => Some(SessionMetadata { id: id.value, cwd }),
            Err(_) => None,
        },
        _ => None,
    }
}

fn parse_turn(payload: &Json) -> (r: Option<TurnContextResumeState>)
    ensures
        opt_turn(r) == turn_of(payload@),
{
    match (find_string(payload, "cwd", 0), find_string(payload, "model", 1)) {
        (Some(cwd), Some(model)) => Some(TurnContextResumeState { cwd, model }),
        _ => None,
    }
}

/// The record that a value is.
pub fn read_record(v: &Json) -> (r: ResumeRecord)
    ensures
        r@ == record_of(v@),
{
    let kind = match find_string(v, "type", 0) {
        Some(kind) => kind,
        None => {
            return ResumeRecord::Malformed;
        },
    };
    match find_member(v, "payload", 1) {
        None => ResumeRecord::Bare,
        Some(payload) => match &payload.shape {
            JsonShape::Null => ResumeRecord::Bare,
            _ => if text::str_eq(kind.as_str(), "session_meta") {
                ResumeRecord::Session(parse_meta(payload))
            } else if text::str_eq(kind.as_str(), "turn_context") {
                ResumeRecord::Turn(parse_turn(payload))
            } else {
                ResumeRecord::Other
            },
        },
    }
}

/// The record that a text writes.
pub fn parse_record(s: &str) -> (r: ResumeRecord)
    ensures
        r@ == record_in(s@),
{
    match Json::parse(s) {
        Ok(v) => read_record(&v),
        Err(_) => ResumeRecord::Malformed,
    }
}

// ---------------------------------------------------------------------
// Reading all of a session
// ---------------------------------------------------------------------

/// What is known of a saved session.
#[derive(Debug, PartialEq)]
pub struct RolloutResumeState {
    pub thread_id: Option<u128>,
    pub cwd: Option<String>,
    pub model: Option<String>,
}

/// What is known of a saved session, in characters.
#[verifier::ext_equal]
pub struct ResumeView {
    pub thread_id: Option<u128>,
    pub cwd: Option<Seq<char>>,
    pub model: Option<Seq<char>>,
}

impl View for RolloutResumeState {
    type V = ResumeView;

    open spec fn view(&self) -> ResumeView {
        ResumeView { thread_id: self.thread_id, cwd: text::opt_view(self.cwd), model: text::opt_view(self.model) }
    }
}

/// Nothing is known.
pub open spec fn nothing_known() -> ResumeView {
    ResumeView { thread_id: None, cwd: None, model: None }
}

/// What is known after a record. The first record on the session that can be
/// read says which it is; the last one on a turn says where it ran.
pub open spec fn after_record(state: ResumeView, record: RecordView) -> ResumeView {
    match record {
        RecordView::Session(Some(meta)) => if state.thread_id is None {
            ResumeView {
                thread_id: Some(meta.id),
                cwd: match state.cwd {
                    Some(cwd) => Some(cwd),
                    None => Some(meta.cwd),
                },
                model: state.model,
            }
        } else {
            state
        },
        RecordView::Turn(Some(turn)) => ResumeView {
            thread_id: state.thread_id,
            cwd: Some(turn.cwd),
            model: Some(turn.model),
        },
        _ => state,
    }
}

/// What is known after all records.
pub open spec fn after_records(records: Seq<RecordView>) -> ResumeView
    decreases records.len(),
{
    if records.len() == 0 {
        nothing_known()
    } else {
        after_record(after_records(records.drop_last()), records.last())
    }
}

/// The records that the lines write; blank lines write none.
pub open spec fn records_of(lines: Seq<Seq<char>>) -> Seq<RecordView>
    decreases lines.len(),
{
    if lines.len() == 0 {
        Seq::empty()
    } else {
        let before = records_of(lines.drop_last());
        if text::trimmed(lines.last()).len() == 0 {
            before
        } else {
            before.push(record_in(text::trimmed(lines.last())))
        }
    }
}

/// Whether one of the records is none.
pub open spec fn holds_record(records: Seq<RecordView>) -> bool {
    exists|i: int| 0 <= i < records.len() && !(#[trigger] records[i] is Malformed)
}

/// What is known of a session while its lines are read.
pub struct ResumeReader {
    pub state: RolloutResumeState,
    pub saw_record: bool,
}

impl ResumeReader {
    /// Whether the reader has read the records.
    pub open spec fn has_read(self, records: Seq<RecordView>) -> bool {
        self.state@ == after_records(records) && self.saw_record == holds_record(records)
    }

    /// Nothing is read yet.
    pub fn new() -> (r: Self)
        ensures
            r.has_read(Seq::empty()),
            !r.saw_record,
    {
        let r = ResumeReader {
            state: RolloutResumeState { thread_id: None, cwd: None, model: None },
            saw_record: false,
        };
        assert(r.state@ =~= nothing_known());
        r
    }

    /// Reads a record.
    pub fn take(&mut self, record: ResumeRecord)
        ensures
            final(self).state@ == after_record(old(self).state@, record@),
            final(self).saw_record == (old(self).saw_record || !(record@ is Malformed)),
            forall|records: Seq<RecordView>|
                old(self).has_read(records) ==> final(self).has_read(#[trigger] records.push(record@)),
    {
        let ghost said = record@;
        match record {
            ResumeRecord::Malformed => {},
            ResumeRecord::Session(meta) => {
                self.saw_record = true;
                if let Some(meta) = meta {
                    if self.state.thread_id.is_none() {
                        self.state.thread_id = Some(meta.id);
                        if self.state.cwd.is_none() {
                            self.state.cwd = Some(meta.cwd);
                        }
                    }
                }
            },
            ResumeRecord::Turn(turn) => {
                self.saw_record = true;
                if let Some(turn) = turn {
                    self.state.cwd = Some(turn.cwd);
                    self.state.model = Some(turn.model);
                }
            },
            _ => {
                self.saw_record = true;
            },
        }
        proof {
            assert(self.state@ =~= after_record(old(self).state@, said));
            assert forall|records: Seq<RecordView>| old(self).has_read(records) implies self.has_read(
                #[trigger] records.push(said),
            ) by {
                let more = records.push(said);
                assert(more.drop_last() =~= records);
                if holds_record(records) {
                    let i = choose|i: int| 0 <= i < records.len() && !(#[trigger] records[i] is Malformed);
                    assert(more[i] == records[i]);
                }
                if holds_record(more) {
                    let i = choose|i: int| 0 <= i < more.len() && !(#[trigger] more[i] is Malformed);
                    if i < records.len() {
                        assert(records[i] == more[i]);
                    }
                }
                assert(more[records.len() as int] == said);
            }
        }
    }

    /// Reads a line.
    pub fn read_line(&mut self, line: &str)
        ensures
            forall|lines: Seq<Seq<char>>|
                old(self).has_read(#[trigger] records_of(lines)) ==> final(self).has_read(
                    records_of(lines.push(line@)),
                ),
    {
        let trimmed = text::trim(line);
        if text::char_vec(trimmed.as_str()).len() > 0 {
            self.take(parse_record(trimmed.as_str()));
        }
        proof {
            assert forall|lines: Seq<Seq<char>>| old(self).has_read(#[trigger] records_of(lines)) implies self.has_read(
                records_of(lines.push(line@)),
            ) by {
                assert(lines.push(line@).drop_last() =~= lines);
            }
        }
    }

    /// What is known after the last line. A file without a record is an error.
    pub fn finish(self, path: &str) -> (r: Result<RolloutResumeState, String>)
        ensures
            match r {
                Ok(state) => self.saw_record && state == self.state,
                Err(e) => !self.saw_record && e@ == "rollout at "@ + path@ + " is empty"@,
            },
    {
        if self.saw_record {
            Ok(self.state)
        } else {
            let mut message = "rollout at ".to_string();
            message.push_str(path);
            message.push_str(" is empty");
            Err(message)
        }
    }
}

// ---------------------------------------------------------------------
// Reading the ends of a session
// ---------------------------------------------------------------------

/// What a line at the beginning of a session's file comes to.
pub enum InitialStep {
    /// The next line is to be read.
    Continue,
    /// This is what the session says of itself, where it does.
    Done(Option<SessionMetadata>),
}

/// What the session says of itself: what its first record says.
pub open spec fn initial_meta(records: Seq<RecordView>) -> Option<MetaView>
    decreases records.len(),
{
    if records.len() == 0 {
        None
    } else {
        match records[0] {
            RecordView::Malformed => initial_meta(records.skip(1)),
            RecordView::Session(meta) => meta,
            _ => None,
        }
    }
}

/// What a line at the beginning of a session's file comes to.
pub fn initial_step(line: &str) -> (r: InitialStep)
    ensures
        if text::trimmed(line@).len() == 0 {
            r is Continue
        } else {
            match record_in(text::trimmed(line@)) {
                RecordView::Malformed => r is Continue,
                RecordView::Session(meta) => r matches InitialStep::Done(found) && opt_meta(found) == meta,
                _ => r matches InitialStep::Done(found) && found is None,
            }
        },
{
    let trimmed = text::trim(line);
    if text::char_vec(trimmed.as_str()).len() == 0 {
        return InitialStep::Continue;
    }
    match parse_record(trimmed.as_str()) {
        ResumeRecord::Malformed => InitialStep::Continue,
        ResumeRecord::Session(meta) => InitialStep::Done(meta),
        _ => InitialStep::Done(None),
    }
}

/// Whether the byte is a space of ASCII.
pub open spec fn is_ascii_space(b: u8) -> bool {
    b == 32 || b == 9 || b == 10 || b == 12 || b == 13
}

/// The bytes without spaces at the beginning.
pub open spec fn start_trimmed(s: Seq<u8>) -> Seq<u8>
    decreases s.len(),
{
    if s.len() > 0 && is_ascii_space(s[0]) {
        start_trimmed(s.skip(1))
    } else {
        s
    }
}

/// The bytes without spaces at the end.
pub open spec fn end_trimmed(s: Seq<u8>) -> Seq<u8>
    decreases s.len(),
{
    if s.len() > 0 && is_ascii_space(s.last()) {
        end_trimmed(s.drop_last())
    } else {
        s
    }
}

/// The bytes without spaces around them.
pub open spec fn space_trimmed(s: Seq<u8>) -> Seq<u8> {
    end_trimmed(start_trimmed(s))
}

/// `turn_context`.
pub open spec fn needle() -> Seq<u8> {
    seq![116u8, 117, 114, 110, 95, 99, 111, 110, 116, 101, 120, 116]
}

/// Whether the bytes hold the others one after the other.
pub open spec fn holds_bytes(s: Seq<u8>, n: Seq<u8>) -> bool {
    exists|i: int| 0 <= i <= s.len() - n.len() && #[trigger] s.subrange(i, i + n.len()) == n
}

/// What the line says of a turn.
pub open spec fn turn_in(line: Seq<u8>) -> Option<TurnView> {
    let trimmed = space_trimmed(line);
    if trimmed.len() == 0 || !holds_bytes(trimmed, needle()) || !valid_utf8(trimmed) {
        None
    } else {
        match record_in(decode_utf8(trimmed)) {
            RecordView::Turn(turn) => turn,
            _ => None,
        }
    }
}

fn trim_ascii_whitespace(v: &Vec<u8>) -> (r: Vec<u8>)
    ensures
        r@ == space_trimmed(v@),
{
    let mut start: usize = 0;
    assert(v@.skip(0) =~= v@);
    while start < v.len() && (v[start] == 32 || v[start] == 9 || v[start] == 10 || v[start] == 12 || v[start] == 13)
        invariant
            start <= v@.len(),
            start_trimmed(v@) == start_trimmed(v@.skip(start as int)),
        decreases v@.len() - start,
    {
        assert(v@.skip(start as int).skip(1) =~= v@.skip(start + 1));
        start = start + 1;
    }
    let ghost front = v@.skip(start as int);
    let mut end: usize = v.len();
    assert(v@.subrange(start as int, end as int) =~= front);
    while end > start && (v[end - 1] == 32 || v[end - 1] == 9 || v[end - 1] == 10 || v[end - 1] == 12 || v[end - 1]
        == 13)
        invariant
            start <= end <= v@.len(),
            end_trimmed(front) == end_trimmed(v@.subrange(start as int, end as int)),
        decreases end,
    {
        assert(v@.subrange(start as int, end as int).drop_last() =~= v@.subrange(start as int, end - 1));
        end = end - 1;
    }
    slice_to_vec(slice_subrange(v.as_slice(), start, end))
}

fn contains_bytes(h: &Vec<u8>, n: &Vec<u8>) -> (r: bool)
    ensures
        r == holds_bytes(h@, n@),
{
    let total: usize = h.len();
    if total < n.len() {
        return false;
    }
    let last: usize = total - n.len();
    let mut i: usize = 0;
    while i <= last
        invariant
            total == h@.len(),
            last == total - n@.len(),
            i <= last + 1,
            forall|k: int| 0 <= k < i ==> #[trigger] h@.subrange(k, k + n@.len()) != n@,
        decreases last + 1 - i,
    {
        let mut j: usize = 0;
        let mut same: bool = true;
        while j < n.len() && same
            invariant
                i <= last,
                total == h@.len(),
                last == total - n@.len(),
                j <= n@.len(),
                same ==> forall|k: int| 0 <= k < j ==> h@[i + k] == n@[k],
                !same ==> h@.subrange(i as int, i + n@.len()) != n@,
            decreases n@.len() - j, (if same { 1int } else { 0int }),
        {
            if h[i + j] != n[j] {
                assert(h@.subrange(i as int, i + n@.len())[j as int] != n@[j as int]);
                same = false;
            } else {
                j = j + 1;
            }
        }
        if same {
            assert(h@.subrange(i as int, i + n@.len()) =~= n@);
            return true;
        }
        if i == last {
            return false;
        }
        i = i + 1;
    }
    false
}

fn parse_turn_line(line: &Vec<u8>) -> (r: Option<TurnContextResumeState>)
    ensures
        opt_turn(r) == turn_in(line@),
{
    let trimmed = trim_ascii_whitespace(line);
    let n: Vec<u8> = vec![116, 117, 114, 110, 95, 99, 111, 110, 116, 101, 120, 116];
    assert(n@ =~= needle());
    if trimmed.len() == 0 || !contains_bytes(&trimmed, &n) {
        return None;
    }
    match text::from_utf8(trimmed) {
        Ok(s) => match parse_record(s.as_str()) {
            ResumeRecord::Turn(turn) => turn,
            _ => None,
        },
        Err(_) => None,
    }
}

/// What comes of reading a chunk from its last byte to its first, where the line
/// behind it begins with these bytes: the turn that is found, and how the line
/// before the chunk ends.
pub open spec fn scan(line: Seq<u8>, chunk: Seq<u8>) -> (Option<TurnView>, Seq<u8>)
    decreases chunk.len(),
{
    if chunk.len() == 0 {
        (None, line)
    } else if chunk.last() == 10 {
        match turn_in(line) {
            Some(turn) => (Some(turn), Seq::empty()),
            None => scan(Seq::empty(), chunk.drop_last()),
        }
    } else {
        scan(seq![chunk.last()] + line, chunk.drop_last())
    }
}

/// A file that is read from its end: the line that is being read, last byte
/// first.
pub struct TailScan {
    pub line_rev: Vec<u8>,
}

impl TailScan {
    /// The line that is being read.
    pub open spec fn line(self) -> Seq<u8> {
        self.line_rev@.reverse()
    }

    /// Nothing is read yet.
    pub fn new() -> (r: Self)
        ensures
            r.line() == Seq::<u8>::empty(),
    {
        let r = TailScan { line_rev: Vec::new() };
        assert(r.line() =~= Seq::empty());
        r
    }

    fn take_line(&mut self) -> (r: Option<TurnContextResumeState>)
        ensures
            opt_turn(r) == turn_in(old(self).line()),
            final(self).line() == Seq::<u8>::empty(),
    {
        let mut line: Vec<u8> = Vec::new();
        let ghost all = self.line_rev@;
        let mut i: usize = self.line_rev.len();
        while i > 0
            invariant
                i <= self.line_rev@.len(),
                self.line_rev@ == all,
                line@.len() == all.len() - i,
                forall|k: int| 0 <= k < line@.len() ==> line@[k] == all[all.len() - 1 - k],
            decreases i,
        {
            line.push(self.line_rev[i - 1]);
            i = i - 1;
        }
        assert(line@ =~= all.reverse());
        self.line_rev = Vec::new();
        assert(self.line() =~= Seq::empty());
        parse_turn_line(&line)
    }

    /// Reads the chunk before what was read, from its last byte to its first, up
    /// to the first turn that is found.
    pub fn take_chunk(&mut self, chunk: &[u8]) -> (r: Option<TurnContextResumeState>)
        ensures
            (opt_turn(r), final(self).line()) == scan(old(self).line(), chunk@),
    {
        let mut i: usize = chunk.len();
        assert(chunk@.take(chunk@.len() as int) =~= chunk@);
        while i > 0
            invariant
                i <= chunk@.len(),
                scan(old(self).line(), chunk@) == scan(self.line(), chunk@.take(i as int)),
            decreases i,
        {
            let ghost part = chunk@.take(i as int);
            assert(part.last() == chunk@[i - 1]);
            assert(part.drop_last() =~= chunk@.take(i - 1));
            let byte: u8 = chunk[i - 1];
            if byte == 10 {
                let found = self.take_line();
                if found.is_some() {
                    return found;
                }
            } else {
                let ghost before = self.line_rev@;
                self.line_rev.push(byte);
                assert(self.line() =~= seq![byte] + before.reverse());
            }
            i = i - 1;
        }
        assert(chunk@.take(0) =~= Seq::empty());
        None
    }

    /// Reads the first line of the file, once all that is behind it was read.
    pub fn finish(&mut self) -> (r: Option<TurnContextResumeState>)
        ensures
            opt_turn(r) == turn_in(old(self).line()),
    {
        self.take_line()
    }
}

/// The lines of a file.
pub open spec fn byte_lines(s: Seq<u8>) -> Seq<Seq<u8>>
    decreases s.len(),
{
    if s.len() == 0 {
        seq![Seq::empty()]
    } else {
        let before = byte_lines(s.drop_last());
        if s.last() == 10 {
            before.push(Seq::empty())
        } else {
            before.drop_last().push(before.last().push(s.last()))
        }
    }
}

/// What the last of the lines that speaks of a turn says of it.
pub open spec fn last_turn(lines: Seq<Seq<u8>>) -> Option<TurnView>
    decreases lines.len(),
{
    if lines.len() == 0 {
        None
    } else {
        match turn_in(lines.last()) {
            Some(turn) => Some(turn),
            None => last_turn(lines.drop_last()),
        }
    }
}

/// What comes of reading a file from its end.
pub open spec fn read_backwards(content: Seq<u8>) -> Option<TurnView> {
    match scan(Seq::empty(), content) {
        (Some(turn), _) => Some(turn),
        (None, line) => turn_in(line),
    }
}

proof fn lemma_scan(content: Seq<u8>, line: Seq<u8>)
    ensures
        byte_lines(content).len() > 0,
        last_turn(byte_lines(content).drop_last().push(byte_lines(content).last() + line)) == (match scan(line, content) {
            (Some(turn), _) => Some(turn),
            (None, rest) => turn_in(rest),
        }),
    decreases content.len(),
{
    let lines = byte_lines(content);
    let joined = lines.drop_last().push(lines.last() + line);
    if content.len() == 0 {
        assert(joined =~= seq![line]);
        assert(seq![line].drop_last() =~= Seq::empty());
        reveal_with_fuel(last_turn, 2);
    } else {
        let front = content.drop_last();
        let b = content.last();
        if b == 10 {
            lemma_scan(front, Seq::empty());
            let before = byte_lines(front);
            assert(lines == before.push(Seq::empty()));
            assert(joined =~= before.push(line));
            assert(joined.drop_last() =~= before);
            assert(before.drop_last().push(before.last() + Seq::<u8>::empty()) =~= before) by {
                assert(before.last() + Seq::<u8>::empty() =~= before.last());
            }
        } else {
            lemma_scan(front, seq![b] + line);
            let before = byte_lines(front);
            assert(before.last().push(b) + line =~= before.last() + (seq![b] + line));
            assert(joined =~= before.drop_last().push(before.last() + (seq![b] + line)));
        }
    }
}

/// Reading a file from its end finds what its last line that speaks of a turn
/// says of it.
pub proof fn law_reading_backwards_finds_the_last_turn(content: Seq<u8>)
    ensures
        read_backwards(content) == last_turn(byte_lines(content)),
{
    lemma_scan(content, Seq::empty());
    let lines = byte_lines(content);
    assert(lines.last() + Seq::<u8>::empty() =~= lines.last());
    assert(lines.drop_last().push(lines.last()) =~= lines);
}

/// It makes no difference in which chunks a file is read from its end.
pub proof fn law_chunks_make_no_difference(line: Seq<u8>, a: Seq<u8>, b: Seq<u8>)
    ensures
        scan(line, a + b) == (match scan(line, b) {
            (Some(turn), rest) => (Some(turn), rest),
            (None, rest) => scan(rest, a),
        }),
    decreases b.len(),
{
    if b.len() == 0 {
        assert(a + b =~= a);
    } else {
        assert((a + b).last() == b.last());
        assert((a + b).drop_last() =~= a + b.drop_last());
        if b.last() == 10 {
            law_chunks_make_no_difference(Seq::empty(), a, b.drop_last());
        } else {
            law_chunks_make_no_difference(seq![b.last()] + line, a, b.drop_last());
        }
    }
}

/// What is known of a session by what it says of itself and its last turn.
pub open spec fn known_by_ends(meta: MetaView, turn: Option<TurnView>) -> ResumeView {
    match turn {
        Some(turn) => ResumeView { thread_id: Some(meta.id), cwd: Some(turn.cwd), model: Some(turn.model) },
        None => ResumeView { thread_id: Some(meta.id), cwd: Some(meta.cwd), model: None },
    }
}

/// What is known of a session by what it says of itself and its last turn.
pub fn state_from_ends(meta: SessionMetadata, turn: Option<TurnContextResumeState>) -> (r: RolloutResumeState)
    ensures
        r@ == known_by_ends(meta@, opt_turn(turn)),
{
    match turn {
        Some(turn) => RolloutResumeState { thread_id: Some(meta.id), cwd: Some(turn.cwd), model: Some(turn.model) },
        None => RolloutResumeState { thread_id: Some(meta.id), cwd: Some(meta.cwd), model: None },
    }
}

/// What the last of the records on a turn says.
pub open spec fn last_turn_record(records: Seq<RecordView>) -> Option<TurnView>
    decreases records.len(),
{
    if records.len() == 0 {
        None
    } else {
        match records.last() {
            RecordView::Turn(Some(turn)) => Some(turn),
            _ => last_turn_record(records.drop_last()),
        }
    }
}

proof fn lemma_initial_of_front(records: Seq<RecordView>)
    requires
        records.len() > 0,
    ensures
        initial_meta(records.drop_last()) is Some ==> initial_meta(records) == initial_meta(records.drop_last()),
        initial_meta(records) is Some && initial_meta(records.drop_last()) is None ==> (forall|i: int|
            0 <= i < records.len() - 1 ==> #[trigger] records[i] is Malformed) && records.last()
            == RecordView::Session(initial_meta(records)),
    decreases records.len(),
{
    let front = records.drop_last();
    if front.len() > 0 {
        assert(front[0] == records[0]);
        if records[0] is Malformed {
            assert(front.skip(1) =~= records.skip(1).drop_last());
            lemma_initial_of_front(records.skip(1));
            if initial_meta(records) is Some && initial_meta(front) is None {
                assert forall|i: int| 0 <= i < records.len() - 1 implies #[trigger] records[i] is Malformed by {
                    if i > 0 {
                        assert(records.skip(1)[i - 1] == records[i]);
                    }
                }
                assert(records.skip(1).last() == records.last());
            }
        }
    } else {
        reveal_with_fuel(initial_meta, 2);
        assert(records.skip(1) =~= Seq::empty());
    }
}

proof fn lemma_all_malformed(records: Seq<RecordView>)
    requires
        forall|i: int| 0 <= i < records.len() ==> #[trigger] records[i] is Malformed,
    ensures
        after_records(records) == nothing_known(),
        last_turn_record(records) is None,
    decreases records.len(),
{
    if records.len() > 0 {
        assert(records[records.len() - 1] is Malformed);
        assert forall|i: int| 0 <= i < records.drop_last().len() implies #[trigger] records.drop_last()[i] is Malformed by {
            assert(records.drop_last()[i] == records[i]);
        }
        lemma_all_malformed(records.drop_last());
    }
}

/// Where a session says at once which it is, its first record and its last turn
/// tell as much as all of its records do.
pub proof fn law_ends_tell_as_much_as_all(records: Seq<RecordView>)
    requires
        initial_meta(records) is Some,
    ensures
        after_records(records) == known_by_ends(initial_meta(records)->Some_0, last_turn_record(records)),
    decreases records.len(),
{
    if records.len() > 0 {
        let front = records.drop_last();
        lemma_initial_of_front(records);
        if initial_meta(front) is Some {
            law_ends_tell_as_much_as_all(front);
        } else {
            assert forall|i: int| 0 <= i < front.len() implies #[trigger] front[i] is Malformed by {
                assert(front[i] == records[i]);
            }
            lemma_all_malformed(front);
        }
    }
}

// ---------------------------------------------------------------------
// Decisions
// ---------------------------------------------------------------------

/// Whether the file of a session is compressed.
pub fn is_compressed_rollout_path(path: &str) -> (r: bool)
    ensures
        r == (paths::name_of(path@) matches Some(name) && text::has_suffix(name, ".jsonl.zst"@)),
{
    match paths::file_name(path) {
        Some(name) => text::ends_with(name.as_str(), ".jsonl.zst"),
        None => false,
    }
}

/// The name that the file of a session has while it is not compressed.
pub open spec fn plain_path(path: Seq<char>) -> Seq<char> {
    match text::before_suffix(path, ".zst"@) {
        Some(plain) => plain,
        None => path,
    }
}

/// The plain name of the file of a session, where there is one and it tells that
/// it belongs to the thread.
pub fn verified_rollout_path_for_thread(existing: Option<String>, owner: Option<u128>, thread_id: u128) -> (r: Option<
    String,
>)
    ensures
        text::opt_view(r) == (match existing {
            Some(path) => if owner == Some(thread_id) {
                Some(plain_path(path@))
            } else {
                None
            },
            None => None,
        }),
{
    match (existing, owner) {
        (Some(path), Some(id)) => if id == thread_id {
            match text::strip_suffix(path.as_str(), ".zst") {
                Some(plain) => Some(plain),
                None => Some(path),
            }
        } else {
            None
        },
        _ => None,
    }
}

/// The session to resume: the one that is named, or else the one that its file
/// tells of.
pub fn resolve_session_thread_id(id_str: Option<&str>, read: Option<RolloutResumeState>) -> (r: Option<u128>)
    ensures
        r == (match id_str {
            Some(id) => ids::uuid_value(id@),
            None => match read {
                Some(state) => state.thread_id,
                None => None,
            },
        }),
{
    match id_str {
        Some(id) => match ThreadId::from_string(id) {
            Ok(id) => Some(id.value),
            Err(_) => None,
        },
        None => match read {
            Some(state) => state.thread_id,
            None => None,
        },
    }
}

/// The model of a session: the one on record, or else the one that its file
/// tells of.
pub fn session_model(recorded: Option<String>, read: Option<RolloutResumeState>) -> (r: Option<String>)
    ensures
        text::opt_view(r) == (match recorded {
            Some(model) => Some(model@),
            None => match read {
                Some(state) => text::opt_view(state.model),
                None => None,
            },
        }),
{
    match recorded {
        Some(model) => Some(model),
        None => match read {
            Some(state) => state.model,
            None => None,
        },
    }
}

/// The directory of a session: the one that its file tells of, where that is the
/// file of the session, or else the one on record.
pub open spec fn directory_of(thread_id: u128, read: Option<ResumeView>, recorded: Option<Seq<char>>) -> Option<
    Seq<char>,
> {
    match read {
        Some(state) => if state.thread_id == Some(thread_id) && state.cwd is Some {
            state.cwd
        } else {
            recorded
        },
        None => recorded,
    }
}

/// The directory of a session.
pub fn session_cwd(thread_id: u128, read: Option<RolloutResumeState>, recorded: Option<String>) -> (r: Option<String>)
    ensures
        text::opt_view(r) == directory_of(
            thread_id,
            match read {
                Some(state) => Some(state@),
                None => None,
            },
            text::opt_view(recorded),
        ),
{
    if let Some(state) = read {
        let same = match state.thread_id {
            Some(id) => id == thread_id,
            None => false,
        };
        if same && state.cwd.is_some() {
            return state.cwd;
        }
    }
    recorded
}

/// What is done about the directory of a session that is resumed.
pub enum CwdStep {
    /// Go on in the directory, or in the current one.
    Continue(Option<String>),
    /// Ask whether to go on in the session's directory.
    Prompt { history_cwd: String },
    /// Resume nothing.
    Exit,
}

/// What a user answers.
#[derive(Clone, Copy, Debug, PartialEq, Eq, Structural)]
pub enum CwdChoice {
    Current,
    Session,
    Exit,
}

/// The directory that a session was in: with a file, what is found out about the
/// session goes before what was known of it; without one, the other way round.
pub fn history_cwd(has_path: bool, found: Option<String>, known: Option<String>) -> (r: Option<String>)
    ensures
        text::opt_view(r) == (if has_path {
            match found {
                Some(cwd) => Some(cwd@),
                None => text::opt_view(known),
            }
        } else {
            match known {
                Some(cwd) => Some(cwd@),
                None => text::opt_view(found),
            }
        }),
{
    if has_path {
        match found {
            Some(cwd) => Some(cwd),
            None => known,
        }
    } else {
        match known {
            Some(cwd) => Some(cwd),
            None => found,
        }
    }
}

/// What to do about the directory that a session was in.
pub fn cwd_step(history_cwd: Option<String>, allow_prompt: bool, differs: bool) -> (r: CwdStep)
    ensures
        match history_cwd {
            None => r == CwdStep::Continue(None),
            Some(cwd) => if allow_prompt && differs {
                r matches CwdStep::Prompt { history_cwd } && history_cwd@ == cwd@
            } else {
                r matches CwdStep::Continue(Some(chosen)) && chosen@ == cwd@
            },
        },
{
    match history_cwd {
        None => CwdStep::Continue(None),
        Some(cwd) => if allow_prompt && differs {
            CwdStep::Prompt { history_cwd: cwd }
        } else {
            CwdStep::Continue(Some(cwd))
        },
    }
}

/// What to do after the user's answer.
pub fn on_choice(choice: CwdChoice, current_cwd: String, history_cwd: String) -> (r: CwdStep)
    ensures
        match choice {
            CwdChoice::Current => r matches CwdStep::Continue(Some(cwd)) && cwd@ == current_cwd@,
            CwdChoice::Session => r matches CwdStep::Continue(Some(cwd)) && cwd@ == history_cwd@,
            CwdChoice::Exit => r is Exit,
        },
{
    match choice {
        CwdChoice::Current => CwdStep::Continue(Some(current_cwd)),
        CwdChoice::Session => CwdStep::Continue(Some(history_cwd)),
        CwdChoice::Exit => CwdStep::Exit,
    }
}

/// A record is known by its type, and tells of a session or a turn only where it
/// has a payload; one without a type is none.
pub proof fn law_record_is_known_by_its_type(v: JView, fields: Seq<json::JField>, kind: Seq<char>)
    requires
        v.shape == JShape::Object(fields),
        json::field_of(fields, "type"@) matches Some(t) && t.shape == JShape::Str(kind),
    ensures
        ({
            let payload = json::field_of(fields, "payload"@);
            &&& payload is None || payload->0.shape is Null ==> record_of(v) is Bare
            &&& payload is Some && !(payload->0.shape is Null) ==> {
                &&& kind == "session_meta"@ ==> record_of(v) == RecordView::Session(meta_of(payload->0))
                &&& kind == "turn_context"@ ==> record_of(v) == RecordView::Turn(turn_of(payload->0))
                &&& kind != "session_meta"@ && kind != "turn_context"@ ==> record_of(v) is Other
            }
        }),
{
    reveal_strlit("session_meta");
    reveal_strlit("turn_context");
    assert("session_meta"@[0] != "turn_context"@[0]);
}

/// A value that names no type, or names it by something that is no text, is no
/// record.
pub proof fn law_untyped_value_is_no_record(v: JView, fields: Seq<json::JField>)
    ensures
        v.shape == JShape::Object(fields) && (json::field_of(fields, "type"@) is None || !(json::field_of(
            fields,
            "type"@,
        )->0.shape is Str)) ==> record_of(v) is Malformed,
        v.shape is Null || v.shape is Bool || v.shape is Str ==> record_of(v) is Malformed,
{
}

/// The payload of a session tells its id and its directory, and that of a turn
/// its directory and its model; both parts are needed.
pub proof fn law_payloads_tell_both_parts(payload: JView, fields: Seq<json::JField>)
    requires
        payload.shape == JShape::Object(fields),
    ensures
        turn_of(payload) matches Some(turn) ==> json::field_of(fields, "cwd"@) is Some && json::field_of(
            fields,
            "cwd"@,
        )->0.shape == JShape::Str(turn.cwd) && json::field_of(fields, "model"@) is Some && json::field_of(
            fields,
            "model"@,
        )->0.shape == JShape::Str(turn.model),
        turn_of(payload) is Some <==> json::field_of(fields, "cwd"@) is Some && json::field_of(fields, "cwd"@)->0.shape
            is Str && json::field_of(fields, "model"@) is Some && json::field_of(fields, "model"@)->0.shape is Str,
        meta_of(payload) matches Some(meta) ==> json::field_of(fields, "id"@) is Some && json::field_of(
            fields,
            "id"@,
        )->0.shape is Str && ids::uuid_value(json::field_of(fields, "id"@)->0.shape->Str_0) == Some(meta.id)
            && json::field_of(fields, "cwd"@) is Some && json::field_of(fields, "cwd"@)->0.shape == JShape::Str(
            meta.cwd,
        ),
        meta_of(payload) is Some <==> json::field_of(fields, "id"@) is Some && json::field_of(fields, "id"@)->0.shape
            is Str && ids::uuid_value(json::field_of(fields, "id"@)->0.shape->Str_0) is Some && json::field_of(
            fields,
            "cwd"@,
        ) is Some && json::field_of(fields, "cwd"@)->0.shape is Str,
{
}

/// The first session that is told counts, and the last turn; a turn tells the
/// directory better than a session does, whichever comes first.
pub proof fn law_first_session_and_last_turn_count(state: ResumeView, meta: MetaView, turn: TurnView)
    ensures
        state.thread_id is Some ==> after_record(state, RecordView::Session(Some(meta))) == state,
        state.thread_id is None ==> {
            let next = after_record(state, RecordView::Session(Some(meta)));
            next.thread_id == Some(meta.id) && next.model == state.model && next.cwd == (if state.cwd is Some {
                state.cwd
            } else {
                Some(meta.cwd)
            })
        },
        ({
            let next = after_record(state, RecordView::Turn(Some(turn)));
            next.thread_id == state.thread_id && next.cwd == Some(turn.cwd) && next.model == Some(turn.model)
        }),
        after_record(state, RecordView::Malformed) == state,
        after_record(state, RecordView::Bare) == state,
        after_record(state, RecordView::Other) == state,
        after_record(state, RecordView::Session(None)) == state,
        after_record(state, RecordView::Turn(None)) == state,
{
}

/// The records are those of the lines that are not blank, in order.
pub proof fn law_records_are_those_of_the_lines(a: Seq<Seq<char>>, b: Seq<Seq<char>>, line: Seq<char>)
    ensures
        records_of(a + b) == records_of(a) + records_of(b),
        records_of(seq![line]) == (if text::trimmed(line).len() == 0 {
            Seq::empty()
        } else {
            seq![record_in(text::trimmed(line))]
        }),
    decreases b.len(),
{
    reveal_with_fuel(records_of, 2);
    assert(seq![line].drop_last() =~= Seq::<Seq<char>>::empty());
    assert(records_of(Seq::<Seq<char>>::empty()) =~= Seq::<RecordView>::empty());
    if text::trimmed(line).len() > 0 {
        assert(records_of(seq![line]) =~= seq![record_in(text::trimmed(line))]);
    }
    if b.len() == 0 {
        assert(a + b =~= a);
        assert(records_of(a + b) =~= records_of(a) + records_of(b));
    } else {
        law_records_are_those_of_the_lines(a, b.drop_last(), line);
        assert((a + b).drop_last() =~= a + b.drop_last());
        assert(records_of(a + b) =~= records_of(a) + records_of(b));
    }
}

/// The session of a file is told by its first record, what is none aside, or by
/// nothing.
pub proof fn law_first_record_tells_the_session(records: Seq<RecordView>, i: int)
    requires
        0 <= i < records.len(),
        !(records[i] is Malformed),
        forall|j: int| 0 <= j < i ==> (#[trigger] records[j]) is Malformed,
    ensures
        initial_meta(records) == (match records[i] {
            RecordView::Session(meta) => meta,
            _ => None,
        }),
    decreases i,
{
    if i > 0 {
        assert(records[0] is Malformed);
        assert forall|j: int| 0 <= j < i - 1 implies (#[trigger] records.skip(1)[j]) is Malformed by {
            assert(records[j + 1] is Malformed);
        }
        law_first_record_tells_the_session(records.skip(1), i - 1);
    }
}

/// A line is looked at for a turn only where it says `turn_context`.
pub proof fn law_needle_is_the_type_of_a_turn()
    ensures
        needle().len() == "turn_context"@.len(),
        forall|i: int| 0 <= i < needle().len() ==> #[trigger] needle()[i] as int == "turn_context"@[i] as int,
{
    reveal_strlit("turn_context");
}

/// The directory of a session is the one that its own file tells, and the one on
/// record where the file tells none or is of another thread.
pub proof fn law_own_file_tells_the_directory(thread_id: u128, read: Option<ResumeView>, recorded: Option<Seq<char>>)
    ensures
        (read matches Some(state) && state.thread_id == Some(thread_id) && state.cwd is Some) ==> directory_of(
            thread_id,
            read,
            recorded,
        ) == read->0.cwd,
        read is None || read->0.thread_id != Some(thread_id) || read->0.cwd is None ==> directory_of(
            thread_id,
            read,
            recorded,
        ) == recorded,
{
}

/// The path of a plain file is told without the ending of a compressed one.
pub proof fn law_plain_path(path: Seq<char>)
    ensures
        plain_path(path + ".zst"@) == path,
        !text::has_suffix(path, ".zst"@) ==> plain_path(path) == path,
{
    reveal_strlit(".zst");
    let packed = path + ".zst"@;
    assert(packed.skip(packed.len() - 4) =~= ".zst"@);
    assert(packed.take(packed.len() - 4) =~= path);
}

/// The white space that is taken off a line is that at its ends, and no more.
pub proof fn law_line_is_trimmed_at_its_ends(blank: Seq<u8>, line: Seq<u8>, end: Seq<u8>)
    requires
        line.len() > 0,
        !(line[0] == 32 || line[0] == 9 || line[0] == 10 || line[0] == 12 || line[0] == 13),
        !(line.last() == 32 || line.last() == 9 || line.last() == 10 || line.last() == 12 || line.last() == 13),
        forall|i: int|
            0 <= i < blank.len() ==> (#[trigger] blank[i] == 32 || blank[i] == 9 || blank[i] == 10 || blank[i] == 12
                || blank[i] == 13),
        forall|i: int|
            0 <= i < end.len() ==> (#[trigger] end[i] == 32 || end[i] == 9 || end[i] == 10 || end[i] == 12 || end[i]
                == 13),
    ensures
        space_trimmed(blank + line + end) == line,
{
    lemma_start_trimmed(blank, line + end);
    assert(blank + (line + end) =~= blank + line + end);
    lemma_end_trimmed(line, end);
}

proof fn lemma_start_trimmed(blank: Seq<u8>, rest: Seq<u8>)
    requires
        rest.len() > 0,
        !is_ascii_space(rest[0]),
        forall|i: int| 0 <= i < blank.len() ==> is_ascii_space(#[trigger] blank[i]),
    ensures
        start_trimmed(blank + rest) == rest,
    decreases blank.len(),
{
    if blank.len() == 0 {
        assert(blank + rest =~= rest);
    } else {
        lemma_start_trimmed(blank.skip(1), rest);
        assert(is_ascii_space(blank[0]));
        assert((blank + rest).skip(1) =~= blank.skip(1) + rest);
    }
}

proof fn lemma_end_trimmed(line: Seq<u8>, end: Seq<u8>)
    requires
        line.len() > 0,
        !is_ascii_space(line.last()),
        forall|i: int| 0 <= i < end.len() ==> is_ascii_space(#[trigger] end[i]),
    ensures
        end_trimmed(line + end) == line,
    decreases end.len(),
{
    if end.len() == 0 {
        assert(line + end =~= line);
    } else {
        lemma_end_trimmed(line, end.drop_last());
        assert(is_ascii_space(end[end.len() - 1]));
        assert((line + end).drop_last() =~= line + end.drop_last());
    }
}

/// A line tells of a turn exactly where it is text, is not blank, says so, and is
/// a record of one with both of its parts.
pub proof fn law_line_of_a_turn(line: Seq<u8>)
    ensures
        turn_in(line) is Some ==> valid_utf8(space_trimmed(line)) && holds_bytes(space_trimmed(line), needle()) && record_in(
            decode_utf8(space_trimmed(line)),
        ) == RecordView::Turn(turn_in(line)),
        space_trimmed(line).len() > 0 && valid_utf8(space_trimmed(line)) && holds_bytes(space_trimmed(line), needle())
            && record_in(decode_utf8(space_trimmed(line))) is Turn ==> RecordView::Turn(turn_in(line)) == record_in(
            decode_utf8(space_trimmed(line)),
        ),
        holds_bytes(line, needle()) <==> exists|i: int|
            0 <= i <= line.len() - 12 && #[trigger] line.subrange(i, i + 12) == needle(),
{
    let n = needle();
    if holds_bytes(line, n) {
        let i = choose|i: int| 0 <= i <= line.len() - n.len() && #[trigger] line.subrange(i, i + n.len()) == n;
        assert(line.subrange(i, i + 12) == n);
    }
    assert forall|i: int| 0 <= i <= line.len() - 12 && #[trigger] line.subrange(i, i + 12) == n implies holds_bytes(
        line,
        n,
    ) by {
        assert(line.subrange(i, i + n.len()) == n);
    }
}

/// A record that is written as a list has its two parts in order, and one of
/// another length has none.
pub proof fn law_listed_parts_stand_in_order(v: JView, items: Seq<JView>, name: Seq<char>)
    requires
        v.shape == JShape::Array(items),
    ensures
        items.len() == 2 ==> member_of(v, name, 0) == Some(items[0]) && member_of(v, name, 1) == Some(items[1]),
        items.len() != 2 ==> member_of(v, name, 0) is None && member_of(v, name, 1) is None,
{
}

/// A file that holds nothing but what is no record is as good as empty.
pub proof fn law_file_without_records_is_empty(records: Seq<RecordView>)
    ensures
        (forall|i: int| 0 <= i < records.len() ==> (#[trigger] records[i]) is Malformed) <==> !holds_record(records),
        after_records(Seq::empty()) == (ResumeView { thread_id: None, cwd: None, model: None }),
{
}

} // verus!
