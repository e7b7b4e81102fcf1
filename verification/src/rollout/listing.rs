//! Pages of thread summaries, newest first.

use vstd::prelude::*;

use crate::ids::ThreadId;
use crate::moment;
use crate::moment::Timestamp;
use crate::ordering;
use crate::ordering::Keyed;
use crate::paths;
use crate::rollout::filename;
use crate::rollout::head::HeadTailSummary;
use crate::text;

verus! {

/// The most files that one request looks at.
pub const MAX_SCAN_FILES: usize = 10000;

/// The time that a listing is ordered by.
#[derive(Clone, Copy, Debug, PartialEq, Eq, Structural)]
pub enum ThreadSortKey {
    CreatedAt,
    UpdatedAt,
}

/// The direction of a listing.
#[derive(Clone, Copy, Debug, PartialEq, Eq, Structural)]
pub enum SortDirection {
    Asc,
    Desc,
}

/// How rollout files lie in their root.
#[derive(Clone, Copy, Debug, PartialEq, Eq, Structural)]
pub enum ThreadListLayout {
    NestedByDate,
    Flat,
}

/// A page of thread summaries.
#[derive(Debug, PartialEq)]
pub struct ThreadsPage {
    /// Thread summaries, newest first.
    pub items: Vec<ThreadItem>,
    /// Where the next page resumes, or `None` at the end.
    pub next_cursor: Option<Cursor>,
    /// How many files the request looked at.
    pub num_scanned_files: usize,
    /// Whether the request hit the cap on files.
    pub reached_scan_cap: bool,
}

/// The summary of one rollout file.
#[derive(Debug, PartialEq)]
pub struct ThreadItem {
    pub path: String,
    pub thread_id: Option<ThreadId>,
    pub first_user_message: Option<String>,
    pub preview: Option<String>,
    pub cwd: Option<String>,
    pub git_branch: Option<String>,
    pub git_sha: Option<String>,
    pub git_origin_url: Option<String>,
    pub source: Option<String>,
    pub parent_thread_id: Option<ThreadId>,
    pub agent_nickname: Option<String>,
    pub agent_role: Option<String>,
    pub model_provider: Option<String>,
    pub cli_version: Option<String>,
    pub created_at: Option<String>,
    pub updated_at: Option<String>,
}

/// Marks the time of the last item of a page.
#[derive(Clone, Copy, Debug, PartialEq, Eq, Structural)]
pub struct Cursor {
    pub ts: Timestamp,
}

impl Cursor {
    /// The cursor at `ts`.
    pub fn new(ts: Timestamp) -> (r: Cursor)
        ensures
            r.ts == ts,
    {
        Cursor { ts }
    }

    /// The time that the cursor marks.
    pub fn timestamp(&self) -> (r: Timestamp)
        ensures
            r == self.ts,
    {
        self.ts
    }

    /// The token of a cursor, which `parse_cursor` reads back.
    pub fn token(&self) -> (r: Option<String>)
        ensures
            text::opt_view(r) == moment::rfc3339_text(self.ts.nanos, self.ts.offset_seconds),
            r matches Some(t) ==> moment::rfc3339_value(t@) == Some((self.ts.nanos, self.ts.offset_seconds)),
    {
        moment::format_rfc3339(self.ts)
    }
}

/// The time that a cursor token writes: RFC 3339, or else the stamp of a
/// rollout file's name. A bar makes it no token.
pub open spec fn token_time(token: Seq<char>) -> Option<(int, int)> {
    if token.contains('|') {
        None
    } else {
        match moment::rfc3339_value(token) {
            Some((nanos, offset)) => Some((nanos as int, offset as int)),
            None => match moment::dashed_value(token) {
                Some(seconds) => Some((seconds * moment::NANOS_PER_SECOND, 0)),
                None => None,
            },
        }
    }
}

/// Reads a cursor token.
pub fn parse_cursor(token: &str) -> (r: Option<Cursor>)
    ensures
        match r {
            Some(c) => token_time(token@) == Some((c.ts.nanos as int, c.ts.offset_seconds as int)),
            None => token_time(token@) is None,
        },
{
    if text::contains_char(token, '|') {
        return None;
    }
    match moment::parse_rfc3339(token) {
        Some(ts) => Some(Cursor { ts }),
        None => match moment::parse_dashed(token) {
            Some(ts) => Some(Cursor { ts }),
            None => None,
        },
    }
}

// ---------------------------------------------------------------------
// Filters
// ---------------------------------------------------------------------

/// Matches sessions by their model provider. A session without one counts as
/// one of the default provider.
#[derive(Debug, PartialEq)]
pub struct ProviderMatcher {
    pub filters: Vec<String>,
    pub matches_default_provider: bool,
}

impl ProviderMatcher {
    /// A matcher for the filters, where there are any.
    pub fn new(filters: &Vec<String>, default_provider: &str) -> (r: Option<ProviderMatcher>)
        ensures
            match r {
                Some(m) => filters@.len() > 0 && m.filters@ == filters@ && m.matches_default_provider == text::views(
                    filters@,
                ).contains(default_provider@),
                None => filters@.len() == 0,
            },
    {
        if filters.len() == 0 {
            return None;
        }
        let matches_default_provider = text::contains_string(filters, default_provider);
        Some(ProviderMatcher { filters: text::clone_strings(filters), matches_default_provider })
    }

    /// Whether a session of the given provider passes.
    pub open spec fn accepts(self, provider: Option<Seq<char>>) -> bool {
        match provider {
            Some(p) => text::views(self.filters@).contains(p),
            None => self.matches_default_provider,
        }
    }

    /// Whether a session of the given provider passes.
    pub fn matches(&self, provider: &Option<String>) -> (r: bool)
        ensures
            r == self.accepts(text::opt_view(*provider)),
    {
        match provider {
            Some(p) => text::contains_string(&self.filters, p.as_str()),
            None => self.matches_default_provider,
        }
    }
}

/// Whether a listing shows the session: its source is allowed, its provider
/// matches, one of the directory filters hits, and it has both metadata and a
/// preview.
pub open spec fn is_listed(
    summary: HeadTailSummary,
    allowed_sources: Seq<String>,
    matcher: Option<ProviderMatcher>,
    cwd_hits: Option<Seq<bool>>,
) -> bool {
    &&& allowed_sources.len() > 0 ==> summary.source is Some && text::views(allowed_sources).contains(
        summary.source->0@,
    )
    &&& matcher matches Some(m) ==> m.accepts(text::opt_view(summary.model_provider))
    &&& cwd_hits matches Some(hits) ==> summary.cwd is Some && hits.contains(true)
    &&& summary.saw_session_meta
    &&& summary.preview is Some
}

/// Whether the item is the one that a listing shows for a session. The time of
/// its creation is the one in the name of its file.
pub open spec fn is_item(item: ThreadItem, path: String, summary: HeadTailSummary, updated_at: Option<String>) -> bool {
    &&& item == (ThreadItem {
        path,
        thread_id: summary.thread_id,
        first_user_message: summary.first_user_message,
        preview: summary.preview,
        cwd: summary.cwd,
        git_branch: summary.git_branch,
        git_sha: summary.git_sha,
        git_origin_url: summary.git_origin_url,
        source: summary.source,
        parent_thread_id: summary.parent_thread_id,
        agent_nickname: summary.agent_nickname,
        agent_role: summary.agent_role,
        model_provider: summary.model_provider,
        cli_version: summary.cli_version,
        created_at: item.created_at,
        updated_at: item.updated_at,
    })
    &&& text::opt_view(item.created_at) == filename::named_time(path@)
    &&& item.created_at is Some <==> filename::named_second(path@) is Some
    &&& text::opt_view(item.updated_at) == (if summary.updated_at is Some {
        text::opt_view(summary.updated_at)
    } else if updated_at is Some {
        text::opt_view(updated_at)
    } else {
        filename::named_time(path@)
    })
}

/// Whether one of the answers is yes.
fn any_hit(hits: &Vec<bool>) -> (r: bool)
    ensures
        r == hits@.contains(true),
{
    let mut i: usize = 0;
    while i < hits.len()
        invariant
            i <= hits.len(),
            forall|j: int| 0 <= j < i ==> hits@[j] != true,
        decreases hits.len() - i,
    {
        if hits[i] {
            assert(hits@[i as int] == true);
            return true;
        }
        i = i + 1;
    }
    false
}

/// Makes the item for a rollout file from the summary of its head, where the
/// filters let it pass. `cwd_hits` tells for each directory filter whether it
/// matches the session's directory; `updated_at` is the time of the file, used
/// where the summary has none. The time of creation is read from the file's name.
pub fn build_thread_item(
    path: String,
    summary: HeadTailSummary,
    allowed_sources: &Vec<String>,
    matcher: Option<&ProviderMatcher>,
    cwd_hits: Option<&Vec<bool>>,
    updated_at: Option<String>,
) -> (r: Option<ThreadItem>)
    ensures
        r is Some <==> is_listed(
            summary,
            allowed_sources@,
            match matcher {
                Some(m) => Some(*m),
                None => None,
            },
            match cwd_hits {
                Some(h) => Some(h@),
                None => None,
            },
        ),
        r matches Some(item) ==> is_item(item, path, summary, updated_at),
{
    if allowed_sources.len() > 0 {
        match &summary.source {
            Some(source) => {
                if !text::contains_string(allowed_sources, source.as_str()) {
                    return None;
                }
            },
            None => return None,
        }
    }
    match matcher {
        Some(m) => {
            if !m.matches(&summary.model_provider) {
                return None;
            }
        },
        None => {},
    }
    match cwd_hits {
        Some(hits) => {
            if summary.cwd.is_none() || !any_hit(hits) {
                return None;
            }
        },
        None => {},
    }
    if !summary.saw_session_meta || summary.preview.is_none() {
        return None;
    }
    let created_at = filename::created_at_in_name(path.as_str());
    let updated_at = match summary.updated_at {
        Some(at) => Some(at),
        None => match updated_at {
            Some(at) => Some(at),
            None => text::clone_opt(&created_at),
        },
    };
    Some(
        ThreadItem {
            path,
            thread_id: summary.thread_id,
            first_user_message: summary.first_user_message,
            preview: summary.preview,
            cwd: summary.cwd,
            git_branch: summary.git_branch,
            git_sha: summary.git_sha,
            git_origin_url: summary.git_origin_url,
            source: summary.source,
            parent_thread_id: summary.parent_thread_id,
            agent_nickname: summary.agent_nickname,
            agent_role: summary.agent_role,
            model_provider: summary.model_provider,
            cli_version: summary.cli_version,
            created_at,
            updated_at,
        },
    )
}

/// Makes the item for a single rollout file, without filters.
pub fn read_thread_item_from_rollout(path: String, summary: HeadTailSummary) -> (r: Option<ThreadItem>)
    ensures
        r is Some <==> summary.saw_session_meta && summary.preview is Some,
        r matches Some(item) ==> is_item(item, path, summary, None),
{
    let none: Vec<String> = Vec::new();
    build_thread_item(path, summary, &none, None, None, None)
}

// ---------------------------------------------------------------------
// Scanning candidates
// ---------------------------------------------------------------------

/// Where a listing left off. Newest first, everything is passed over until
/// something older than the anchor comes.
#[derive(Clone, Copy, Debug, PartialEq, Eq, Structural)]
pub struct AnchorState {
    pub ts: Timestamp,
    pub passed: bool,
}

impl AnchorState {
    /// A fresh anchor; without a cursor there is nothing to pass.
    pub fn new(anchor: Option<Cursor>) -> (r: AnchorState)
        ensures
            match anchor {
                Some(c) => r.ts == c.ts && !r.passed,
                None => r.ts.nanos == 0 && r.passed,
            },
    {
        match anchor {
            Some(cursor) => AnchorState { ts: cursor.ts, passed: false },
            None => AnchorState { ts: Timestamp::utc(0), passed: true },
        }
    }

    /// Whether a candidate of the given time is passed over.
    pub fn should_skip(&mut self, ts: Timestamp) -> (r: bool)
        ensures
            r == (!old(self).passed && ts.nanos >= old(self).ts.nanos),
            final(self).ts == old(self).ts,
            final(self).passed == !r,
    {
        if self.passed {
            return false;
        }
        if ts.nanos < self.ts.nanos {
            self.passed = true;
            false
        } else {
            true
        }
    }
}

/// A candidate as a listing sees it: its time, and the item it gives, if any.
pub type Candidate = (int, Option<ThreadItem>);

/// How far a scan has come: whether the anchor is behind it, what the page
/// holds, and whether a further candidate came when the page was full.
#[verifier::ext_equal]
pub struct Scan {
    pub passed: bool,
    pub items: Seq<ThreadItem>,
    pub more: bool,
}

/// One step of a scan.
pub open spec fn scan_step(s: Scan, anchor: int, page_size: nat, c: Candidate) -> Scan {
    if s.more || (!s.passed && c.0 >= anchor) {
        s
    } else if s.items.len() >= page_size {
        Scan { passed: true, more: true, ..s }
    } else {
        Scan {
            passed: true,
            items: match c.1 {
                Some(item) => s.items.push(item),
                None => s.items,
            },
            more: false,
        }
    }
}

/// The scan of all the candidates, in order.
pub open spec fn scan_all(cs: Seq<Candidate>, passed: bool, anchor: int, page_size: nat) -> Scan
    decreases cs.len(),
{
    if cs.len() == 0 {
        Scan { passed, items: Seq::empty(), more: false }
    } else {
        scan_step(scan_all(cs.drop_last(), passed, anchor, page_size), anchor, page_size, cs.last())
    }
}

/// What to do with the candidate that was offered.
#[derive(Clone, Copy, Debug, PartialEq, Eq, Structural)]
pub enum Offer {
    /// It lies before the anchor.
    Skip,
    /// The page is full.
    Stop,
    /// Read the file and hand in the item.
    Build,
}

/// Collects the items of one page.
#[derive(Debug)]
pub struct PageScan {
    pub anchor: AnchorState,
    pub page_size: usize,
    pub items: Vec<ThreadItem>,
    pub more_matches_available: bool,
}

impl PageScan {
    /// How far the scan has come, towards the page size and past the anchor's
    /// time that it keeps.
    pub open spec fn progress(self) -> Scan {
        Scan { passed: self.anchor.passed, items: self.items@, more: self.more_matches_available }
    }

    /// An empty page.
    pub fn new(anchor: Option<Cursor>, page_size: usize) -> (r: PageScan)
        ensures
            r.progress() == scan_all(Seq::empty(), anchor is None, r.anchor.ts.nanos as int, page_size as nat),
            r.page_size == page_size,
            r.items@.len() == 0,
            !r.more_matches_available,
            r.anchor.passed == (anchor is None),
            anchor matches Some(c) ==> r.anchor.ts == c.ts,
            anchor is None ==> r.anchor.ts.nanos == 0,
    {
        PageScan { anchor: AnchorState::new(anchor), page_size, items: Vec::new(), more_matches_available: false }
    }

    /// Offers the next candidate by its time.
    pub fn offer(&mut self, ts: Timestamp) -> (r: Offer)
        requires
            !old(self).more_matches_available,
        ensures
            final(self).page_size == old(self).page_size,
            final(self).anchor.ts == old(self).anchor.ts,
            final(self).items@ == old(self).items@,
            r == (if !old(self).anchor.passed && ts.nanos >= old(self).anchor.ts.nanos {
                Offer::Skip
            } else if old(self).items@.len() >= old(self).page_size {
                Offer::Stop
            } else {
                Offer::Build
            }),
            final(self).anchor.passed == !(r is Skip),
            final(self).more_matches_available == (r is Stop),
            forall|item: Option<ThreadItem>|
                #![trigger scan_step(old(self).progress(), old(self).anchor.ts.nanos as int, old(self).page_size as nat, (ts.nanos as int, item))]
                !(r is Build) ==> scan_step(
                    old(self).progress(),
                    old(self).anchor.ts.nanos as int,
                    old(self).page_size as nat,
                    (ts.nanos as int, item),
                ) == final(self).progress(),
    {
        if self.anchor.should_skip(ts) {
            return Offer::Skip;
        }
        if self.items.len() >= self.page_size {
            self.more_matches_available = true;
            return Offer::Stop;
        }
        Offer::Build
    }

    /// Offers the next candidate of a walk that has looked at `scanned` files.
    pub fn visit(&mut self, ts: Timestamp, scanned: usize) -> (r: Offer)
        requires
            !old(self).more_matches_available,
        ensures
            final(self).page_size == old(self).page_size,
            final(self).anchor.ts == old(self).anchor.ts,
            final(self).items@ == old(self).items@,
            r == (if scanned >= MAX_SCAN_FILES && old(self).items@.len() >= old(self).page_size {
                Offer::Stop
            } else if !old(self).anchor.passed && ts.nanos >= old(self).anchor.ts.nanos {
                Offer::Skip
            } else if old(self).items@.len() >= old(self).page_size {
                Offer::Stop
            } else {
                Offer::Build
            }),
            final(self).more_matches_available == (r is Stop),
            final(self).anchor.passed == (if scanned >= MAX_SCAN_FILES && old(self).items@.len() >= old(self).page_size {
                old(self).anchor.passed
            } else {
                !(r is Skip)
            }),
            r is Skip ==> final(self).progress() == old(self).progress(),
    {
        if scanned >= MAX_SCAN_FILES && self.items.len() >= self.page_size {
            self.more_matches_available = true;
            return Offer::Stop;
        }
        self.offer(ts)
    }

    /// Hands in what the file of the candidate gave.
    pub fn accept(&mut self, item: Option<ThreadItem>)
        requires
            old(self).items@.len() < old(self).page_size,
        ensures
            final(self).page_size == old(self).page_size,
            final(self).anchor == old(self).anchor,
            final(self).more_matches_available == old(self).more_matches_available,
            final(self).items@ == (match item {
                Some(x) => old(self).items@.push(x),
                None => old(self).items@,
            }),
    {
        match item {
            Some(x) => self.items.push(x),
            None => {},
        }
    }

    /// Whether the page has no room left.
    pub fn is_full(&self) -> (r: bool)
        ensures
            r == (self.items@.len() >= self.page_size),
    {
        self.items.len() >= self.page_size
    }

    /// Ends the page. There is a next one where a further candidate came or
    /// the cap on files cut the scan short.
    pub fn finish(self, scanned_files: usize, sort_key: ThreadSortKey) -> (r: ThreadsPage)
        ensures
            is_page(r, self.progress(), scanned_files as nat, sort_key),
    {
        let reached_scan_cap = scanned_files >= MAX_SCAN_FILES;
        let more = self.more_matches_available || (reached_scan_cap && self.items.len() > 0);
        let next_cursor = if more {
            build_next_cursor(&self.items, sort_key)
        } else {
            None
        };
        ThreadsPage { items: self.items, next_cursor, num_scanned_files: scanned_files, reached_scan_cap }
    }
}

/// The time at which the page behind these items resumes.
pub open spec fn resume_time(items: Seq<ThreadItem>, sort_key: ThreadSortKey) -> Option<(int, int)> {
    if items.len() == 0 {
        None
    } else {
        match paths::name_of(items.last().path@) {
            Some(name) => match filename::name_parts(name) {
                Some((seconds, id)) => match sort_key {
                    ThreadSortKey::CreatedAt => Some((seconds * moment::NANOS_PER_SECOND, 0)),
                    ThreadSortKey::UpdatedAt => match items.last().updated_at {
                        Some(at) => match moment::rfc3339_value(at@) {
                            Some((nanos, offset)) => Some((nanos as int, offset as int)),
                            None => None,
                        },
                        None => None,
                    },
                },
                None => None,
            },
            None => None,
        }
    }
}

/// Whether the cursor marks the given time.
pub open spec fn cursor_at(c: Option<Cursor>, at: Option<(int, int)>) -> bool {
    match c {
        Some(c) => at == Some((c.ts.nanos as int, c.ts.offset_seconds as int)),
        None => at is None,
    }
}

/// Whether the page is the end of the given scan.
pub open spec fn is_page(page: ThreadsPage, s: Scan, scanned_files: nat, sort_key: ThreadSortKey) -> bool {
    &&& page.items@ == s.items
    &&& page.num_scanned_files == scanned_files
    &&& page.reached_scan_cap == (scanned_files >= MAX_SCAN_FILES)
    &&& cursor_at(
        page.next_cursor,
        if s.more || (scanned_files >= MAX_SCAN_FILES && s.items.len() > 0) {
            resume_time(s.items, sort_key)
        } else {
            None
        },
    )
}

/// The cursor behind the last item: its creation time as its file's name tells
/// it, or its update time.
pub fn build_next_cursor(items: &Vec<ThreadItem>, sort_key: ThreadSortKey) -> (r: Option<Cursor>)
    ensures
        cursor_at(r, resume_time(items@, sort_key)),
{
    let n: usize = items.len();
    if n == 0 {
        return None;
    }
    let last = &items[n - 1];
    let name = match paths::file_name(last.path.as_str()) {
        Some(name) => name,
        None => return None,
    };
    let created = match filename::parse_timestamp_uuid_from_filename(name.as_str()) {
        Some((created, _)) => created,
        None => return None,
    };
    match sort_key {
        ThreadSortKey::CreatedAt => Some(Cursor { ts: created }),
        ThreadSortKey::UpdatedAt => match &last.updated_at {
            Some(at) => match moment::parse_rfc3339(at.as_str()) {
                Some(ts) => Some(Cursor { ts }),
                None => None,
            },
            None => None,
        },
    }
}

/// The page of a root that does not exist.
pub fn empty_page() -> (r: ThreadsPage)
    ensures
        r.items@.len() == 0,
        r.next_cursor is None,
        r.num_scanned_files == 0,
        !r.reached_scan_cap,
{
    ThreadsPage { items: Vec::new(), next_cursor: None, num_scanned_files: 0, reached_scan_cap: false }
}

/// The candidates with their times and the items that they give.
pub open spec fn candidates_of(stamps: Seq<Timestamp>, built: Seq<Option<ThreadItem>>) -> Seq<Candidate> {
    Seq::new(stamps.len(), |i: int| (stamps[i].nanos as int, built[i]))
}

/// Lists candidates whose files have been read: `stamps` are their times,
/// newest first, and `built` the items that they give.
pub fn traverse_candidates(
    stamps: &Vec<Timestamp>,
    built: Vec<Option<ThreadItem>>,
    anchor: Option<Cursor>,
    page_size: usize,
    scanned_files: usize,
    sort_key: ThreadSortKey,
) -> (r: ThreadsPage)
    requires
        stamps@.len() == built@.len(),
    ensures
        is_page(
            r,
            scan_all(
                candidates_of(stamps@, built@),
                anchor is None,
                match anchor {
                    Some(c) => c.ts.nanos as int,
                    None => 0,
                },
                page_size as nat,
            ),
            scanned_files as nat,
            sort_key,
        ),
{
    let ghost at = match anchor {
        Some(c) => c.ts.nanos as int,
        None => 0,
    };
    let ghost all = candidates_of(stamps@, built@);
    let ghost passed = anchor is None;
    let mut page = PageScan::new(anchor, page_size);
    let mut queue = built;
    let mut i: usize = 0;
    assert(all.take(0) =~= Seq::empty());
    assert(queue@ =~= built@.skip(0));
    while i < stamps.len() && !page.more_matches_available
        invariant
            i <= stamps.len(),
            stamps@.len() == built@.len(),
            queue@ == built@.skip(i as int),
            all == candidates_of(stamps@, built@),
            page.page_size == page_size,
            page.anchor.ts.nanos == at,
            page.progress() == scan_all(all.take(i as int), passed, at, page_size as nat),
        decreases stamps.len() - i,
    {
        let ghost before = page.progress();
        let item = queue.remove(0);
        proof {
            assert(item == built@[i as int]);
            assert(queue@ =~= built@.skip(i + 1));
            assert(all.take(i + 1).drop_last() =~= all.take(i as int));
            assert(all.take(i + 1).last() == (stamps@[i as int].nanos as int, item));
        }
        let offer = page.offer(stamps[i]);
        let ghost stepped = scan_step(before, at, page_size as nat, (stamps@[i as int].nanos as int, item));
        match offer {
            Offer::Build => {
                page.accept(item);
                assert(page.progress() =~= stepped);
            },
            _ => {},
        }
        i = i + 1;
    }
    proof {
        lemma_scan_stops(all, i as int, passed, at, page_size as nat);
        assert(all.take(all.len() as int) =~= all);
    }
    page.finish(scanned_files, sort_key)
}

proof fn lemma_scan_stops(cs: Seq<Candidate>, n: int, passed: bool, anchor: int, page_size: nat)
    requires
        0 <= n <= cs.len(),
        n < cs.len() ==> scan_all(cs.take(n), passed, anchor, page_size).more,
    ensures
        scan_all(cs, passed, anchor, page_size) == scan_all(cs.take(n), passed, anchor, page_size),
    decreases cs.len(),
{
    if n < cs.len() {
        assert(cs.drop_last().take(n) =~= cs.take(n));
        lemma_scan_stops(cs.drop_last(), n, passed, anchor, page_size);
    } else {
        assert(cs.take(n) =~= cs);
    }
}

// ---------------------------------------------------------------------
// What a page holds
// ---------------------------------------------------------------------

/// The items of the candidates behind the anchor.
pub open spec fn matching(cs: Seq<Candidate>, passed: bool, anchor: int) -> Seq<ThreadItem>
    decreases cs.len(),
{
    if cs.len() == 0 {
        Seq::empty()
    } else {
        let before = matching(cs.drop_last(), passed, anchor);
        if behind(cs, cs.len() - 1, passed, anchor) && cs.last().1 is Some {
            before.push(cs.last().1->0)
        } else {
            before
        }
    }
}

/// Whether the candidate at `i` lies behind the anchor: it or one before it is
/// older than the anchor, or there is no anchor.
pub open spec fn behind(cs: Seq<Candidate>, i: int, passed: bool, anchor: int) -> bool {
    passed || exists|j: int| 0 <= j <= i && (#[trigger] cs[j]).0 < anchor
}

proof fn lemma_behind_prefix(cs: Seq<Candidate>, i: int, passed: bool, anchor: int)
    requires
        0 <= i < cs.len() - 1,
    ensures
        behind(cs.drop_last(), i, passed, anchor) == behind(cs, i, passed, anchor),
{
    let t = cs.drop_last();
    if behind(cs, i, passed, anchor) && !passed {
        let j = choose|j: int| 0 <= j <= i && (#[trigger] cs[j]).0 < anchor;
        assert(t[j] == cs[j]);
    }
    if behind(t, i, passed, anchor) && !passed {
        let j = choose|j: int| 0 <= j <= i && (#[trigger] t[j]).0 < anchor;
        assert(t[j] == cs[j]);
    }
}

/// A page holds the first items behind the anchor, as many as there is room
/// for, in the order of the candidates.
pub proof fn law_page_is_prefix_of_matches(cs: Seq<Candidate>, passed: bool, anchor: int, page_size: nat)
    ensures
        ({
            let s = scan_all(cs, passed, anchor, page_size);
            let all = matching(cs, passed, anchor);
            &&& s.items.len() <= page_size
            &&& s.items.len() <= all.len()
            &&& s.items == all.take(s.items.len() as int)
            &&& !s.more ==> s.items == all
            &&& s.more ==> s.items.len() == page_size
            &&& !s.more ==> (s.passed <==> (passed || (cs.len() > 0 && behind(cs, cs.len() - 1, passed, anchor))))
        }),
    decreases cs.len(),
{
    let s = scan_all(cs, passed, anchor, page_size);
    let all = matching(cs, passed, anchor);
    if cs.len() > 0 {
        let n = cs.len() - 1;
        law_page_is_prefix_of_matches(cs.drop_last(), passed, anchor, page_size);
        let before = scan_all(cs.drop_last(), passed, anchor, page_size);
        let earlier = matching(cs.drop_last(), passed, anchor);
        if n > 0 {
            lemma_behind_prefix(cs, n - 1, passed, anchor);
        }
        assert(behind(cs, n, passed, anchor) <==> (passed || cs[n].0 < anchor || (n > 0 && behind(
            cs,
            n - 1,
            passed,
            anchor,
        )))) by {
            if behind(cs, n, passed, anchor) && !passed && cs[n].0 >= anchor {
                let j = choose|j: int| 0 <= j <= n && (#[trigger] cs[j]).0 < anchor;
                assert(0 <= j <= n - 1 && cs[j].0 < anchor);
            }
        }
        assert(s.items =~= all.take(s.items.len() as int));
        if !s.more {
            assert(s.items =~= all);
        }
    } else {
        assert(s.items =~= all.take(0));
    }
}

/// Paging neither repeats nor reorders: over candidates whose times do not
/// increase, every item that a resumed page shows comes from a candidate
/// strictly older than the cursor.
pub proof fn law_resumed_page_is_older(cs: Seq<Candidate>, anchor: int, page_size: nat, k: int) -> (at: int)
    requires
        forall|i: int, j: int| 0 <= i <= j < cs.len() ==> (#[trigger] cs[i]).0 >= (#[trigger] cs[j]).0,
        0 <= k < scan_all(cs, false, anchor, page_size).items.len(),
    ensures
        0 <= at < cs.len(),
        cs[at].0 < anchor,
        cs[at].1 == Some(scan_all(cs, false, anchor, page_size).items[k]),
    decreases cs.len(),
{
    let s = scan_all(cs, false, anchor, page_size);
    let before = scan_all(cs.drop_last(), false, anchor, page_size);
    law_page_is_prefix_of_matches(cs.drop_last(), false, anchor, page_size);
    if k < before.items.len() {
        assert(s.items[k] == before.items[k]);
        let t = cs.drop_last();
        assert forall|i: int, j: int| 0 <= i <= j < t.len() implies (#[trigger] t[i]).0 >= (#[trigger] t[j]).0 by {
            assert(t[i] == cs[i] && t[j] == cs[j]);
        }
        let at = law_resumed_page_is_older(t, anchor, page_size, k);
        assert(t[at] == cs[at]);
        at
    } else {
        let n = cs.len() - 1;
        assert(cs.last() == cs[n]);
        if cs[n].0 >= anchor {
            assert(before.passed);
            let j = choose|j: int| 0 <= j <= n - 1 && (#[trigger] cs.drop_last()[j]).0 < anchor;
            assert(cs.drop_last()[j] == cs[j]);
            assert(cs[j].0 >= cs[n].0);
            assert(false);
        }
        n
    }
}

/// The time that an item is listed by: its last update as it shows it, or its
/// creation as the name of its file tells it. Without a name of that form it has none.
pub open spec fn listed_at(item: ThreadItem, sort_key: ThreadSortKey) -> Option<int> {
    match paths::name_of(item.path@) {
        Some(name) => match filename::name_parts(name) {
            Some((created, _)) => match sort_key {
                ThreadSortKey::CreatedAt => Some(created * 1000000000),
                ThreadSortKey::UpdatedAt => match item.updated_at {
                    Some(at) => match moment::rfc3339_value(at@) {
                        Some((nanos, _)) => Some(nanos as int),
                        None => None,
                    },
                    None => None,
                },
            },
            None => None,
        },
        None => None,
    }
}

/// Whether the candidates come newest first with no two of one time, and each gives
/// an item, if any, of its own time.
pub open spec fn well_timed(cs: Seq<Candidate>, sort_key: ThreadSortKey) -> bool {
    &&& forall|i: int, j: int| 0 <= i < j < cs.len() ==> (#[trigger] cs[i]).0 > (#[trigger] cs[j]).0
    &&& forall|i: int|
        0 <= i < cs.len() ==> ((#[trigger] cs[i]).1 matches Some(item) ==> listed_at(item, sort_key) == Some(cs[i].0))
}

/// The cursor behind a page marks the time of the page's last item: the time of its
/// update in a listing by update, and the time of its creation in one by creation.
pub proof fn law_cursor_marks_the_last_item(items: Seq<ThreadItem>, sort_key: ThreadSortKey)
    ensures
        match resume_time(items, sort_key) {
            Some((at, _)) => items.len() > 0 && listed_at(items.last(), sort_key) == Some(at),
            None => items.len() == 0 || listed_at(items.last(), sort_key) is None,
        },
{
}

/// Paging loses nothing and shows nothing twice: over candidates of different times,
/// newest first, the items of a page together with all that match behind its cursor
/// are exactly all that matched from where the page began, in their order.
pub proof fn law_pages_lose_nothing(
    cs: Seq<Candidate>,
    passed: bool,
    anchor: int,
    page_size: nat,
    sort_key: ThreadSortKey,
)
    requires
        well_timed(cs, sort_key),
        scan_all(cs, passed, anchor, page_size).items.len() > 0,
    ensures
        ({
            let items = scan_all(cs, passed, anchor, page_size).items;
            &&& resume_time(items, sort_key) matches Some((at, _))
            &&& listed_at(items.last(), sort_key) == Some(at)
            &&& items + matching(cs, false, at) == matching(cs, passed, anchor)
        }),
{
    let items = scan_all(cs, passed, anchor, page_size).items;
    let k = lemma_page_end(cs, passed, anchor, page_size);
    law_cursor_marks_the_last_item(items, sort_key);
    assert(listed_at(items.last(), sort_key) == Some(cs[k].0));
}

proof fn lemma_page_end(cs: Seq<Candidate>, passed: bool, anchor: int, page_size: nat) -> (k: int)
    requires
        forall|i: int, j: int| 0 <= i < j < cs.len() ==> (#[trigger] cs[i]).0 > (#[trigger] cs[j]).0,
        scan_all(cs, passed, anchor, page_size).items.len() > 0,
    ensures
        0 <= k < cs.len(),
        cs[k].1 == Some(scan_all(cs, passed, anchor, page_size).items.last()),
        behind(cs, k, passed, anchor),
        scan_all(cs, passed, anchor, page_size).items + matching(cs, false, cs[k].0) == matching(cs, passed, anchor),
    decreases cs.len(),
{
    let s = scan_all(cs, passed, anchor, page_size);
    let front = cs.drop_last();
    let n = cs.len() - 1;
    let before = scan_all(front, passed, anchor, page_size);
    assert forall|i: int| 0 <= i < front.len() implies #[trigger] front[i] == cs[i] by {}
    law_page_is_prefix_of_matches(front, passed, anchor, page_size);
    law_page_is_prefix_of_matches(cs, passed, anchor, page_size);
    assert(cs[n] == cs.last());
    if s.items.len() > before.items.len() {
        lemma_none_behind(cs, cs[n].0);
        assert(before.items.push(s.items.last()) =~= s.items);
        assert(!s.more);
        assert(s.items + matching(cs, false, cs[n].0) =~= matching(cs, passed, anchor));
        if !passed {
            if cs[n].0 >= anchor {
                assert(before.passed);
                assert(behind(front, n - 1, passed, anchor));
                let j = choose|j: int| 0 <= j <= n - 1 && (#[trigger] front[j]).0 < anchor;
                assert(cs[j].0 < anchor);
            } else {
                assert(cs[n].0 < anchor);
            }
        }
        n
    } else {
        assert(s.items == before.items);
        let k = lemma_page_end(front, passed, anchor, page_size);
        assert(cs[k] == front[k]);
        lemma_behind_prefix(cs, k, passed, anchor);
        assert(behind(cs, n, passed, anchor));
        assert(behind(cs, n, false, cs[k].0)) by {
            assert(cs[n].0 < cs[k].0);
        }
        let rest = matching(cs, false, cs[k].0);
        let whole = matching(cs, passed, anchor);
        if cs[n].1 is Some {
            assert(rest == matching(front, false, cs[k].0).push(cs[n].1->0));
            assert(whole == matching(front, passed, anchor).push(cs[n].1->0));
        }
        assert(s.items + rest =~= whole);
        k
    }
}

proof fn lemma_none_behind(cs: Seq<Candidate>, at: int)
    requires
        forall|i: int| 0 <= i < cs.len() ==> (#[trigger] cs[i]).0 >= at,
    ensures
        matching(cs, false, at) == Seq::<ThreadItem>::empty(),
    decreases cs.len(),
{
    if cs.len() > 0 {
        let front = cs.drop_last();
        assert forall|i: int| 0 <= i < front.len() implies (#[trigger] front[i]).0 >= at by {
            assert(front[i] == cs[i]);
        }
        lemma_none_behind(front, at);
    }
}

/// A page hands out a cursor only where there may be more to show: a further
/// candidate came, or the request looked at as many files as it may and has
/// something to show. The page is what was collected, with the files counted.
pub proof fn law_page_is_what_was_collected(page: ThreadsPage, s: Scan, scanned_files: nat, sort_key: ThreadSortKey)
    requires
        is_page(page, s, scanned_files, sort_key),
    ensures
        page.items@ == s.items,
        page.num_scanned_files == scanned_files,
        page.reached_scan_cap <==> scanned_files >= 10000,
        page.next_cursor matches Some(c) ==> {
            &&& s.more || (page.reached_scan_cap && s.items.len() > 0)
            &&& s.items.len() > 0
            &&& listed_at(s.items.last(), sort_key) == Some(c.ts.nanos as int)
        },
        page.next_cursor is None ==> !(s.more || page.reached_scan_cap) || s.items.len() == 0 || listed_at(
            s.items.last(),
            sort_key,
        ) is None,
{
    law_cursor_marks_the_last_item(s.items, sort_key);
}

// ---------------------------------------------------------------------
// Candidates by update time
// ---------------------------------------------------------------------

/// A rollout file with the time of its last change.
#[derive(Debug, PartialEq)]
pub struct ThreadCandidate {
    pub path: String,
    pub id: u128,
    pub updated_at: Option<Timestamp>,
}

/// The nanoseconds that a candidate is ordered by; a file without a time
/// counts as one of the epoch.
pub open spec fn update_nanos(at: Option<Timestamp>) -> int {
    match at {
        Some(t) => t.nanos as int,
        None => 0,
    }
}

/// The nanoseconds that a candidate is ordered by.
pub fn updated_at_or_epoch(at: Option<Timestamp>) -> (r: Timestamp)
    ensures
        r.nanos == update_nanos(at),
{
    match at {
        Some(t) => t,
        None => Timestamp::utc(0),
    }
}

/// Whether a candidate with the given time and identifier is newer than `best`.
pub open spec fn newer(best: ThreadCandidate, updated_at: Option<Timestamp>, id: u128) -> bool {
    update_nanos(updated_at) > update_nanos(best.updated_at) || (update_nanos(updated_at) == update_nanos(
        best.updated_at,
    ) && id > best.id)
}

/// Whether a candidate with the given time and identifier is newer than `best`.
pub fn candidate_is_newer(best: &ThreadCandidate, updated_at: Option<Timestamp>, id: u128) -> (r: bool)
    ensures
        r == newer(*best, updated_at, id),
{
    let a = updated_at_or_epoch(updated_at);
    let b = updated_at_or_epoch(best.updated_at);
    a.nanos > b.nanos || (a.nanos == b.nanos && id > best.id)
}

/// Whether no candidate is newer than one before it.
pub open spec fn newest_first(cs: Seq<ThreadCandidate>) -> bool {
    forall|i: int, j: int|
        0 <= i < j < cs.len() ==> !newer(#[trigger] cs[i], (#[trigger] cs[j]).updated_at, cs[j].id)
}

/// Orders candidates by update time and identifier, newest first.
pub fn order_candidates(candidates: Vec<ThreadCandidate>) -> (r: Vec<ThreadCandidate>)
    ensures
        newest_first(r@),
        r@.to_multiset() == candidates@.to_multiset(),
        r@.len() == candidates@.len(),
{
    let ghost all = candidates@;
    let mut todo = candidates;
    let mut keyed: Vec<Keyed<ThreadCandidate>> = Vec::new();
    assert(all.take(all.len() as int) =~= all);
    while todo.len() > 0
        invariant
            todo@.len() <= all.len(),
            todo@ == all.take(todo@.len() as int),
            keyed@.len() == all.len() - todo@.len(),
            forall|i: int| 0 <= i < keyed@.len() ==> is_keyed(#[trigger] keyed@[i]) && keyed@[i].value == all[all.len()
                - 1 - i],
        decreases todo.len(),
    {
        let c = match todo.pop() {
            Some(c) => c,
            None => return Vec::new(),
        };
        let at = updated_at_or_epoch(c.updated_at);
        keyed.push(Keyed { major: at.nanos, minor: c.id, value: c });
        assert(todo@ =~= all.take(todo@.len() as int));
    }
    let ghost before = keyed@;
    let sorted = ordering::sort_desc(keyed);
    let ghost ordered = sorted@;
    proof {
        assert forall|i: int| 0 <= i < ordered.len() implies is_keyed(#[trigger] ordered[i]) by {
            broadcast use vstd::seq_lib::group_to_multiset_ensures;

            assert(ordered.to_multiset().count(ordered[i]) > 0);
            assert(before.to_multiset().contains(ordered[i]));
            assert(before.contains(ordered[i]));
        }
        lemma_values_permute(all, before, ordered);
    }
    let count: usize = sorted.len();
    let out = strip_keys(sorted, count);
    assert(values(ordered).take(ordered.len() as int) =~= values(ordered));
    proof {
        assert forall|i: int, j: int| 0 <= i < j < out@.len() implies !newer(
            #[trigger] out@[i],
            (#[trigger] out@[j]).updated_at,
            out@[j].id,
        ) by {
            assert(is_keyed(ordered[i]) && is_keyed(ordered[j]));
            assert(!ordering::above(ordered[j], ordered[i]));
        }
    }
    out
}

/// The first candidates without their keys, at most `limit` of them.
fn strip_keys(sorted: Vec<Keyed<ThreadCandidate>>, limit: usize) -> (r: Vec<ThreadCandidate>)
    ensures
        r@ == values(sorted@).take(if limit <= sorted@.len() {
            limit as int
        } else {
            sorted@.len() as int
        }),
{
    let ghost ordered = sorted@;
    let mut rest = sorted;
    let mut out: Vec<ThreadCandidate> = Vec::new();
    assert(rest@ =~= ordered.skip(0));
    while rest.len() > 0 && out.len() < limit
        invariant
            out@.len() <= ordered.len(),
            out@.len() <= limit,
            rest@ == ordered.skip(out@.len() as int),
            out@ == values(ordered).take(out@.len() as int),
        decreases rest.len(),
    {
        let ghost i = out@.len() as int;
        let k = rest.remove(0);
        assert(k == ordered[i]);
        assert(rest@ =~= ordered.skip(i + 1));
        out.push(k.value);
        assert(out@ =~= values(ordered).take(i + 1));
    }
    out
}

/// Whether the key is that of the candidate.
pub open spec fn is_keyed(k: Keyed<ThreadCandidate>) -> bool {
    k.major == update_nanos(k.value.updated_at) && k.minor == k.value.id
}

/// The candidates without their keys.
pub open spec fn values(s: Seq<Keyed<ThreadCandidate>>) -> Seq<ThreadCandidate> {
    s.map_values(|k: Keyed<ThreadCandidate>| k.value)
}

proof fn lemma_values_permute(
    all: Seq<ThreadCandidate>,
    keyed: Seq<Keyed<ThreadCandidate>>,
    ordered: Seq<Keyed<ThreadCandidate>>,
)
    requires
        keyed.len() == all.len(),
        forall|i: int| 0 <= i < keyed.len() ==> (#[trigger] keyed[i]).value == all[all.len() - 1 - i],
        ordered.to_multiset() == keyed.to_multiset(),
    ensures
        values(ordered).to_multiset() == all.to_multiset(),
{
    lemma_map_multiset(ordered, keyed);
    assert(values(keyed) =~= all.reverse());
    lemma_reverse_multiset(all);
}

proof fn lemma_map_multiset(a: Seq<Keyed<ThreadCandidate>>, b: Seq<Keyed<ThreadCandidate>>)
    requires
        a.to_multiset() == b.to_multiset(),
    ensures
        values(a).to_multiset() == values(b).to_multiset(),
    decreases a.len(),
{
    broadcast use vstd::seq_lib::group_to_multiset_ensures;

    assert(a.to_multiset().len() == a.len());
    assert(b.to_multiset().len() == b.len());
    if a.len() == 0 {
        assert(a =~= b);
    } else {
        let x = a.last();
        assert(a.contains(x));
        assert(b.to_multiset().contains(x));
        assert(b.contains(x));
        let i = b.index_of(x);
        let c = b.remove(i);
        assert(a.drop_last() =~= a.remove(a.len() - 1));
        assert(a.drop_last().to_multiset() =~= c.to_multiset());
        lemma_map_multiset(a.drop_last(), c);
        assert(values(a) =~= values(a.drop_last()).push(x.value));
        assert(values(b) =~= values(c).insert(i, x.value));
    }
}

proof fn lemma_reverse_multiset(s: Seq<ThreadCandidate>)
    ensures
        s.reverse().to_multiset() == s.to_multiset(),
    decreases s.len(),
{
    broadcast use vstd::seq_lib::group_to_multiset_ensures;

    if s.len() == 0 {
        assert(s.reverse() =~= s);
    } else {
        lemma_reverse_multiset(s.drop_last());
        assert(s =~= s.drop_last().push(s.last()));
        assert(s.reverse() =~= s.drop_last().reverse().insert(0, s.last()));
    }
}

// ---------------------------------------------------------------------
// The newest file
// ---------------------------------------------------------------------

/// The newest file among those looked at.
#[derive(Debug, PartialEq)]
pub struct LatestCandidateScan {
    pub candidate: Option<ThreadCandidate>,
    pub scanned_files: usize,
    pub saw_more_candidates: bool,
}

/// Whether `best` is the newest of the candidates: one of them, and none of
/// them is newer.
pub open spec fn is_newest(best: Option<ThreadCandidate>, cs: Seq<ThreadCandidate>) -> bool {
    match best {
        Some(b) => cs.contains(b) && forall|i: int|
            0 <= i < cs.len() ==> !newer(b, (#[trigger] cs[i]).updated_at, cs[i].id),
        None => cs.len() == 0,
    }
}

impl LatestCandidateScan {
    /// Nothing looked at yet.
    pub fn new() -> (r: LatestCandidateScan)
        ensures
            r.candidate is None,
            r.scanned_files == 0,
            !r.saw_more_candidates,
            is_newest(r.candidate, Seq::empty()),
    {
        LatestCandidateScan { candidate: None, scanned_files: 0, saw_more_candidates: false }
    }

    /// Looks at one more file.
    pub fn consider(&mut self, c: ThreadCandidate)
        ensures
            final(self).scanned_files == (if old(self).scanned_files < usize::MAX {
                (old(self).scanned_files + 1) as usize
            } else {
                usize::MAX
            }),
            final(self).saw_more_candidates == (old(self).saw_more_candidates || old(self).candidate is Some),
            final(self).candidate == (match old(self).candidate {
                Some(best) => if newer(best, c.updated_at, c.id) {
                    Some(c)
                } else {
                    Some(best)
                },
                None => Some(c),
            }),
    {
        self.scanned_files = self.scanned_files.saturating_add(1);
        let newer_one = match &self.candidate {
            Some(best) => {
                self.saw_more_candidates = true;
                candidate_is_newer(best, c.updated_at, c.id)
            },
            None => true,
        };
        if newer_one {
            self.candidate = Some(c);
        }
    }
}

/// Looking at one more file keeps the newest.
pub proof fn law_consider_keeps_newest(best: Option<ThreadCandidate>, cs: Seq<ThreadCandidate>, c: ThreadCandidate)
    requires
        is_newest(best, cs),
    ensures
        is_newest(
            match best {
                Some(b) => if newer(b, c.updated_at, c.id) {
                    Some(c)
                } else {
                    Some(b)
                },
                None => Some(c),
            },
            cs.push(c),
        ),
{
    let next = cs.push(c);
    assert(next[cs.len() as int] == c);
    match best {
        Some(b) => {
            let i = choose|i: int| 0 <= i < cs.len() && cs[i] == b;
            assert(next[i] == b);
            assert forall|k: int| 0 <= k < cs.len() implies next[k] == cs[k] by {}
        },
        None => {},
    }
}

/// Looks at the files in order, up to the cap.
pub fn latest_by_updated_at(candidates: Vec<ThreadCandidate>) -> (r: LatestCandidateScan)
    ensures
        ({
            let n = if candidates@.len() < MAX_SCAN_FILES {
                candidates@.len() as int
            } else {
                MAX_SCAN_FILES as int
            };
            &&& r.scanned_files == n
            &&& is_newest(r.candidate, candidates@.take(n))
            &&& r.saw_more_candidates == (n > 1)
        }),
{
    let ghost all = candidates@;
    let mut rest = candidates;
    let mut scan = LatestCandidateScan::new();
    assert(all.take(0) =~= Seq::empty());
    assert(rest@ =~= all.skip(0));
    while rest.len() > 0 && scan.scanned_files < MAX_SCAN_FILES
        invariant
            scan.scanned_files <= all.len(),
            scan.scanned_files <= MAX_SCAN_FILES,
            rest@ == all.skip(scan.scanned_files as int),
            is_newest(scan.candidate, all.take(scan.scanned_files as int)),
            scan.saw_more_candidates == (scan.scanned_files > 1),
        decreases rest.len(),
    {
        let ghost i = scan.scanned_files as int;
        let ghost best = scan.candidate;
        let c = rest.remove(0);
        proof {
            assert(c == all[i]);
            assert(rest@ =~= all.skip(i + 1));
            assert(all.take(i + 1) =~= all.take(i).push(c));
            law_consider_keeps_newest(best, all.take(i), c);
        }
        scan.consider(c);
    }
    scan
}

/// How a listing of one item by update time goes on.
#[derive(Debug, PartialEq)]
pub enum LatestPlan {
    /// The shortcut cannot answer: list in full.
    ListAll,
    /// There is no file at all.
    Page(ThreadsPage),
    /// Read this file.
    Build { path: String, updated_at: Option<String> },
}

/// Decides how a listing of one item by update time goes on. Over a nested
/// layout the shortcut gives up at the cap, because the files it saw are not
/// the newest by date.
pub fn plan_latest_page(scan: LatestCandidateScan, layout: ThreadListLayout) -> (r: LatestPlan)
    ensures
        match r {
            LatestPlan::ListAll => scan.scanned_files >= MAX_SCAN_FILES && layout is NestedByDate,
            LatestPlan::Page(page) => !(scan.scanned_files >= MAX_SCAN_FILES && layout is NestedByDate)
                && scan.candidate is None && page.items@.len() == 0 && page.next_cursor is None
                && page.num_scanned_files == scan.scanned_files && page.reached_scan_cap == (scan.scanned_files
                >= MAX_SCAN_FILES),
            LatestPlan::Build { path, updated_at } => !(scan.scanned_files >= MAX_SCAN_FILES
                && layout is NestedByDate) && scan.candidate is Some && path == scan.candidate->0.path && text::opt_view(
                updated_at,
            ) == (match scan.candidate->0.updated_at {
                Some(t) => moment::rfc3339_text(t.nanos, t.offset_seconds),
                None => None,
            }),
        },
{
    let reached_scan_cap = scan.scanned_files >= MAX_SCAN_FILES;
    match layout {
        ThreadListLayout::NestedByDate => {
            if reached_scan_cap {
                return LatestPlan::ListAll;
            }
        },
        ThreadListLayout::Flat => {},
    }
    match scan.candidate {
        Some(c) => {
            let updated_at = match c.updated_at {
                Some(t) => moment::format_rfc3339(t),
                None => None,
            };
            LatestPlan::Build { path: c.path, updated_at }
        },
        None => LatestPlan::Page(
            ThreadsPage {
                items: Vec::new(),
                next_cursor: None,
                num_scanned_files: scan.scanned_files,
                reached_scan_cap,
            },
        ),
    }
}

/// The page of the newest file, where the filters let it pass.
pub fn finish_latest_page(item: Option<ThreadItem>, saw_more: bool, scanned_files: usize) -> (r: Option<ThreadsPage>)
    ensures
        match item {
            Some(x) => r is Some && is_page(
                r->0,
                (Scan { passed: true, items: seq![x], more: saw_more }),
                scanned_files as nat,
                ThreadSortKey::UpdatedAt,
            ),
            None => r is None,
        },
{
    match item {
        Some(x) => {
            let mut page = PageScan::new(None, 1);
            page.items.push(x);
            page.more_matches_available = saw_more;
            assert(page.items@ =~= seq![x]);
            Some(page.finish(scanned_files, ThreadSortKey::UpdatedAt))
        },
        None => None,
    }
}

/// The shortcut for one item agrees with the listing in full: where the first
/// candidate gives an item, that item is the page, and there is more exactly
/// where there are other candidates.
pub proof fn law_latest_page_agrees(cs: Seq<Candidate>, anchor: int)
    requires
        cs.len() > 0,
        cs[0].1 is Some,
    ensures
        scan_all(cs, true, anchor, 1) == (Scan {
            passed: true,
            items: seq![cs[0].1->0],
            more: cs.len() > 1,
        }),
    decreases cs.len(),
{
    if cs.len() == 1 {
        assert(scan_all(cs.drop_last(), true, anchor, 1) == (Scan {
            passed: true,
            items: Seq::empty(),
            more: false,
        }));
        assert(scan_all(cs, true, anchor, 1).items =~= seq![cs[0].1->0]);
    } else {
        law_latest_page_agrees(cs.drop_last(), anchor);
    }
}

// ---------------------------------------------------------------------
// The cap on files
// ---------------------------------------------------------------------

/// How threads are listed.
#[derive(Clone, Copy, Debug, PartialEq, Eq, Structural)]
pub enum ListPlan {
    /// There are none.
    Nothing,
    /// By creation: the files are walked in that order.
    ByCreation,
    /// By update: all files are ordered first.
    ByUpdate,
    /// By update: the one thread that was updated last is tried first.
    LatestFirst,
}

/// How threads are listed. A page of one thread that begins at the newest update
/// is made from the file that was updated last, where that gives a thread.
pub fn plan_listing(root_exists: bool, page_size: usize, cursor: Option<Cursor>, sort_key: ThreadSortKey) -> (r: ListPlan)
    ensures
        r == (if !root_exists {
            ListPlan::Nothing
        } else {
            match sort_key {
                ThreadSortKey::CreatedAt => ListPlan::ByCreation,
                ThreadSortKey::UpdatedAt => if page_size == 1 && cursor is None {
                    ListPlan::LatestFirst
                } else {
                    ListPlan::ByUpdate
                },
            }
        }),
{
    if !root_exists {
        return ListPlan::Nothing;
    }
    match sort_key {
        ThreadSortKey::CreatedAt => ListPlan::ByCreation,
        ThreadSortKey::UpdatedAt => if page_size == 1 && cursor.is_none() {
            ListPlan::LatestFirst
        } else {
            ListPlan::ByUpdate
        },
    }
}

/// The candidate with its creation time and identifier as key.
pub open spec fn creation_keyed(c: ThreadCandidate) -> Keyed<ThreadCandidate> {
    Keyed {
        major: (filename::path_created_seconds(c.path@) * moment::NANOS_PER_SECOND) as i128,
        minor: c.id,
        value: c,
    }
}

/// The candidates by creation time and identifier, last created first.
pub open spec fn creation_order(cs: Seq<ThreadCandidate>) -> Seq<ThreadCandidate> {
    values(ordering::sorted(cs.map_values(|c: ThreadCandidate| creation_keyed(c))))
}

fn key_by_creation(files: Vec<ThreadCandidate>) -> (r: Vec<Keyed<ThreadCandidate>>)
    ensures
        r@ == files@.map_values(|c: ThreadCandidate| creation_keyed(c)),
{
    let ghost all = files@;
    let mut rest = files;
    let mut keyed: Vec<Keyed<ThreadCandidate>> = Vec::new();
    assert(rest@ =~= all.skip(0));
    while rest.len() > 0
        invariant
            keyed@.len() <= all.len(),
            rest@ == all.skip(keyed@.len() as int),
            forall|i: int| 0 <= i < keyed@.len() ==> #[trigger] keyed@[i] == creation_keyed(all[i]),
        decreases rest.len(),
    {
        let ghost n = keyed@.len() as int;
        let c = rest.remove(0);
        assert(c == all[n]);
        assert(rest@ =~= all.skip(n + 1));
        let created = filename::rollout_created_at_from_path(c.path.as_str());
        keyed.push(Keyed { major: created.nanos, minor: c.id, value: c });
    }
    assert(keyed@ =~= all.map_values(|c: ThreadCandidate| creation_keyed(c)));
    keyed
}

/// Orders files by creation time and identifier, last created first.
pub fn order_by_creation(files: Vec<ThreadCandidate>) -> (r: Vec<ThreadCandidate>)
    ensures
        r@ == creation_order(files@),
        r@.len() == files@.len(),
{
    let sorted = ordering::sort_desc(key_by_creation(files));
    let count: usize = sorted.len();
    let ghost ordered = sorted@;
    assert(values(ordered).take(ordered.len() as int) =~= values(ordered));
    strip_keys(sorted, count)
}

/// The files of one day that still fit under the cap. Where not all of them
/// do, the last created are taken.
pub fn take_day_files(day_files: Vec<ThreadCandidate>, scanned_files: usize) -> (r: Vec<ThreadCandidate>)
    ensures
        ({
            let room = if scanned_files < MAX_SCAN_FILES {
                MAX_SCAN_FILES - scanned_files
            } else {
                0
            };
            if day_files@.len() <= room {
                r@ == day_files@
            } else {
                r@ == creation_order(day_files@).take(room)
            }
        }),
{
    let room: usize = if scanned_files < MAX_SCAN_FILES {
        MAX_SCAN_FILES - scanned_files
    } else {
        0
    };
    if day_files.len() <= room {
        return day_files;
    }
    strip_keys(ordering::sort_desc(key_by_creation(day_files)), room)
}

/// Files by creation are none more and none fewer, and none is created after
/// one before it, or at the same time with a larger identifier.
pub proof fn law_creation_order(cs: Seq<ThreadCandidate>)
    ensures
        creation_order(cs).to_multiset() == cs.to_multiset(),
        forall|i: int, j: int|
            0 <= i < j < cs.len() ==> !ordering::above(
                creation_keyed(#[trigger] creation_order(cs)[j]),
                creation_keyed(#[trigger] creation_order(cs)[i]),
            ),
{
    let keyed = cs.map_values(|c: ThreadCandidate| creation_keyed(c));
    let ordered = ordering::sorted(keyed);
    ordering::lemma_sorted(keyed);
    lemma_map_multiset(ordered, keyed);
    assert(values(keyed) =~= cs);
    assert forall|i: int| 0 <= i < ordered.len() implies #[trigger] ordered[i] == creation_keyed(
        values(ordered)[i],
    ) by {
        broadcast use vstd::seq_lib::group_to_multiset_ensures;

        assert(ordered.to_multiset().count(ordered[i]) > 0);
        assert(keyed.to_multiset().contains(ordered[i]));
        assert(keyed.contains(ordered[i]));
    }
    assert forall|i: int, j: int| 0 <= i < j < cs.len() implies !ordering::above(
        creation_keyed(#[trigger] creation_order(cs)[j]),
        creation_keyed(#[trigger] creation_order(cs)[i]),
    ) by {
        assert(ordered[i] == creation_keyed(values(ordered)[i]));
        assert(ordered[j] == creation_keyed(values(ordered)[j]));
    }
}

/// The number of a date directory that a name writes.
pub fn parse_dir_number(name: &str, max: u64) -> (r: Option<u64>)
    ensures
        match r {
            Some(n) => text::parsed_nat(name@, max as nat) == Some(n as nat),
            None => text::parsed_nat(name@, max as nat) is None,
        },
{
    match text::parse_u64(name) {
        Some(n) => if n <= max {
            Some(n)
        } else {
            None
        },
        None => None,
    }
}

/// The names that write numbers, with those numbers as keys.
pub open spec fn numbered(names: Seq<Seq<char>>, max: nat) -> Seq<Keyed<Seq<char>>>
    decreases names.len(),
{
    if names.len() == 0 {
        Seq::empty()
    } else {
        let before = numbered(names.drop_last(), max);
        match text::parsed_nat(names.last(), max) {
            Some(n) => before.push(Keyed { major: n as i128, minor: 0, value: names.last() }),
            None => before,
        }
    }
}

/// The keyed names in characters.
pub open spec fn keyed_views(keyed: Seq<Keyed<String>>) -> Seq<Keyed<Seq<char>>> {
    keyed.map_values(|k: Keyed<String>| Keyed { major: k.major, minor: k.minor, value: k.value@ })
}

proof fn lemma_sorted_views(keyed: Seq<Keyed<String>>)
    ensures
        keyed_views(ordering::sorted(keyed)) == ordering::sorted(keyed_views(keyed)),
    decreases keyed.len(),
{
    if keyed.len() == 0 {
        assert(keyed_views(keyed) =~= Seq::empty());
    } else {
        let x = keyed[0];
        let rest = ordering::sorted(keyed.skip(1));
        lemma_sorted_views(keyed.skip(1));
        assert(keyed_views(keyed).skip(1) =~= keyed_views(keyed.skip(1)));
        lemma_lead_views(rest, x);
        ordering::lemma_sorted(keyed.skip(1));
        ordering::lemma_lead(rest, x);
        let k = ordering::lead(rest, x) as int;
        assert(keyed_views(rest.insert(k, x)) =~= keyed_views(rest).insert(k, keyed_views(keyed)[0]));
    }
}

proof fn lemma_lead_views(s: Seq<Keyed<String>>, x: Keyed<String>)
    ensures
        ordering::lead(keyed_views(s), Keyed { major: x.major, minor: x.minor, value: x.value@ }) == ordering::lead(
            s,
            x,
        ),
    decreases s.len(),
{
    if s.len() > 0 {
        lemma_lead_views(s.skip(1), x);
        assert(keyed_views(s).skip(1) =~= keyed_views(s.skip(1)));
    }
}

/// The date directories among the names, by their numbers, largest first.
pub fn order_date_dirs(names: &Vec<String>, max: u64) -> (r: Vec<String>)
    ensures
        text::views(r@) == ordering::sorted(numbered(text::views(names@), max as nat)).map_values(
            |k: Keyed<Seq<char>>| k.value,
        ),
{
    let mut keyed: Vec<Keyed<String>> = Vec::new();
    let mut i: usize = 0;
    assert(keyed_views(keyed@) =~= numbered(text::views(names@).take(0), max as nat));
    while i < names.len()
        invariant
            i <= names@.len(),
            keyed_views(keyed@) == numbered(text::views(names@).take(i as int), max as nat),
        decreases names.len() - i,
    {
        let ghost all = text::views(names@);
        let ghost held = keyed_views(keyed@);
        assert(all.take(i + 1).drop_last() =~= all.take(i as int));
        match parse_dir_number(names[i].as_str(), max) {
            Some(n) => {
                keyed.push(Keyed { major: n as i128, minor: 0, value: names[i].clone() });
                assert(keyed_views(keyed@) =~= held.push(Keyed { major: n as i128, minor: 0, value: all[i as int] }));
            },
            None => {},
        }
        i = i + 1;
    }
    assert(text::views(names@).take(i as int) =~= text::views(names@));
    let ghost before = keyed@;
    let mut rest = ordering::sort_desc(keyed);
    let ghost ordered = rest@;
    let mut out: Vec<String> = Vec::new();
    assert(rest@ =~= ordered.skip(0));
    while rest.len() > 0
        invariant
            out@.len() <= ordered.len(),
            rest@ == ordered.skip(out@.len() as int),
            forall|k: int| 0 <= k < out@.len() ==> (#[trigger] out@[k])@ == ordered[k].value@,
        decreases rest.len(),
    {
        let ghost n = out@.len() as int;
        let k = rest.remove(0);
        assert(k == ordered[n]);
        assert(rest@ =~= ordered.skip(n + 1));
        out.push(k.value);
    }
    proof {
        lemma_sorted_views(before);
        assert(text::views(out@) =~= keyed_views(ordered).map_values(|k: Keyed<Seq<char>>| k.value));
    }
    out
}

/// A token is read as an RFC 3339 time, with its offset, or else as the stamp of
/// a file name, in UTC; one with a bar is no token, whatever else it says.
pub proof fn law_cursor_token_is_a_time(token: Seq<char>)
    ensures
        token.contains('|') ==> token_time(token) is None,
        !token.contains('|') ==> (moment::rfc3339_value(token) matches Some(at) ==> token_time(token) == Some(
            (at.0 as int, at.1 as int),
        )),
        !token.contains('|') && moment::rfc3339_value(token) is None ==> (moment::dashed_value(token) matches Some(s)
            ==> token_time(token) == Some((s * 1_000_000_000, 0int))),
        moment::rfc3339_value(token) is None && moment::dashed_value(token) is None ==> token_time(token) is None,
{
}

/// Of two files the one that was changed later is newer, and of those changed at
/// the same time the one with the larger id; a file without a time counts as one
/// of the start of 1970.
pub proof fn law_newer_is_by_time_and_id(best: ThreadCandidate, at: Timestamp, id: u128)
    ensures
        best.updated_at matches Some(then) ==> newer(best, Some(at), id) == (at.nanos > then.nanos || (at.nanos
            == then.nanos && id > best.id)),
        best.updated_at is None ==> newer(best, Some(at), id) == (at.nanos > 0 || (at.nanos == 0 && id > best.id)),
        best.updated_at matches Some(then) ==> newer(best, None, id) == (0 > then.nanos || (then.nanos == 0 && id
            > best.id)),
        best.updated_at is None ==> newer(best, None, id) == (id > best.id),
{
}

} // verus!
