//! When the status in the tab of a terminal changes.

use vstd::prelude::*;

use crate::text;
use crate::tui::tab_status::TabStatus;

verus! {

/// How long, in milliseconds, a detail stays before it is replaced.
pub const DETAIL_THROTTLE_MS: u64 = 250;

/// How many characters of a detail are shown.
pub const DETAIL_LIMIT: usize = 200;

/// A status with what it is about.
#[derive(Debug, PartialEq)]
pub struct TabStatusLine {
    pub status: TabStatus,
    pub detail: Option<String>,
}

/// A status with what it is about, in characters.
#[verifier::ext_equal]
pub struct LineView {
    pub status: TabStatus,
    pub detail: Option<Seq<char>>,
}

impl View for TabStatusLine {
    type V = LineView;

    open spec fn view(&self) -> LineView {
        LineView { status: self.status, detail: text::opt_view(self.detail) }
    }
}

/// The status in the tab of a terminal: whether it is shown at all, the one that
/// is shown and since when, and what is, and was last, being done.
pub struct TabStatusState {
    pub enabled: bool,
    pub last: Option<TabStatusLine>,
    pub shown_at_ms: u64,
    pub activity: Option<String>,
    pub past_activity: Option<String>,
}

/// Whether the character would steer the terminal.
pub open spec fn is_control(c: char) -> bool {
    c < ' ' || ('\u{7f}' <= c && c <= '\u{9f}')
}

/// The characters that do not steer the terminal.
pub open spec fn printable(s: Seq<char>) -> Seq<char> {
    s.filter(|c: char| !is_control(c))
}

/// A detail as it is shown: without what would steer the terminal, and cut where
/// it is too long.
pub open spec fn shown_detail(s: Seq<char>) -> Seq<char> {
    if printable(s).len() <= DETAIL_LIMIT {
        printable(s)
    } else {
        printable(s).take(DETAIL_LIMIT as int).push('\u{2026}')
    }
}

/// A status as it is shown.
pub open spec fn shown_line(line: LineView) -> LineView {
    LineView {
        status: line.status,
        detail: match line.detail {
            Some(detail) => Some(shown_detail(detail)),
            None => None,
        },
    }
}

/// The status that was shown last.
pub open spec fn opt_line(line: Option<TabStatusLine>) -> Option<LineView> {
    match line {
        Some(line) => Some(line@),
        None => None,
    }
}

/// What is being done, but for spaces around it; nothing where only spaces are.
pub open spec fn told_activity(activity: Option<Seq<char>>) -> Option<Seq<char>> {
    match activity {
        Some(s) => if text::trimmed(s).len() == 0 {
            None
        } else {
            Some(text::trimmed(s))
        },
        None => None,
    }
}

fn sanitize(s: &str) -> (r: String)
    ensures
        r@ == shown_detail(s@),
{
    let cs = text::char_vec(s);
    let ghost keep = |c: char| !is_control(c);
    let mut kept: Vec<char> = Vec::new();
    let mut i: usize = 0;
    proof {
        reveal(Seq::filter);
        assert(cs@.take(0) =~= Seq::empty());
    }
    while i < cs.len()
        invariant
            i <= cs@.len(),
            keep == (|c: char| !is_control(c)),
            kept@ == cs@.take(i as int).filter(keep),
        decreases cs@.len() - i,
    {
        proof {
            reveal(Seq::filter);
            assert(cs@.take(i + 1).drop_last() =~= cs@.take(i as int));
        }
        let c = cs[i];
        if !(c < ' ' || ('\u{7f}' <= c && c <= '\u{9f}')) {
            kept.push(c);
        }
        i = i + 1;
    }
    assert(cs@.take(cs@.len() as int) =~= cs@);
    if kept.len() <= DETAIL_LIMIT {
        assert(kept@.subrange(0, kept@.len() as int) =~= kept@);
        text::slice_of(&kept, 0, kept.len())
    } else {
        let mut out = text::slice_of(&kept, 0, DETAIL_LIMIT);
        assert(kept@.subrange(0, DETAIL_LIMIT as int) =~= kept@.take(DETAIL_LIMIT as int));
        out.push('\u{2026}');
        out
    }
}

fn show(line: &TabStatusLine) -> (r: TabStatusLine)
    ensures
        r@ == shown_line(line@),
{
    let detail = match &line.detail {
        Some(detail) => Some(sanitize(detail.as_str())),
        None => None,
    };
    TabStatusLine { status: line.status, detail }
}

fn same_text(a: &Option<String>, b: &Option<String>) -> (r: bool)
    ensures
        r == (text::opt_view(*a) == text::opt_view(*b)),
{
    match (a, b) {
        (Some(a), Some(b)) => text::str_eq(a.as_str(), b.as_str()),
        (None, None) => true,
        _ => false,
    }
}

impl TabStatusState {
    /// Nothing is shown and nothing is done.
    pub fn new() -> (r: Self)
        ensures
            r.enabled,
            r.last is None,
            r.activity is None,
            r.past_activity is None,
    {
        TabStatusState { enabled: true, last: None, shown_at_ms: 0, activity: None, past_activity: None }
    }

    /// Has statuses shown, or not.
    pub fn set_enabled(&mut self, enabled: bool)
        ensures
            *final(self) == (TabStatusState { enabled, ..*old(self) }),
    {
        self.enabled = enabled;
    }

    /// The status to show in order to get to the desired one: none where
    /// statuses are not shown or it is shown already.
    pub open spec fn due(self, desired: LineView) -> bool {
        self.enabled && opt_line(self.last) != Some(shown_line(desired))
    }

    /// The status to show in order to get to the desired one.
    pub fn pending(&self, desired: &TabStatusLine) -> (r: Option<TabStatusLine>)
        ensures
            match r {
                Some(line) => self.due(desired@) && line@ == shown_line(desired@),
                None => !self.due(desired@),
            },
    {
        if !self.enabled {
            return None;
        }
        let line = show(desired);
        match &self.last {
            Some(last) => if last.status == line.status && same_text(&last.detail, &line.detail) {
                None
            } else {
                Some(line)
            },
            None => Some(line),
        }
    }

    /// Notes that the desired status is shown from now on.
    pub fn refresh(&mut self, desired: &TabStatusLine, now_ms: u64)
        ensures
            final(self).enabled == old(self).enabled,
            final(self).activity == old(self).activity,
            final(self).past_activity == old(self).past_activity,
            if old(self).due(desired@) {
                opt_line(final(self).last) == Some(shown_line(desired@)) && final(self).shown_at_ms == now_ms
            } else {
                final(self).last == old(self).last && final(self).shown_at_ms == old(self).shown_at_ms
            },
    {
        if let Some(line) = self.pending(desired) {
            self.last = Some(line);
            self.shown_at_ms = now_ms;
        }
    }

    /// How long a change has to wait: where the status stays and only the detail
    /// changes, until the one that is shown has been there long enough.
    pub open spec fn wait(self, status: TabStatus, now_ms: int) -> Option<int> {
        match self.last {
            Some(last) => if last.status == status && now_ms - self.shown_at_ms < DETAIL_THROTTLE_MS {
                Some(self.shown_at_ms + DETAIL_THROTTLE_MS - now_ms)
            } else {
                None
            },
            None => None,
        }
    }

    /// How long, in milliseconds, a change to the status has to wait at the time.
    pub fn refresh_delay(&self, status: TabStatus, now_ms: u64) -> (r: Option<u64>)
        requires
            self.shown_at_ms <= now_ms,
        ensures
            match r {
                Some(ms) => self.wait(status, now_ms as int) == Some(ms as int),
                None => self.wait(status, now_ms as int) is None,
            },
    {
        match &self.last {
            Some(last) => {
                let elapsed: u64 = now_ms - self.shown_at_ms;
                if last.status == status && elapsed < DETAIL_THROTTLE_MS {
                    Some(DETAIL_THROTTLE_MS - elapsed)
                } else {
                    None
                }
            },
            None => None,
        }
    }

    /// Notes what is being done, and says whether that is news. What was being
    /// done before is remembered.
    pub fn set_current_activity(&mut self, activity: Option<String>) -> (r: bool)
        ensures
            text::opt_view(final(self).activity) == told_activity(text::opt_view(activity)),
            r == (text::opt_view(old(self).activity) != told_activity(text::opt_view(activity))),
            text::opt_view(final(self).past_activity) == (if r && old(self).activity is Some {
                text::opt_view(old(self).activity)
            } else {
                text::opt_view(old(self).past_activity)
            }),
            final(self).enabled == old(self).enabled,
            final(self).last == old(self).last,
            final(self).shown_at_ms == old(self).shown_at_ms,
    {
        let told = match activity {
            Some(s) => {
                let trimmed = text::trim(s.as_str());
                if text::char_vec(trimmed.as_str()).len() == 0 {
                    None
                } else {
                    Some(trimmed)
                }
            },
            None => None,
        };
        if same_text(&self.activity, &told) {
            return false;
        }
        if self.activity.is_some() {
            self.past_activity = text::clone_opt(&self.activity);
        }
        self.activity = told;
        true
    }

    /// What is being done.
    pub fn current_activity(&self) -> (r: &Option<String>)
        ensures
            *r == self.activity,
    {
        &self.activity
    }

    /// What was done before.
    pub fn last_activity(&self) -> (r: &Option<String>)
        ensures
            *r == self.past_activity,
    {
        &self.past_activity
    }

    /// Forgets what was done, for a new turn.
    pub fn reset_for_new_turn(&mut self)
        ensures
            *final(self) == (TabStatusState { activity: None, past_activity: None, ..*old(self) }),
    {
        self.activity = None;
        self.past_activity = None;
    }

    /// The status that is shown.
    pub fn last_status(&self) -> (r: &Option<TabStatusLine>)
        ensures
            *r == self.last,
    {
        &self.last
    }
}

/// A change of the status never waits; one of the detail waits until the one
/// that is shown has been there for the throttle, and no longer.
pub proof fn law_only_details_wait(state: TabStatusState, status: TabStatus, now_ms: u64)
    requires
        state.shown_at_ms <= now_ms,
    ensures
        (state.last matches Some(last) ==> last.status != status) ==> state.wait(status, now_ms as int) is None,
        state.wait(status, now_ms as int) matches Some(ms) ==> 0 < ms <= DETAIL_THROTTLE_MS && state.wait(
            status,
            now_ms + ms,
        ) is None,
{
}

/// What is shown of a detail has a bounded length.
pub proof fn law_detail_is_bounded(s: Seq<char>)
    ensures
        shown_detail(s).len() <= DETAIL_LIMIT + 1,
        forall|i: int| 0 <= i < shown_detail(s).len() ==> !is_control(#[trigger] shown_detail(s)[i]),
{
    broadcast use vstd::seq_lib::group_filter_ensures;

    let keep = |c: char| !is_control(c);
    assert forall|i: int| 0 <= i < shown_detail(s).len() implies !is_control(#[trigger] shown_detail(s)[i]) by {
        if i < printable(s).len() && i < DETAIL_LIMIT {
            assert(keep(s.filter(keep)[i]));
        }
    }
}

/// A detail is shown as it is where it holds nothing but printable characters, up
/// to 200 of them; a longer one is cut there and marked.
pub proof fn law_detail_is_shown_as_it_is(s: Seq<char>)
    requires
        forall|i: int| 0 <= i < s.len() ==> (#[trigger] s[i]) >= ' ' && !('\u{7f}' <= s[i] <= '\u{9f}'),
    ensures
        s.len() <= 200 ==> shown_detail(s) == s,
        s.len() > 200 ==> shown_detail(s).len() == 201 && shown_detail(s).take(200) == s.take(200) && shown_detail(
            s,
        ).last() == '\u{2026}',
{
    lemma_all_printable(s);
    if s.len() > 200 {
        assert(shown_detail(s).take(200) =~= s.take(200));
    }
}

proof fn lemma_all_printable(s: Seq<char>)
    requires
        forall|i: int| 0 <= i < s.len() ==> !is_control(#[trigger] s[i]),
    ensures
        printable(s) == s,
    decreases s.len(),
{
    reveal(Seq::filter);
    if s.len() > 0 {
        let front = s.drop_last();
        assert forall|i: int| 0 <= i < front.len() implies !is_control(#[trigger] front[i]) by {
            assert(front[i] == s[i]);
        }
        lemma_all_printable(front);
        assert(!is_control(s[s.len() - 1]));
        assert(s =~= front.push(s.last()));
    }
}

/// A character that cannot be printed is left out, and what stands around it
/// closes up.
pub proof fn law_control_characters_are_left_out(a: Seq<char>, c: char, b: Seq<char>)
    ensures
        printable(a + b) == printable(a) + printable(b),
        c < ' ' || '\u{7f}' <= c <= '\u{9f}' ==> printable(a + seq![c] + b) == printable(a + b),
{
    let keep = |c: char| !is_control(c);
    Seq::filter_distributes_over_add(a, b, keep);
    Seq::filter_distributes_over_add(a + seq![c], b, keep);
    Seq::filter_distributes_over_add(a, seq![c], keep);
    reveal_with_fuel(Seq::filter, 2);
    assert(seq![c].drop_last() =~= Seq::<char>::empty());
    if is_control(c) {
        assert(seq![c].filter(keep) =~= Seq::<char>::empty());
        assert(printable(a + seq![c] + b) =~= printable(a + b));
    }
}

/// A line is shown where lines are and it is not the one that is there already.
/// An activity that is blank is none.
pub proof fn law_line_is_shown_once(state: TabStatusState, desired: LineView, activity: Option<Seq<char>>)
    ensures
        state.due(desired) <==> state.enabled && (state.last matches Some(last) ==> last@ != shown_line(desired)),
        shown_line(desired).status == desired.status,
        desired.detail matches Some(detail) ==> shown_line(desired).detail == Some(shown_detail(detail)),
        desired.detail is None ==> shown_line(desired).detail is None,
        activity matches Some(s) ==> told_activity(activity) == (if text::trimmed(s).len() == 0 {
            None
        } else {
            Some(text::trimmed(s))
        }),
        activity is None ==> told_activity(activity) is None,
{
}

/// A line of the same status waits until a quarter of a second has passed since
/// the one before it.
pub proof fn law_same_status_waits_a_quarter_second(state: TabStatusState, status: TabStatus, now_ms: int)
    ensures
        state.last matches Some(last) ==> last.status == status && now_ms - state.shown_at_ms < 250 ==> state.wait(
            status,
            now_ms,
        ) == Some(state.shown_at_ms + 250 - now_ms),
        now_ms - state.shown_at_ms >= 250 ==> state.wait(status, now_ms) is None,
        state.last is None ==> state.wait(status, now_ms) is None,
{
}

} // verus!
