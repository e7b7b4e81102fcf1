//! The status that is shown in the tab of a terminal.

use vstd::prelude::*;


verus! {

/// What a session is doing.
#[derive(Clone, Copy, Debug, PartialEq, Eq, Structural)]
pub enum TabStatus {
    Working,
    Waiting,
    Idle,
}

impl TabStatus {
    /// What the tab says.
    pub open spec fn word(self) -> Seq<char> {
        match self {
            TabStatus::Working => "Working"@,
            TabStatus::Waiting => "Waiting"@,
            TabStatus::Idle => "Idle"@,
        }
    }

    /// The color of the dot in the tab.
    pub open spec fn dot(self) -> Seq<char> {
        match self {
            TabStatus::Working => "#ff9500"@,
            TabStatus::Waiting => "#5f87ff"@,
            TabStatus::Idle => "#00d75f"@,
        }
    }

    /// The color of the text in the tab: the one of the dot, but for a dim one
    /// where nothing is done.
    pub open spec fn ink(self) -> Seq<char> {
        match self {
            TabStatus::Idle => "#888888"@,
            _ => self.dot(),
        }
    }

    /// What the tab says.
    pub fn label(self) -> (r: &'static str)
        ensures
            r@ == self.word(),
    {
        match self {
            TabStatus::Working => "Working",
            TabStatus::Waiting => "Waiting",
            TabStatus::Idle => "Idle",
        }
    }

    /// The color of the dot in the tab.
    pub fn indicator(self) -> (r: &'static str)
        ensures
            r@ == self.dot(),
    {
        match self {
            TabStatus::Working => "#ff9500",
            TabStatus::Waiting => "#5f87ff",
            TabStatus::Idle => "#00d75f",
        }
    }

    /// The color of the text in the tab.
    pub fn text_color(self) -> (r: &'static str)
        ensures
            r@ == self.ink(),
    {
        match self {
            TabStatus::Working => "#ff9500",
            TabStatus::Waiting => "#5f87ff",
            TabStatus::Idle => "#888888",
        }
    }
}

/// What makes a terminal show the fields in its tab.
pub open spec fn sequence(status: Seq<char>, indicator: Seq<char>, color: Seq<char>) -> Seq<char> {
    "\x1b]21337;status="@ + status + ";indicator="@ + indicator + ";status-color="@ + color + "\x07"@
}

fn compose(status: &str, indicator: &str, color: &str) -> (r: String)
    ensures
        r@ == sequence(status@, indicator@, color@),
{
    let mut out = "\x1b]21337;status=".to_string();
    out.push_str(status);
    out.push_str(";indicator=");
    out.push_str(indicator);
    out.push_str(";status-color=");
    out.push_str(color);
    out.push_str("\x07");
    out
}

/// What makes a terminal show the status in its tab.
pub fn set_tab_status_sequence(status: TabStatus) -> (r: String)
    ensures
        r@ == sequence(status.word(), status.dot(), status.ink()),
{
    compose(status.label(), status.indicator(), status.text_color())
}

/// What makes a terminal show no status in its tab.
pub fn clear_tab_status_sequence() -> (r: String)
    ensures
        r@ == sequence(Seq::empty(), Seq::empty(), Seq::empty()),
{
    proof {
        reveal_strlit("");
        assert(""@ =~= Seq::empty());
    }
    compose("", "", "")
}

/// Whether a status was shown that has not been cleared since. A process that
/// has shown none does not clear what another tool shows in the tab.
pub struct TabStatusOutput {
    pub emitted: bool,
}

impl TabStatusOutput {
    /// What to write in order to show the status; nothing where the output is no
    /// terminal.
    pub fn set(&self, terminal: bool, status: TabStatus) -> (r: Option<String>)
        ensures
            match r {
                Some(out) => terminal && out@ == sequence(status.word(), status.dot(), status.ink()),
                None => !terminal,
            },
    {
        if terminal {
            Some(set_tab_status_sequence(status))
        } else {
            None
        }
    }

    /// What to write in order to clear the status; nothing where the output is no
    /// terminal, or no status was shown.
    pub fn clear(&self, terminal: bool) -> (r: Option<String>)
        ensures
            match r {
                Some(out) => terminal && self.emitted && out@ == sequence(Seq::empty(), Seq::empty(), Seq::empty()),
                None => !terminal || !self.emitted,
            },
    {
        if terminal && self.emitted {
            Some(clear_tab_status_sequence())
        } else {
            None
        }
    }
}

/// Each status has a word and a colour of its own; the word has the colour of the
/// dot but where nothing goes on.
pub proof fn law_statuses_are_told_apart(a: TabStatus, b: TabStatus)
    ensures
        a is Working ==> a.word() == "Working"@ && a.dot() == "#ff9500"@,
        a is Waiting ==> a.word() == "Waiting"@ && a.dot() == "#5f87ff"@,
        a is Idle ==> a.word() == "Idle"@ && a.dot() == "#00d75f"@ && a.ink() == "#888888"@,
        !(a is Idle) ==> a.ink() == a.dot(),
        a.word() == b.word() ==> a == b,
        a.dot() == b.dot() ==> a == b,
{
    reveal_strlit("Working");
    reveal_strlit("Waiting");
    reveal_strlit("Idle");
    reveal_strlit("#ff9500");
    reveal_strlit("#5f87ff");
    reveal_strlit("#00d75f");
    assert("Working"@[1] == 'o' && "Waiting"@[1] == 'a' && "Idle"@[1] == 'd');
    assert("#ff9500"@[1] == 'f' && "#5f87ff"@[1] == '5' && "#00d75f"@[1] == '0');
}

/// A sequence begins with the escape of its kind, ends with the bell, and holds
/// the status, the dot and the colour, in that order.
pub proof fn law_sequence_holds_its_parts(status: Seq<char>, indicator: Seq<char>, color: Seq<char>)
    ensures
        sequence(status, indicator, color) == "\x1b]21337;status="@ + status + ";indicator="@ + indicator
            + ";status-color="@ + color + "\x07"@,
        sequence(status, indicator, color)[0] == '\u{1b}',
        sequence(status, indicator, color).last() == '\u{7}',
{
    reveal_strlit("\x1b]21337;status=");
    reveal_strlit("\x07");
}

} // verus!
