//! Recurrence rules of automations and the instants that they name.
//!
//! Instants are whole seconds since the start of 1970 in UTC.

use vstd::prelude::*;
use vstd::utf8::*;

use crate::text;

verus! {

/// The width in seconds of the window that runs are spread over.
pub const AUTOMATION_RUN_JITTER_WINDOW_SECS: i64 = 120;

/// Whether an automation runs on its own or keeps a thread going.
#[derive(Clone, Copy, Debug, PartialEq, Eq, Structural)]
pub enum AutomationKind {
    Cron,
    Heartbeat,
}

/// How often a schedule fires.
#[derive(Clone, Copy, Debug, PartialEq, Eq, Structural)]
pub enum ScheduleFrequency {
    Minutely,
    Hourly,
    Daily,
    Weekly,
}

/// A day of the week.
#[derive(Clone, Copy, Debug, PartialEq, Eq, Structural)]
pub enum Weekday {
    Mon,
    Tue,
    Wed,
    Thu,
    Fri,
    Sat,
    Sun,
}

impl Weekday {
    /// The days from Monday to this day.
    pub open spec fn index(self) -> int {
        match self {
            Weekday::Mon => 0,
            Weekday::Tue => 1,
            Weekday::Wed => 2,
            Weekday::Thu => 3,
            Weekday::Fri => 4,
            Weekday::Sat => 5,
            Weekday::Sun => 6,
        }
    }

    /// The days from Monday to this day.
    fn number(self) -> (r: i64)
        ensures
            r == self.index(),
    {
        match self {
            Weekday::Mon => 0,
            Weekday::Tue => 1,
            Weekday::Wed => 2,
            Weekday::Thu => 3,
            Weekday::Fri => 4,
            Weekday::Sat => 5,
            Weekday::Sun => 6,
        }
    }
}

/// When an automation runs.
#[derive(Debug, PartialEq, Eq)]
pub struct AutomationSchedule {
    pub frequency: ScheduleFrequency,
    pub interval: u32,
    pub hour: Option<u32>,
    pub minute: Option<u32>,
    pub weekdays: Vec<Weekday>,
    pub one_shot: bool,
}

/// The parts of a schedule.
#[verifier::ext_equal]
pub struct Schedule {
    pub frequency: ScheduleFrequency,
    pub interval: nat,
    pub hour: Option<nat>,
    pub minute: Option<nat>,
    pub weekdays: Seq<Weekday>,
    pub one_shot: bool,
}

/// The value of an optional number.
pub open spec fn opt_nat(v: Option<u32>) -> Option<nat> {
    match v {
        Some(n) => Some(n as nat),
        None => None,
    }
}

impl View for AutomationSchedule {
    type V = Schedule;

    open spec fn view(&self) -> Schedule {
        Schedule {
            frequency: self.frequency,
            interval: self.interval as nat,
            hour: opt_nat(self.hour),
            minute: opt_nat(self.minute),
            weekdays: self.weekdays@,
            one_shot: self.one_shot,
        }
    }
}

// ---------------------------------------------------------------------
// Reading a rule
// ---------------------------------------------------------------------

/// What follows `RRULE:` on the first line that begins with it.
pub open spec fn rule_line(lines: Seq<Seq<char>>) -> Option<Seq<char>>
    decreases lines.len(),
{
    if lines.len() == 0 {
        None
    } else {
        match text::after_prefix(text::trimmed(lines[0]), "RRULE:"@) {
            Some(rest) => Some(text::trimmed(rest)),
            None => rule_line(lines.skip(1)),
        }
    }
}

/// The rule without what stands around it.
pub open spec fn bare_rule(rrule: Seq<char>) -> Seq<char> {
    match rule_line(text::lines_of(rrule)) {
        Some(rule) => rule,
        None => match text::after_prefix(text::trimmed(rrule), "RRULE:"@) {
            Some(rest) => rest,
            None => text::trimmed(rrule),
        },
    }
}

fn find_bare_rule(rrule: &str) -> (r: String)
    ensures
        r@ == bare_rule(rrule@),
{
    let lines = text::lines(rrule);
    let ghost all = text::lines_of(rrule@);
    let mut i: usize = 0;
    assert(all.skip(0) =~= all);
    while i < lines.len()
        invariant
            i <= lines.len(),
            all == text::views(lines@),
            rule_line(all) == rule_line(all.skip(i as int)),
            all == text::lines_of(rrule@),
        decreases lines.len() - i,
    {
        let line = text::trim(lines[i].as_str());
        assert(all.skip(i as int)[0] == lines@[i as int]@);
        assert(all.skip(i as int).skip(1) =~= all.skip(i + 1));
        match text::strip_prefix(line.as_str(), "RRULE:") {
            Some(rest) => return text::trim(rest.as_str()),
            None => {},
        }
        i = i + 1;
    }
    assert(all.skip(all.len() as int) =~= Seq::empty());
    let trimmed = text::trim(rrule);
    match text::strip_prefix(trimmed.as_str(), "RRULE:") {
        Some(rest) => rest,
        None => trimmed,
    }
}

/// The keys and values of the parts of a rule, in order, or the first part
/// that is no pair. Keys and values are made capital; blank parts do not count.
pub open spec fn entries_of(parts: Seq<Seq<char>>) -> Result<Seq<(Seq<char>, Seq<char>)>, Seq<char>>
    decreases parts.len(),
{
    if parts.len() == 0 {
        Ok(Seq::empty())
    } else {
        match entries_of(parts.drop_last()) {
            Err(e) => Err(e),
            Ok(before) => {
                let part = text::trimmed(parts.last());
                if part.len() == 0 {
                    Ok(before)
                } else {
                    match text::split_first(part, '=') {
                        Some((key, value)) => Ok(
                            before.push((text::ascii_upper(key), text::ascii_upper(text::trimmed(value)))),
                        ),
                        None => Err("invalid rrule component: "@ + part),
                    }
                }
            },
        }
    }
}

/// The characters of the pairs.
pub open spec fn pair_views(v: Seq<(String, String)>) -> Seq<(Seq<char>, Seq<char>)> {
    v.map_values(|p: (String, String)| (p.0@, p.1@))
}

fn parse_entries(rule: &str) -> (r: Result<Vec<(String, String)>, String>)
    ensures
        match r {
            Ok(v) => entries_of(text::split_on(rule@, ';')) == Ok::<Seq<(Seq<char>, Seq<char>)>, Seq<char>>(
                pair_views(v@),
            ),
            Err(e) => entries_of(text::split_on(rule@, ';')) == Err::<Seq<(Seq<char>, Seq<char>)>, Seq<char>>(e@),
        },
{
    let parts = text::split(rule, ';');
    let ghost all = text::split_on(rule@, ';');
    let mut out: Vec<(String, String)> = Vec::new();
    let mut i: usize = 0;
    assert(all.take(0) =~= Seq::<Seq<char>>::empty());
    assert(pair_views(out@) =~= Seq::<(Seq<char>, Seq<char>)>::empty());
    while i < parts.len()
        invariant
            i <= parts.len(),
            all == text::views(parts@),
            all == text::split_on(rule@, ';'),
            entries_of(all.take(i as int)) == Ok::<Seq<(Seq<char>, Seq<char>)>, Seq<char>>(pair_views(out@)),
        decreases parts.len() - i,
    {
        let part = text::trim(parts[i].as_str());
        let ghost before = out@;
        proof {
            assert(all.take(i + 1).drop_last() =~= all.take(i as int));
            assert(all.take(i + 1).last() == parts@[i as int]@);
        }
        if !part.as_str().is_empty() {
            match text::split_once(part.as_str(), '=') {
                Some((key, value)) => {
                    let value = text::trim(value.as_str());
                    let pair = (text::to_ascii_upper(key.as_str()), text::to_ascii_upper(value.as_str()));
                    assert(pair_views(before.push(pair)) =~= pair_views(before).push((pair.0@, pair.1@)));
                    out.push(pair);
                },
                None => {
                    let mut message: String = "invalid rrule component: ".to_owned();
                    message.push_str(part.as_str());
                    proof {
                        lemma_entries_stop(all, i + 1);
                    }
                    return Err(message);
                },
            }
        }
        i = i + 1;
    }
    assert(all.take(all.len() as int) =~= all);
    Ok(out)
}

proof fn lemma_entries_stop(parts: Seq<Seq<char>>, n: int)
    requires
        0 <= n <= parts.len(),
        entries_of(parts.take(n)) is Err,
    ensures
        entries_of(parts) == entries_of(parts.take(n)),
    decreases parts.len(),
{
    if n < parts.len() {
        assert(parts.drop_last().take(n) =~= parts.take(n));
        lemma_entries_stop(parts.drop_last(), n);
    } else {
        assert(parts.take(n) =~= parts);
    }
}

/// The value of a key; the last one counts.
pub open spec fn value_of(entries: Seq<(Seq<char>, Seq<char>)>, key: Seq<char>) -> Option<Seq<char>>
    decreases entries.len(),
{
    if entries.len() == 0 {
        None
    } else if entries.last().0 == key {
        Some(entries.last().1)
    } else {
        value_of(entries.drop_last(), key)
    }
}

fn find_value(entries: &Vec<(String, String)>, key: &str) -> (r: Option<String>)
    ensures
        text::opt_view(r) == value_of(pair_views(entries@), key@),
{
    let ghost all = pair_views(entries@);
    let mut n: usize = entries.len();
    assert(all.take(all.len() as int) =~= all);
    while n > 0
        invariant
            n <= entries.len(),
            all == pair_views(entries@),
            value_of(all, key@) == value_of(all.take(n as int), key@),
        decreases n,
    {
        proof {
            assert(all.take(n as int).last() == (entries@[n - 1].0@, entries@[n - 1].1@));
            assert(all.take(n as int).drop_last() =~= all.take(n - 1));
        }
        if text::str_eq(entries[n - 1].0.as_str(), key) {
            return Some(entries[n - 1].1.clone());
        }
        n = n - 1;
    }
    assert(all.take(0) =~= Seq::empty());
    None
}

/// The frequency of a rule.
pub open spec fn frequency_of(value: Option<Seq<char>>) -> Result<ScheduleFrequency, Seq<char>> {
    match value {
        Some(v) => if v == "MINUTELY"@ {
            Ok(ScheduleFrequency::Minutely)
        } else if v == "HOURLY"@ {
            Ok(ScheduleFrequency::Hourly)
        } else if v == "DAILY"@ {
            Ok(ScheduleFrequency::Daily)
        } else if v == "WEEKLY"@ {
            Ok(ScheduleFrequency::Weekly)
        } else {
            Err("unsupported rrule frequency: "@ + v)
        },
        None => Err("rrule must include FREQ"@),
    }
}

/// Whether the outcome is the one that the rules give, error messages
/// compared by their characters.
pub open spec fn same_outcome<T>(r: Result<T, String>, expected: Result<T, Seq<char>>) -> bool {
    match r {
        Ok(v) => expected == Ok::<T, Seq<char>>(v),
        Err(e) => expected == Err::<T, Seq<char>>(e@),
    }
}

fn parse_frequency(value: &Option<String>) -> (r: Result<ScheduleFrequency, String>)
    ensures
        same_outcome(r, frequency_of(text::opt_view(*value))),
{
    match value {
        Some(v) => if text::str_eq(v.as_str(), "MINUTELY") {
            Ok(ScheduleFrequency::Minutely)
        } else if text::str_eq(v.as_str(), "HOURLY") {
            Ok(ScheduleFrequency::Hourly)
        } else if text::str_eq(v.as_str(), "DAILY") {
            Ok(ScheduleFrequency::Daily)
        } else if text::str_eq(v.as_str(), "WEEKLY") {
            Ok(ScheduleFrequency::Weekly)
        } else {
            let mut message: String = "unsupported rrule frequency: ".to_owned();
            message.push_str(v.as_str());
            Err(message)
        },
        None => Err("rrule must include FREQ".to_owned()),
    }
}

/// A number of at most `max`, where the value is there.
pub open spec fn optional_number(value: Option<Seq<char>>, key: Seq<char>, max: nat) -> Result<
    Option<nat>,
    Seq<char>,
> {
    match value {
        None => Ok(None),
        Some(v) => match text::parsed_nat(v, u32::MAX as nat) {
            None => Err("invalid rrule "@ + key),
            Some(n) => if n > max {
                Err("rrule "@ + key + " must be <= "@ + text::decimal(max))
            } else {
                Ok(Some(n))
            },
        },
    }
}

/// Reads a number of at most `max`, where the value is there.
pub fn parse_optional_u32(value: &Option<String>, key: &str, max: u32) -> (r: Result<Option<u32>, String>)
    ensures
        match r {
            Ok(n) => optional_number(text::opt_view(*value), key@, max as nat) == Ok::<Option<nat>, Seq<char>>(
                opt_nat(n),
            ),
            Err(e) => optional_number(text::opt_view(*value), key@, max as nat) == Err::<Option<nat>, Seq<char>>(e@),
        },
{
    match value {
        None => Ok(None),
        Some(v) => match text::parse_u32(v.as_str()) {
            None => {
                let mut message: String = "invalid rrule ".to_owned();
                message.push_str(key);
                Err(message)
            },
            Some(n) => if n > max {
                let mut message: String = "rrule ".to_owned();
                message.push_str(key);
                message.push_str(" must be <= ");
                text::push_decimal(&mut message, max as u64);
                Err(message)
            } else {
                Ok(Some(n))
            },
        },
    }
}

/// The day that a two-letter code names.
pub open spec fn weekday_of(code: Seq<char>) -> Option<Weekday> {
    if code == "MO"@ {
        Some(Weekday::Mon)
    } else if code == "TU"@ {
        Some(Weekday::Tue)
    } else if code == "WE"@ {
        Some(Weekday::Wed)
    } else if code == "TH"@ {
        Some(Weekday::Thu)
    } else if code == "FR"@ {
        Some(Weekday::Fri)
    } else if code == "SA"@ {
        Some(Weekday::Sat)
    } else if code == "SU"@ {
        Some(Weekday::Sun)
    } else {
        None
    }
}

fn parse_weekday(code: &str) -> (r: Option<Weekday>)
    ensures
        r == weekday_of(code@),
{
    if text::str_eq(code, "MO") {
        Some(Weekday::Mon)
    } else if text::str_eq(code, "TU") {
        Some(Weekday::Tue)
    } else if text::str_eq(code, "WE") {
        Some(Weekday::Wed)
    } else if text::str_eq(code, "TH") {
        Some(Weekday::Thu)
    } else if text::str_eq(code, "FR") {
        Some(Weekday::Fri)
    } else if text::str_eq(code, "SA") {
        Some(Weekday::Sat)
    } else if text::str_eq(code, "SU") {
        Some(Weekday::Sun)
    } else {
        None
    }
}

/// The days that the pieces name, or the first that names none.
pub open spec fn days_of(pieces: Seq<Seq<char>>) -> Result<Seq<Weekday>, Seq<char>>
    decreases pieces.len(),
{
    if pieces.len() == 0 {
        Ok(Seq::empty())
    } else {
        match days_of(pieces.drop_last()) {
            Err(e) => Err(e),
            Ok(before) => {
                let code = text::trimmed(pieces.last());
                if code.len() == 0 {
                    Ok(before)
                } else {
                    match weekday_of(code) {
                        Some(day) => Ok(before.push(day)),
                        None => Err("invalid rrule weekday: "@ + code),
                    }
                }
            },
        }
    }
}

/// The days that a value lists.
pub open spec fn weekdays_of(value: Option<Seq<char>>) -> Result<Seq<Weekday>, Seq<char>> {
    match value {
        None => Ok(Seq::empty()),
        Some(v) => days_of(text::split_on(v, ',')),
    }
}

proof fn lemma_days_stop(pieces: Seq<Seq<char>>, n: int)
    requires
        0 <= n <= pieces.len(),
        days_of(pieces.take(n)) is Err,
    ensures
        days_of(pieces) == days_of(pieces.take(n)),
    decreases pieces.len(),
{
    if n < pieces.len() {
        assert(pieces.drop_last().take(n) =~= pieces.take(n));
        lemma_days_stop(pieces.drop_last(), n);
    } else {
        assert(pieces.take(n) =~= pieces);
    }
}

/// Reads the days that a value lists.
pub fn parse_weekdays(value: &Option<String>) -> (r: Result<Vec<Weekday>, String>)
    ensures
        match r {
            Ok(v) => weekdays_of(text::opt_view(*value)) == Ok::<Seq<Weekday>, Seq<char>>(v@),
            Err(e) => weekdays_of(text::opt_view(*value)) == Err::<Seq<Weekday>, Seq<char>>(e@),
        },
{
    let listed = match value {
        None => {
            let none: Vec<Weekday> = Vec::new();
            assert(none@ =~= Seq::<Weekday>::empty());
            return Ok(none);
        },
        Some(v) => v,
    };
    let pieces = text::split(listed.as_str(), ',');
    let ghost all = text::split_on(listed@, ',');
    let mut out: Vec<Weekday> = Vec::new();
    let mut i: usize = 0;
    assert(all.take(0) =~= Seq::<Seq<char>>::empty());
    assert(out@ =~= Seq::<Weekday>::empty());
    while i < pieces.len()
        invariant
            i <= pieces.len(),
            all == text::views(pieces@),
            all == text::split_on(listed@, ','),
            text::opt_view(*value) == Some(listed@),
            days_of(all.take(i as int)) == Ok::<Seq<Weekday>, Seq<char>>(out@),
        decreases pieces.len() - i,
    {
        let code = text::trim(pieces[i].as_str());
        proof {
            assert(all.take(i + 1).drop_last() =~= all.take(i as int));
            assert(all.take(i + 1).last() == pieces@[i as int]@);
        }
        if !code.as_str().is_empty() {
            match parse_weekday(code.as_str()) {
                Some(day) => out.push(day),
                None => {
                    let mut message: String = "invalid rrule weekday: ".to_owned();
                    message.push_str(code.as_str());
                    proof {
                        lemma_days_stop(all, i + 1);
                    }
                    return Err(message);
                },
            }
        }
        i = i + 1;
    }
    assert(all.take(all.len() as int) =~= all);
    Ok(out)
}

/// What is wrong with the combination of parts, if anything.
pub open spec fn shape_fault(s: Schedule) -> Option<Seq<char>> {
    match s.frequency {
        ScheduleFrequency::Minutely => if s.hour is Some || s.minute is Some || s.weekdays.len() > 0 {
            Some("MINUTELY rrules only support FREQ, INTERVAL, and COUNT"@)
        } else {
            None
        },
        ScheduleFrequency::Hourly => if s.hour is Some || s.weekdays.len() > 0 {
            Some("HOURLY rrules only support BYMINUTE, INTERVAL, and COUNT"@)
        } else {
            None
        },
        ScheduleFrequency::Daily => if s.hour is None || s.minute is None {
            Some("DAILY rrules require BYHOUR and BYMINUTE"@)
        } else if s.weekdays.len() > 0 {
            Some("DAILY rrules do not support BYDAY"@)
        } else {
            None
        },
        ScheduleFrequency::Weekly => if s.interval != 1 {
            Some("WEEKLY rrules only support INTERVAL=1"@)
        } else if s.hour is None || s.minute is None {
            Some("WEEKLY rrules require BYHOUR and BYMINUTE"@)
        } else if s.weekdays.len() == 0 {
            Some("WEEKLY rrules require BYDAY"@)
        } else {
            None
        },
    }
}

fn check_shape(s: &AutomationSchedule) -> (r: Option<&'static str>)
    ensures
        match r {
            Some(m) => shape_fault(s@) == Some(m@),
            None => shape_fault(s@) is None,
        },
{
    match s.frequency {
        ScheduleFrequency::Minutely => if s.hour.is_some() || s.minute.is_some() || s.weekdays.len() > 0 {
            Some("MINUTELY rrules only support FREQ, INTERVAL, and COUNT")
        } else {
            None
        },
        ScheduleFrequency::Hourly => if s.hour.is_some() || s.weekdays.len() > 0 {
            Some("HOURLY rrules only support BYMINUTE, INTERVAL, and COUNT")
        } else {
            None
        },
        ScheduleFrequency::Daily => if s.hour.is_none() || s.minute.is_none() {
            Some("DAILY rrules require BYHOUR and BYMINUTE")
        } else if s.weekdays.len() > 0 {
            Some("DAILY rrules do not support BYDAY")
        } else {
            None
        },
        ScheduleFrequency::Weekly => if s.interval != 1 {
            Some("WEEKLY rrules only support INTERVAL=1")
        } else if s.hour.is_none() || s.minute.is_none() {
            Some("WEEKLY rrules require BYHOUR and BYMINUTE")
        } else if s.weekdays.len() == 0 {
            Some("WEEKLY rrules require BYDAY")
        } else {
            None
        },
    }
}

/// The number of a key, where the value is there and is a number.
pub open spec fn plain_number(value: Option<Seq<char>>, message: Seq<char>) -> Result<Option<nat>, Seq<char>> {
    match value {
        None => Ok(None),
        Some(v) => match text::parsed_nat(v, u32::MAX as nat) {
            Some(n) => Ok(Some(n)),
            None => Err(message),
        },
    }
}

fn parse_plain(value: &Option<String>, message: &str) -> (r: Result<Option<u32>, String>)
    ensures
        match r {
            Ok(n) => plain_number(text::opt_view(*value), message@) == Ok::<Option<nat>, Seq<char>>(opt_nat(n)),
            Err(e) => plain_number(text::opt_view(*value), message@) == Err::<Option<nat>, Seq<char>>(e@),
        },
{
    match value {
        None => Ok(None),
        Some(v) => match text::parse_u32(v.as_str()) {
            Some(n) => Ok(Some(n)),
            None => Err(message.to_owned()),
        },
    }
}

/// The schedule that the entries of a rule give, or the first thing that is
/// wrong with them.
pub open spec fn schedule_of(entries: Seq<(Seq<char>, Seq<char>)>) -> Result<Schedule, Seq<char>> {
    match frequency_of(value_of(entries, "FREQ"@)) {
        Err(e) => Err(e),
        Ok(frequency) => match plain_number(value_of(entries, "INTERVAL"@), "invalid rrule INTERVAL"@) {
            Err(e) => Err(e),
            Ok(interval) => if interval == Some(0nat) {
                Err("rrule INTERVAL must be >= 1"@)
            } else {
                match plain_number(value_of(entries, "COUNT"@), "invalid rrule COUNT"@) {
                    Err(e) => Err(e),
                    Ok(count) => if count is Some && count->0 > 1 {
                        Err("rrule COUNT > 1 is not supported"@)
                    } else {
                        let minute = optional_number(value_of(entries, "BYMINUTE"@), "BYMINUTE"@, 59);
                        let hour = optional_number(value_of(entries, "BYHOUR"@), "BYHOUR"@, 23);
                        let days = weekdays_of(value_of(entries, "BYDAY"@));
                        match (minute, hour, days) {
                            (Err(e), _, _) => Err(e),
                            (_, Err(e), _) => Err(e),
                            (_, _, Err(e)) => Err(e),
                            (Ok(minute), Ok(hour), Ok(weekdays)) => {
                                let s = Schedule {
                                    frequency,
                                    interval: match interval {
                                        Some(n) => n,
                                        None => 1,
                                    },
                                    hour,
                                    minute,
                                    weekdays,
                                    one_shot: count == Some(1nat),
                                };
                                match shape_fault(s) {
                                    Some(fault) => Err(fault),
                                    None => Ok(s),
                                }
                            },
                        }
                    },
                }
            },
        },
    }
}

/// The schedule that a rule gives, or what is wrong with it.
pub open spec fn rule_schedule(rrule: Seq<char>) -> Result<Schedule, Seq<char>> {
    match entries_of(text::split_on(bare_rule(rrule), ';')) {
        Err(e) => Err(e),
        Ok(entries) => schedule_of(entries),
    }
}

impl AutomationSchedule {
    /// Reads a recurrence rule.
    pub fn parse(rrule: &str) -> (r: Result<AutomationSchedule, String>)
        ensures
            match r {
                Ok(s) => rule_schedule(rrule@) == Ok::<Schedule, Seq<char>>(s@),
                Err(e) => rule_schedule(rrule@) == Err::<Schedule, Seq<char>>(e@),
            },
    {
        let rule = find_bare_rule(rrule);
        let entries = match parse_entries(rule.as_str()) {
            Ok(entries) => entries,
            Err(e) => return Err(e),
        };
        let freq = find_value(&entries, "FREQ");
        let frequency = match parse_frequency(&freq) {
            Ok(f) => f,
            Err(e) => return Err(e),
        };
        let interval_text = find_value(&entries, "INTERVAL");
        let interval: u32 = match parse_plain(&interval_text, "invalid rrule INTERVAL") {
            Ok(Some(n)) => n,
            Ok(None) => 1,
            Err(e) => return Err(e),
        };
        if interval == 0 {
            return Err("rrule INTERVAL must be >= 1".to_owned());
        }
        let count_text = find_value(&entries, "COUNT");
        let count = match parse_plain(&count_text, "invalid rrule COUNT") {
            Ok(count) => count,
            Err(e) => return Err(e),
        };
        let one_shot = match count {
            Some(n) => {
                if n > 1 {
                    return Err("rrule COUNT > 1 is not supported".to_owned());
                }
                n == 1
            },
            None => false,
        };
        let minute_text = find_value(&entries, "BYMINUTE");
        let minute = match parse_optional_u32(&minute_text, "BYMINUTE", 59) {
            Ok(m) => m,
            Err(e) => return Err(e),
        };
        let hour_text = find_value(&entries, "BYHOUR");
        let hour = match parse_optional_u32(&hour_text, "BYHOUR", 23) {
            Ok(h) => h,
            Err(e) => return Err(e),
        };
        let days_text = find_value(&entries, "BYDAY");
        let weekdays = match parse_weekdays(&days_text) {
            Ok(w) => w,
            Err(e) => return Err(e),
        };
        let schedule = AutomationSchedule { frequency, interval, hour, minute, weekdays, one_shot };
        match check_shape(&schedule) {
            Some(fault) => Err(fault.to_owned()),
            None => Ok(schedule),
        }
    }
}

/// Whether the parts of a schedule are in range and go together.
pub open spec fn sound(s: Schedule) -> bool {
    &&& s.interval >= 1
    &&& s.hour is Some ==> s.hour->0 <= 23
    &&& s.minute is Some ==> s.minute->0 <= 59
    &&& shape_fault(s) is None
}

/// Every schedule that a rule gives is sound.
pub proof fn law_parsed_schedule_is_sound(rrule: Seq<char>)
    requires
        rule_schedule(rrule) is Ok,
    ensures
        sound(rule_schedule(rrule)->Ok_0),
{
}

/// The last value of a key counts, and other keys do not matter.
pub proof fn law_last_value_counts(
    entries: Seq<(Seq<char>, Seq<char>)>,
    key: Seq<char>,
    other: Seq<char>,
    value: Seq<char>,
)
    ensures
        value_of(Seq::empty(), key) is None,
        value_of(entries.push((key, value)), key) == Some(value),
        other != key ==> value_of(entries.push((other, value)), key) == value_of(entries, key),
        value_of(entries, key) matches Some(v) ==> entries.contains((key, v)),
    decreases entries.len(),
{
    assert(entries.push((key, value)).drop_last() =~= entries);
    assert(entries.push((other, value)).drop_last() =~= entries);
    if entries.len() > 0 {
        law_last_value_counts(entries.drop_last(), key, other, value);
        if let Some(v) = value_of(entries, key) {
            if entries.last().0 == key {
                assert(entries[entries.len() - 1] == (key, v));
            } else {
                let i = choose|i: int| 0 <= i < entries.len() - 1 && entries.drop_last()[i] == (key, v);
                assert(entries[i] == (key, v));
            }
        }
    }
}

/// A rule is read part by part: a blank part adds nothing, any other part must be a
/// key and a value with `=` between them, and neither case nor blanks around the
/// part or the value matter.
pub proof fn law_rule_is_read_part_by_part(parts: Seq<Seq<char>>, part: Seq<char>)
    requires
        entries_of(parts) is Ok,
    ensures
        ({
            let before = entries_of(parts)->Ok_0;
            let all = entries_of(parts.push(part));
            let bare = text::trimmed(part);
            &&& bare.len() == 0 ==> all == Ok::<Seq<(Seq<char>, Seq<char>)>, Seq<char>>(before)
            &&& bare.len() > 0 && !bare.contains('=') ==> all is Err
            &&& bare.len() > 0 && bare.contains('=') ==> {
                &&& all is Ok
                &&& all->Ok_0.len() == before.len() + 1
                &&& all->Ok_0.drop_last() == before
                &&& exists|i: int|
                    0 <= i < bare.len() && #[trigger] bare[i] == '=' && !bare.take(i).contains('=') && all->Ok_0.last() == (
                        text::ascii_upper(bare.take(i)),
                        text::ascii_upper(text::trimmed(bare.skip(i + 1))),
                    )
            }
        }),
{
    let whole = parts.push(part);
    assert(whole.drop_last() =~= parts);
    let bare = text::trimmed(part);
    text::lemma_first_index(bare, '=');
    let i = text::first_index(bare, '=');
    if bare.len() > 0 {
        if bare.contains('=') {
            let k = choose|k: int| 0 <= k < bare.len() && bare[k] == '=';
            assert(i <= k);
            assert(bare[i] == '=');
            assert(!bare.take(i).contains('=')) by {
                if bare.take(i).contains('=') {
                    let j = choose|j: int| 0 <= j < i && bare.take(i)[j] == '=';
                    assert(bare[j] == '=');
                }
            }
            assert(entries_of(whole)->Ok_0.drop_last() =~= entries_of(parts)->Ok_0);
        } else if i < bare.len() {
            assert(bare[i] == '=');
        }
    }
}

/// What a schedule takes from the entries of its rule: the frequency that `FREQ`
/// names, the interval, which is one unless it is given, the hour and the minute
/// that are given, the weekdays that are listed, and whether it is for one run.
pub proof fn law_schedule_is_what_the_rule_says(entries: Seq<(Seq<char>, Seq<char>)>)
    ensures
        schedule_of(entries) matches Ok(s) ==> {
            &&& value_of(entries, "FREQ"@) == Some(
                match s.frequency {
                    ScheduleFrequency::Minutely => "MINUTELY"@,
                    ScheduleFrequency::Hourly => "HOURLY"@,
                    ScheduleFrequency::Daily => "DAILY"@,
                    ScheduleFrequency::Weekly => "WEEKLY"@,
                },
            )
            &&& match value_of(entries, "INTERVAL"@) {
                Some(v) => text::parsed_nat(v, u32::MAX as nat) == Some(s.interval),
                None => s.interval == 1,
            }
            &&& s.interval >= 1
            &&& match value_of(entries, "BYMINUTE"@) {
                Some(v) => s.minute is Some && text::parsed_nat(v, u32::MAX as nat) == s.minute && s.minute->0 < 60,
                None => s.minute is None,
            }
            &&& match value_of(entries, "BYHOUR"@) {
                Some(v) => s.hour is Some && text::parsed_nat(v, u32::MAX as nat) == s.hour && s.hour->0 < 24,
                None => s.hour is None,
            }
            &&& match value_of(entries, "COUNT"@) {
                Some(v) => text::parsed_nat(v, u32::MAX as nat) == Some(
                    if s.one_shot {
                        1nat
                    } else {
                        0
                    },
                ),
                None => !s.one_shot,
            }
            &&& weekdays_of(value_of(entries, "BYDAY"@)) == Ok::<Seq<Weekday>, Seq<char>>(s.weekdays)
        },
{
}

/// Which parts go together: a rule by the minute has no hour, minute or weekday, one
/// by the hour no hour or weekday, one by the day an hour and a minute and no
/// weekday, and one by the week an hour, a minute, at least one weekday and an
/// interval of one. Entries that hold to this, with values in range, make a
/// schedule.
pub proof fn law_rule_is_accepted(entries: Seq<(Seq<char>, Seq<char>)>)
    ensures
        ({
            let freq = value_of(entries, "FREQ"@);
            let interval = value_of(entries, "INTERVAL"@);
            let count = value_of(entries, "COUNT"@);
            let hour = value_of(entries, "BYHOUR"@);
            let minute = value_of(entries, "BYMINUTE"@);
            let days = weekdays_of(value_of(entries, "BYDAY"@));
            schedule_of(entries) is Ok <==> {
                &&& interval matches Some(v) ==> text::parsed_nat(v, u32::MAX as nat) matches Some(n) && n >= 1
                &&& count matches Some(v) ==> text::parsed_nat(v, u32::MAX as nat) matches Some(n) && n <= 1
                &&& hour matches Some(v) ==> text::parsed_nat(v, u32::MAX as nat) matches Some(n) && n <= 23
                &&& minute matches Some(v) ==> text::parsed_nat(v, u32::MAX as nat) matches Some(n) && n <= 59
                &&& days is Ok
                &&& {
                    ||| freq == Some("MINUTELY"@) && hour is None && minute is None && days->Ok_0.len() == 0
                    ||| freq == Some("HOURLY"@) && hour is None && days->Ok_0.len() == 0
                    ||| freq == Some("DAILY"@) && hour is Some && minute is Some && days->Ok_0.len() == 0
                    ||| freq == Some("WEEKLY"@) && hour is Some && minute is Some && days->Ok_0.len() > 0 && (
                    interval matches Some(v) ==> text::parsed_nat(v, u32::MAX as nat) == Some(1nat))
                }
            }
        }),
{
    reveal_strlit("MINUTELY");
    reveal_strlit("HOURLY");
    reveal_strlit("DAILY");
    reveal_strlit("WEEKLY");
    assert("MINUTELY"@.len() == 8);
    assert("HOURLY"@[0] == 'H');
    assert("DAILY"@[0] == 'D');
    assert("WEEKLY"@[0] == 'W');
    assert("MINUTELY"@[0] == 'M');
}

/// Each code names its own weekday, and the days of a list come in its order, with
/// blanks around a code left out.
pub proof fn law_weekday_codes(pieces: Seq<Seq<char>>, piece: Seq<char>)
    ensures
        weekday_of("MO"@) == Some(Weekday::Mon),
        weekday_of("TU"@) == Some(Weekday::Tue),
        weekday_of("WE"@) == Some(Weekday::Wed),
        weekday_of("TH"@) == Some(Weekday::Thu),
        weekday_of("FR"@) == Some(Weekday::Fri),
        weekday_of("SA"@) == Some(Weekday::Sat),
        weekday_of("SU"@) == Some(Weekday::Sun),
        weekday_of(piece) is Some ==> piece.len() == 2,
        days_of(pieces) is Ok ==> (match weekday_of(text::trimmed(piece)) {
            Some(day) => days_of(pieces.push(piece)) == Ok::<Seq<Weekday>, Seq<char>>(days_of(pieces)->Ok_0.push(day)),
            None => if text::trimmed(piece).len() == 0 {
                days_of(pieces.push(piece)) == days_of(pieces)
            } else {
                days_of(pieces.push(piece)) is Err
            },
        }),
        days_of(pieces) is Err ==> days_of(pieces.push(piece)) == days_of(pieces),
        days_of(Seq::empty()) == Ok::<Seq<Weekday>, Seq<char>>(Seq::empty()),
{
    reveal_strlit("MO");
    reveal_strlit("TU");
    reveal_strlit("WE");
    reveal_strlit("TH");
    reveal_strlit("FR");
    reveal_strlit("SA");
    reveal_strlit("SU");
    assert("MO"@[0] == 'M');
    assert("TU"@[0] == 'T' && "TU"@[1] == 'U');
    assert("WE"@[0] == 'W');
    assert("TH"@[0] == 'T' && "TH"@[1] == 'H');
    assert("FR"@[0] == 'F');
    assert("SA"@[0] == 'S' && "SA"@[1] == 'A');
    assert("SU"@[0] == 'S' && "SU"@[1] == 'U');
    assert(pieces.push(piece).drop_last() =~= pieces);
}

// ---------------------------------------------------------------------
// The next run
// ---------------------------------------------------------------------

/// The first second of the calendar: 1 January of the year -262143.
pub const MIN_SECONDS: i64 = -8334601228800;

/// The last second of the calendar: the end of the year 262142.
pub const MAX_SECONDS: i64 = 8210266876799;

/// The number of the last day of the calendar, counted from 1 January 1970.
pub const MAX_DAY: i64 = 95026236;

/// Whether the calendar holds the second.
pub open spec fn in_calendar(seconds: int) -> bool {
    MIN_SECONDS <= seconds <= MAX_SECONDS
}

/// `chrono::DateTime::from_timestamp`: accepts exactly the seconds from the
/// start of the crate's first year to the end of its last.
#[verifier::external_body]
pub(crate) fn is_datetime(seconds: i64) -> (r: bool)
    ensures
        r == in_calendar(seconds as int),
{
    chrono::DateTime::<chrono::Utc>::from_timestamp(seconds, 0).is_some()
}

/// The remainder of a division rounded down.
fn floor_rem(a: i64, m: i64) -> (r: i64)
    requires
        0 < m <= 604800,
    ensures
        r == a as int % m as int,
{
    let t: i64 = a % m;
    if t < 0 {
        proof {
            let b = -(a as int);
            let q = b / m as int;
            assert(t == -(b % m as int));
            vstd::arithmetic::div_mod::lemma_fundamental_div_mod(b, m as int);
            assert(m as int * q == q * m as int) by (nonlinear_arith);
            assert((-q - 1) * m as int == -(q * m as int) - m) by (nonlinear_arith);
            vstd::arithmetic::div_mod::lemma_fundamental_div_mod_converse(a as int, m as int, -q - 1, t + m);
        }
        t + m
    } else {
        proof {
            if a < 0 {
                let b = -(a as int);
                let q = b / m as int;
                assert(t == -(b % m as int));
                vstd::arithmetic::div_mod::lemma_fundamental_div_mod(b, m as int);
                assert((-q) * m as int == -(m as int * q)) by (nonlinear_arith);
                vstd::arithmetic::div_mod::lemma_fundamental_div_mod_converse(a as int, m as int, -q, 0);
            }
        }
        t
    }
}

/// The day that a second falls on, counted from 1 January 1970.
pub open spec fn day_of(seconds: int) -> int {
    seconds / 86400
}

/// The days from Monday to the day of the week that a day falls on.
pub open spec fn weekday_index(day: int) -> int {
    (day + 3) % 7
}

/// The second at which a day strikes the schedule's hour and minute.
pub open spec fn time_on(s: Schedule, day: int) -> int {
    day * 86400 + s.hour->0 * 3600 + s.minute->0 * 60
}

/// Whether the schedule names the day's weekday.
pub open spec fn names_day(s: Schedule, day: int) -> bool {
    exists|i: int| 0 <= i < s.weekdays.len() && (#[trigger] s.weekdays[i]).index() == weekday_index(day)
}

/// The first time behind `now` that a weekly schedule names, among the days
/// from `offset` days ahead to a week ahead.
pub open spec fn weekly_from(s: Schedule, now: int, offset: int) -> Result<int, Seq<char>>
    decreases 8 - offset,
{
    let day = day_of(now) + offset;
    if offset > 7 || day > MAX_DAY {
        Err("failed to compute weekly next run"@)
    } else if names_day(s, day) && time_on(s, day) > now {
        Ok(time_on(s, day))
    } else {
        weekly_from(s, now, offset + 1)
    }
}

/// The second, where the calendar holds it.
pub open spec fn within(seconds: int) -> Result<int, Seq<char>> {
    if in_calendar(seconds) {
        Ok(seconds)
    } else {
        Err("failed to compute next run"@)
    }
}

/// The minute of an hourly schedule: its own, or else that of `now`.
pub open spec fn minute_at(s: Schedule, now: int) -> int {
    match s.minute {
        Some(m) => m as int,
        None => now % 3600 / 60,
    }
}

/// The next time that a schedule names behind `now`.
pub open spec fn scheduled_at(s: Schedule, now: int) -> Result<int, Seq<char>> {
    match s.frequency {
        ScheduleFrequency::Minutely => within(now - now % 60 + s.interval * 60),
        ScheduleFrequency::Hourly => {
            let current = now - now % 3600 + minute_at(s, now) * 60;
            if current > now {
                within(current)
            } else {
                within(current + s.interval * 3600)
            }
        },
        ScheduleFrequency::Daily => if time_on(s, day_of(now)) > now {
            Ok(time_on(s, day_of(now)))
        } else if day_of(now) + s.interval > MAX_DAY {
            Err("failed to compute daily next run"@)
        } else {
            Ok(time_on(s, day_of(now) + s.interval))
        },
        ScheduleFrequency::Weekly => weekly_from(s, now, 0),
    }
}

fn check_calendar(seconds: i64) -> (r: Result<i64, String>)
    ensures
        match r {
            Ok(n) => within(seconds as int) == Ok::<int, Seq<char>>(n as int),
            Err(e) => within(seconds as int) == Err::<int, Seq<char>>(e@),
        },
{
    if is_datetime(seconds) {
        Ok(seconds)
    } else {
        Err("failed to compute next run".to_owned())
    }
}

fn day_has_name(weekdays: &Vec<Weekday>, day: i64) -> (r: bool)
    requires
        -100000000 <= day <= 100000000,
    ensures
        r == exists|i: int| 0 <= i < weekdays@.len() && (#[trigger] weekdays@[i]).index() == weekday_index(day as int),
{
    let index: i64 = floor_rem(day + 3, 7);
    let mut i: usize = 0;
    while i < weekdays.len()
        invariant
            i <= weekdays.len(),
            index == weekday_index(day as int),
            forall|j: int| 0 <= j < i ==> (#[trigger] weekdays@[j]).index() != index,
        decreases weekdays.len() - i,
    {
        if weekdays[i].number() == index {
            assert(weekdays@[i as int].index() == weekday_index(day as int));
            return true;
        }
        i = i + 1;
    }
    false
}

/// The next time that a schedule names behind `now`.
pub fn next_scheduled(schedule: &AutomationSchedule, now: i64) -> (r: Result<i64, String>)
    requires
        sound(schedule@),
        in_calendar(now as int),
    ensures
        match r {
            Ok(n) => scheduled_at(schedule@, now as int) == Ok::<int, Seq<char>>(n as int),
            Err(e) => scheduled_at(schedule@, now as int) == Err::<int, Seq<char>>(e@),
        },
{
    let interval: i64 = schedule.interval as i64;
    let hour: i64 = match schedule.hour {
        Some(h) => h as i64,
        None => 0,
    };
    let minute: i64 = match schedule.minute {
        Some(m) => m as i64,
        None => 0,
    };
    let today: i64 = (now - floor_rem(now, 86400)) / 86400;
    assert(today == day_of(now as int));
    match schedule.frequency {
        ScheduleFrequency::Minutely => check_calendar(now - floor_rem(now, 60) + interval * 60),
        ScheduleFrequency::Hourly => {
            let into_hour: i64 = floor_rem(now, 3600);
            let minute: i64 = match schedule.minute {
                Some(m) => m as i64,
                None => into_hour / 60,
            };
            let current: i64 = now - into_hour + minute * 60;
            if current > now {
                check_calendar(current)
            } else {
                check_calendar(current + interval * 3600)
            }
        },
        ScheduleFrequency::Daily => {
            let candidate: i64 = today * 86400 + hour * 3600 + minute * 60;
            if candidate > now {
                Ok(candidate)
            } else if today + interval > MAX_DAY {
                Err("failed to compute daily next run".to_owned())
            } else {
                Ok((today + interval) * 86400 + hour * 3600 + minute * 60)
            }
        },
        ScheduleFrequency::Weekly => {
            let mut offset: i64 = 0;
            while offset <= 7
                invariant
                    0 <= offset <= 8,
                    in_calendar(now as int),
                    today == day_of(now as int),
                    sound(schedule@),
                    schedule.frequency is Weekly,
                    hour == schedule@.hour->0,
                    minute == schedule@.minute->0,
                    hour <= 23,
                    minute <= 59,
                    weekly_from(schedule@, now as int, 0) == weekly_from(schedule@, now as int, offset as int),
                decreases 8 - offset,
            {
                let day: i64 = today + offset;
                if day > MAX_DAY {
                    return Err("failed to compute weekly next run".to_owned());
                }
                if day_has_name(&schedule.weekdays, day) {
                    let candidate: i64 = day * 86400 + hour * 3600 + minute * 60;
                    if candidate > now {
                        return Ok(candidate);
                    }
                }
                offset = offset + 1;
            }
            Err("failed to compute weekly next run".to_owned())
        },
    }
}

// ---------------------------------------------------------------------
// Jitter
// ---------------------------------------------------------------------

/// Whether runs are spread: those of lasting schedules, but not of heartbeats
/// within the day, and not of schedules by the minute.
pub open spec fn spreads(kind: AutomationKind, s: Schedule) -> bool {
    &&& !s.one_shot
    &&& !(s.frequency is Minutely)
    &&& !(kind is Heartbeat && s.frequency is Hourly)
}

/// Whether runs are spread.
pub fn should_jitter(kind: AutomationKind, schedule: &AutomationSchedule) -> (r: bool)
    ensures
        r == spreads(kind, schedule@),
{
    if schedule.one_shot {
        return false;
    }
    match (kind, schedule.frequency) {
        (_, ScheduleFrequency::Minutely) => false,
        (AutomationKind::Heartbeat, ScheduleFrequency::Hourly) => false,
        _ => true,
    }
}

/// One step of the hash: modulo two to the sixty-fourth.
pub open spec fn hash_step(hash: int, n: int) -> int {
    (hash * 131 + n) % 0x1_0000_0000_0000_0000
}

/// The hash of the bytes of an identifier.
pub open spec fn hash_of(bytes: Seq<u8>) -> int
    decreases bytes.len(),
{
    if bytes.len() == 0 {
        0
    } else {
        hash_step(hash_of(bytes.drop_last()), bytes.last() as int)
    }
}

/// The seconds that a run is put off by: a hash of the automation and the
/// time of the run.
pub open spec fn jitter_of(id: Seq<char>, run_at: int) -> int {
    hash_step(hash_of(encode_utf8(id)), run_at % 0x1_0000_0000_0000_0000) % (AUTOMATION_RUN_JITTER_WINDOW_SECS as int)
}

/// A run is put off by less than the width of the window.
pub proof fn law_jitter_is_bounded(id: Seq<char>, run_at: int)
    ensures
        0 <= jitter_of(id, run_at) < AUTOMATION_RUN_JITTER_WINDOW_SECS,
{
}

fn mix(hash: u64, n: u64) -> (r: u64)
    ensures
        r == hash_step(hash as int, n as int),
{
    let wide: u128 = (hash as u128 * 131 + n as u128) % 0x1_0000_0000_0000_0000u128;
    wide as u64
}

/// The seconds that a run is put off by.
pub fn deterministic_automation_jitter_seconds(automation_id: &str, run_at: i64) -> (r: i64)
    ensures
        r == jitter_of(automation_id@, run_at as int),
{
    let bytes = automation_id.as_bytes();
    let mut hash: u64 = 0;
    let mut i: usize = 0;
    assert(bytes@.take(0) =~= Seq::<u8>::empty());
    while i < bytes.len()
        invariant
            i <= bytes@.len(),
            hash == hash_of(bytes@.take(i as int)),
        decreases bytes@.len() - i,
    {
        assert(bytes@.take(i + 1).drop_last() =~= bytes@.take(i as int));
        hash = mix(hash, bytes[i] as u64);
        i = i + 1;
    }
    assert(bytes@.take(bytes@.len() as int) =~= bytes@);
    let wrapped: u64 = if run_at >= 0 {
        run_at as u64
    } else {
        (run_at as i128 + 0x1_0000_0000_0000_0000i128) as u64
    };
    assert(wrapped == run_at as int % 0x1_0000_0000_0000_0000);
    hash = mix(hash, wrapped);
    (hash % 120) as i64
}

/// The next run behind `now`, or `None` where a schedule for one run has had
/// it.
pub open spec fn next_run(kind: AutomationKind, id: Seq<char>, s: Schedule, last_run_at: Option<i64>, now: int) -> Result<
    Option<int>,
    Seq<char>,
> {
    if s.one_shot && last_run_at is Some {
        Ok(None)
    } else {
        match scheduled_at(s, now) {
            Err(e) => Err(e),
            Ok(at) => {
                let run_at = at + if spreads(kind, s) {
                    jitter_of(id, at)
                } else {
                    0
                };
                match within(run_at) {
                    Ok(run_at) => Ok(Some(run_at)),
                    Err(e) => Err(e),
                }
            },
        }
    }
}

/// The next run behind `now`. An instant that the calendar does not hold is an
/// error.
pub fn compute_next_run_at(
    kind: AutomationKind,
    automation_id: &str,
    schedule: &AutomationSchedule,
    last_run_at: Option<i64>,
    now: i64,
) -> (r: Result<Option<i64>, String>)
    requires
        sound(schedule@),
        in_calendar(now as int),
    ensures
        is_next_run(r, next_run(kind, automation_id@, schedule@, last_run_at, now as int)),
{
    if schedule.one_shot && last_run_at.is_some() {
        return Ok(None);
    }
    let at = match next_scheduled(schedule, now) {
        Ok(at) => at,
        Err(e) => return Err(e),
    };
    proof {
        lemma_scheduled_bounds(schedule@, now as int);
    }
    let jitter: i64 = if should_jitter(kind, schedule) {
        deterministic_automation_jitter_seconds(automation_id, at)
    } else {
        0
    };
    match check_calendar(at + jitter) {
        Ok(run_at) => Ok(Some(run_at)),
        Err(e) => Err(e),
    }
}

/// Whether the result is the given outcome.
pub open spec fn is_next_run(r: Result<Option<i64>, String>, expected: Result<Option<int>, Seq<char>>) -> bool {
    match r {
        Ok(Some(n)) => expected == Ok::<Option<int>, Seq<char>>(Some(n as int)),
        Ok(None) => expected == Ok::<Option<int>, Seq<char>>(None),
        Err(e) => expected == Err::<Option<int>, Seq<char>>(e@),
    }
}

proof fn lemma_weekly(s: Schedule, now: int, offset: int)
    requires
        sound(s),
        s.frequency is Weekly,
        in_calendar(now),
        0 <= offset <= 8,
    ensures
        weekly_from(s, now, offset) matches Ok(at) ==> {
            &&& now < at
            &&& in_calendar(at)
            &&& names_day(s, day_of(at))
            &&& at == time_on(s, day_of(at))
            &&& day_of(now) + offset <= day_of(at) <= day_of(now) + 7
            &&& forall|day: int|
                day_of(now) + offset <= day < day_of(at) && #[trigger] names_day(s, day) ==> time_on(s, day) <= now
        },
    decreases 8 - offset,
{
    let day = day_of(now) + offset;
    if offset <= 7 && day <= MAX_DAY {
        if names_day(s, day) && time_on(s, day) > now {
            assert(day_of(time_on(s, day)) == day);
        } else {
            lemma_weekly(s, now, offset + 1);
            if let Ok(at) = weekly_from(s, now, offset) {
                assert forall|d: int| day_of(now) + offset <= d < day_of(at) && #[trigger] names_day(s, d) implies time_on(
                    s,
                    d,
                ) <= now by {
                    if d > day {
                    }
                }
            }
        }
    }
}

proof fn lemma_scheduled_bounds(s: Schedule, now: int)
    requires
        sound(s),
        in_calendar(now),
    ensures
        scheduled_at(s, now) matches Ok(at) ==> now < at && in_calendar(at),
{
    if s.frequency is Weekly {
        lemma_weekly(s, now, 0);
    }
}

/// Every run that is computed lies behind the present.
pub proof fn law_next_run_is_later(kind: AutomationKind, id: Seq<char>, s: Schedule, last_run_at: Option<i64>, now: int)
    requires
        sound(s),
        in_calendar(now),
    ensures
        next_run(kind, id, s, last_run_at, now) matches Ok(Some(at)) ==> now < at && in_calendar(at),
        next_run(kind, id, s, last_run_at, now) matches Ok(None) ==> s.one_shot && last_run_at is Some,
{
    lemma_scheduled_bounds(s, now);
}

/// A weekly schedule names the first of its days and times behind the present.
pub proof fn law_weekly_is_first(s: Schedule, now: int)
    requires
        sound(s),
        s.frequency is Weekly,
        in_calendar(now),
        scheduled_at(s, now) is Ok,
    ensures
        ({
            let at = scheduled_at(s, now)->Ok_0;
            &&& names_day(s, day_of(at))
            &&& at == time_on(s, day_of(at))
            &&& forall|day: int|
                day_of(now) <= day < day_of(at) && #[trigger] names_day(s, day) ==> time_on(s, day) <= now
        }),
{
    lemma_weekly(s, now, 0);
}

/// A weekly schedule always names a time, but for the last week of the
/// calendar.
pub proof fn law_weekly_finds_a_time(s: Schedule, now: int)
    requires
        sound(s),
        s.frequency is Weekly,
        in_calendar(now),
        day_of(now) + 7 <= MAX_DAY,
    ensures
        scheduled_at(s, now) is Ok,
{
    let w = s.weekdays[0].index();
    let d = day_of(now);
    let ahead = (w - weekday_index(d)) % 7;
    assert(0 <= ahead < 7);
    assert(weekday_index(d + ahead) == w);
    assert(names_day(s, d + ahead));
    assert(weekday_index(d + ahead + 7) == w);
    assert(names_day(s, d + ahead + 7));
    if time_on(s, d + ahead) > now {
        lemma_weekly_reaches(s, now, 0, ahead);
    } else {
        assert(ahead == 0);
        lemma_weekly_reaches(s, now, 0, 7);
    }
}

proof fn lemma_weekly_reaches(s: Schedule, now: int, offset: int, target: int)
    requires
        0 <= offset <= target <= 7,
        day_of(now) + 7 <= MAX_DAY,
        names_day(s, day_of(now) + target),
        time_on(s, day_of(now) + target) > now,
    ensures
        weekly_from(s, now, offset) is Ok,
    decreases target - offset,
{
    if offset < target {
        lemma_weekly_reaches(s, now, offset + 1, target);
    }
}

/// A schedule by the minute fires on a full minute, exactly its interval of minutes
/// behind the minute of the present.
pub proof fn law_minutely_steps_by_its_interval(s: Schedule, now: int)
    requires
        sound(s),
        s.frequency is Minutely,
        in_calendar(now),
    ensures
        match scheduled_at(s, now) {
            Ok(at) => at % 60 == 0 && at / 60 - now / 60 == s.interval && MIN_SECONDS <= at <= MAX_SECONDS,
            Err(_) => (now / 60 + s.interval) * 60 > MAX_SECONDS,
        },
{
}

/// An hourly schedule fires at its minute, or else at the minute of the present:
/// in this hour where that is still to come, and otherwise exactly its interval of
/// hours behind this hour.
pub proof fn law_hourly_steps_by_its_interval(s: Schedule, now: int)
    requires
        sound(s),
        s.frequency is Hourly,
        in_calendar(now),
    ensures
        ({
            let minute = match s.minute {
                Some(m) => m as int,
                None => now / 60 % 60,
            };
            let hours = if s.minute is Some && now % 3600 < minute * 60 {
                0
            } else {
                s.interval as int
            };
            match scheduled_at(s, now) {
                Ok(at) => at % 60 == 0 && at / 60 % 60 == minute && at / 3600 - now / 3600 == hours && MIN_SECONDS <= at
                    <= MAX_SECONDS,
                Err(_) => (now / 3600 + hours) * 3600 + minute * 60 > MAX_SECONDS,
            }
        }),
{
    let minute = match s.minute {
        Some(m) => m as int,
        None => now / 60 % 60,
    };
    assert(now % 3600 / 60 == now / 60 % 60);
    assert(minute == minute_at(s, now));
    assert(0 <= minute < 60);
    let hours = if s.minute is Some && now % 3600 < minute * 60 {
        0
    } else {
        s.interval as int
    };
    let at = (now / 3600 + hours) * 3600 + minute * 60;
    assert(now - now % 3600 == now / 3600 * 3600);
    assert(at / 3600 == now / 3600 + hours);
    assert(at / 60 == (now / 3600 + hours) * 60 + minute);
    assert(at / 60 % 60 == minute);
}

/// A daily schedule fires at its hour and minute: today where that is still to
/// come, and otherwise exactly its interval of days behind today.
pub proof fn law_daily_steps_by_its_interval(s: Schedule, now: int)
    requires
        sound(s),
        s.frequency is Daily,
        in_calendar(now),
    ensures
        ({
            let time = s.hour->0 * 3600 + s.minute->0 * 60;
            let days = if now % 86400 < time {
                0
            } else {
                s.interval as int
            };
            match scheduled_at(s, now) {
                Ok(at) => at % 86400 == time && at / 86400 - now / 86400 == days,
                Err(_) => now / 86400 + days > MAX_DAY,
            }
        }),
        scheduled_at(s, now) is Err <==> now % 86400 >= s.hour->0 * 3600 + s.minute->0 * 60 && now / 86400 + s.interval
            > MAX_DAY,
{
}

/// A weekly schedule fires at its hour and minute on one of its weekdays, within a
/// week and a day, and no moment between the present and then is at that time of
/// day on one of its weekdays. Day 0 is a Thursday.
pub proof fn law_weekly_fires_at_the_first_named_time(s: Schedule, now: int)
    requires
        sound(s),
        s.frequency is Weekly,
        in_calendar(now),
    ensures
        scheduled_at(s, now) matches Ok(at) ==> {
            &&& now < at
            &&& at % 86400 == s.hour->0 * 3600 + s.minute->0 * 60
            &&& s.weekdays.contains(weekday_on(at / 86400))
            &&& at / 86400 <= now / 86400 + 7
            &&& forall|t: int|
                now < t < at && t % 86400 == s.hour->0 * 3600 + s.minute->0 * 60 ==> !s.weekdays.contains(
                    #[trigger] weekday_on(t / 86400),
                )
        },
        now / 86400 + 7 <= MAX_DAY ==> scheduled_at(s, now) is Ok,
{
    lemma_weekly(s, now, 0);
    if now / 86400 + 7 <= MAX_DAY {
        law_weekly_finds_a_time(s, now);
    }
    if let Ok(at) = scheduled_at(s, now) {
        lemma_names_day(s, at / 86400);
        assert forall|t: int| now < t < at && t % 86400 == s.hour->0 * 3600 + s.minute->0 * 60 implies !s.weekdays.contains(
            #[trigger] weekday_on(t / 86400),
        ) by {
            lemma_names_day(s, t / 86400);
            assert(t == time_on(s, t / 86400));
            if names_day(s, t / 86400) {
                assert(day_of(now) <= t / 86400 <= day_of(at));
                if t / 86400 == day_of(at) {
                    assert(t == at);
                }
            }
        }
    }
}

/// The weekday of a day, counted from Thursday, 1 January 1970.
pub open spec fn weekday_on(day: int) -> Weekday {
    let n = day % 7;
    if n == 0 {
        Weekday::Thu
    } else if n == 1 {
        Weekday::Fri
    } else if n == 2 {
        Weekday::Sat
    } else if n == 3 {
        Weekday::Sun
    } else if n == 4 {
        Weekday::Mon
    } else if n == 5 {
        Weekday::Tue
    } else {
        Weekday::Wed
    }
}

proof fn lemma_names_day(s: Schedule, day: int)
    ensures
        names_day(s, day) <==> s.weekdays.contains(weekday_on(day)),
{
    assert(weekday_on(day).index() == weekday_index(day));
    if names_day(s, day) {
        let i = choose|i: int| 0 <= i < s.weekdays.len() && (#[trigger] s.weekdays[i]).index() == weekday_index(day);
        assert(s.weekdays[i] == weekday_on(day));
    }
    if s.weekdays.contains(weekday_on(day)) {
        let i = choose|i: int| 0 <= i < s.weekdays.len() && s.weekdays[i] == weekday_on(day);
        assert(s.weekdays[i].index() == weekday_index(day));
    }
}

/// The calendar ends with its last day.
pub proof fn law_calendar_ends_with_its_last_day()
    ensures
        MAX_SECONDS == MAX_DAY * 86400 + 86399,
{
}

/// A schedule for one run is done once it has run, and no other is. A run lies less
/// than the width of the window behind the scheduled time, and on it where there is
/// to be one run only, where the schedule is by the minute, and for heartbeats by
/// the hour. In the other cases it is put off by the jitter.
pub proof fn law_run_is_scheduled_time_and_jitter(
    kind: AutomationKind,
    id: Seq<char>,
    s: Schedule,
    last_run_at: Option<i64>,
    now: int,
)
    requires
        sound(s),
        in_calendar(now),
    ensures
        next_run(kind, id, s, last_run_at, now) == Ok::<Option<int>, Seq<char>>(None) <==> s.one_shot && last_run_at
            is Some,
        !(s.one_shot && last_run_at is Some) ==> (match scheduled_at(s, now) {
            Err(e) => next_run(kind, id, s, last_run_at, now) == Err::<Option<int>, Seq<char>>(e),
            Ok(at) => {
                let exact = s.one_shot || s.frequency is Minutely || (kind is Heartbeat && s.frequency is Hourly);
                let late = if exact {
                    0
                } else {
                    jitter_of(id, at)
                };
                &&& 0 <= late < 120
                &&& next_run(kind, id, s, last_run_at, now) is Err <==> at + late > MAX_SECONDS
                &&& next_run(kind, id, s, last_run_at, now) matches Ok(Some(run)) ==> run == at + late
            },
        }),
        last_run_at is Some && !s.one_shot ==> next_run(kind, id, s, last_run_at, now) == next_run(kind, id, s, None, now),
{
    lemma_scheduled_bounds(s, now);
}

/// The jitter is the remainder of a hash by the width of the window. The hash of an
/// identifier is that of its bytes as digits to the base 131, and the time of the
/// run is one digit more; all of it modulo two to the sixty-fourth.
pub proof fn law_jitter_is_a_remainder(id: Seq<char>, run_at: int, bytes: Seq<u8>, b: u8)
    requires
        i64::MIN <= run_at <= i64::MAX,
    ensures
        hash_of(Seq::empty()) == 0,
        hash_of(bytes.push(b)) == (hash_of(bytes) * 131 + b) % 18446744073709551616,
        jitter_of(id, run_at) == (hash_of(encode_utf8(id)) * 131 + run_at) % 18446744073709551616 % 120,
{
    assert(bytes.push(b).drop_last() =~= bytes);
    let m = 18446744073709551616int;
    let h = hash_of(encode_utf8(id)) * 131;
    vstd::arithmetic::div_mod::lemma_add_mod_noop(h, run_at, m);
    vstd::arithmetic::div_mod::lemma_add_mod_noop(h, run_at % m, m);
    assert((run_at % m) % m == run_at % m);
}

// ---------------------------------------------------------------------
// Heartbeats
// ---------------------------------------------------------------------

/// The seconds between heartbeats of a schedule within the day.
pub open spec fn heartbeat_seconds(s: Schedule) -> Option<int> {
    match s.frequency {
        ScheduleFrequency::Minutely => Some(s.interval as int * 60),
        ScheduleFrequency::Hourly => Some(s.interval as int * 3600),
        _ => None,
    }
}

/// The seconds between heartbeats of a schedule within the day.
pub fn heartbeat_interval_duration(schedule: &AutomationSchedule) -> (r: Option<i64>)
    ensures
        match r {
            Some(n) => heartbeat_seconds(schedule@) == Some(n as int),
            None => heartbeat_seconds(schedule@) is None,
        },
{
    match schedule.frequency {
        ScheduleFrequency::Minutely => Some(schedule.interval as i64 * 60),
        ScheduleFrequency::Hourly => Some(schedule.interval as i64 * 3600),
        _ => None,
    }
}

/// The later of the times that are there.
pub open spec fn later(a: Option<i64>, b: Option<i64>) -> Option<i64> {
    match (a, b) {
        (Some(x), Some(y)) => if x >= y {
            Some(x)
        } else {
            Some(y)
        },
        (Some(x), None) => Some(x),
        (None, other) => other,
    }
}

/// When a heartbeat may run again: an interval behind the last run or the last
/// change of the thread, whichever is later, for schedules within the day; the
/// next time of the schedule for the others.
pub open spec fn next_heartbeat(
    rrule: Seq<char>,
    last_run_at: Option<i64>,
    thread_updated_at: Option<i64>,
    now: int,
    id: Seq<char>,
) -> Result<Option<int>, Seq<char>> {
    match rule_schedule(rrule) {
        Err(e) => Err(e),
        Ok(s) => if s.one_shot && last_run_at is Some {
            Ok(None)
        } else {
            match heartbeat_seconds(s) {
                None => next_run(AutomationKind::Heartbeat, id, s, last_run_at, now),
                Some(seconds) => match later(last_run_at, thread_updated_at) {
                    Some(base) => match within(base + seconds) {
                        Ok(at) => Ok(Some(at)),
                        Err(e) => Err(e),
                    },
                    None => Ok(None),
                },
            }
        },
    }
}

/// A heartbeat by the minute or the hour may run again exactly its interval behind
/// the later of the thread's last change and its own last run; without either there
/// is no time. Other heartbeats follow their schedule, and one for a single run is
/// done once it has run.
pub proof fn law_heartbeat_waits_for_its_interval(
    rrule: Seq<char>,
    last_run_at: Option<i64>,
    thread_updated_at: Option<i64>,
    now: int,
    id: Seq<char>,
)
    requires
        rule_schedule(rrule) is Ok,
        last_run_at matches Some(t) ==> in_calendar(t as int),
        thread_updated_at matches Some(t) ==> in_calendar(t as int),
    ensures
        ({
            let s = rule_schedule(rrule)->Ok_0;
            let r = next_heartbeat(rrule, last_run_at, thread_updated_at, now, id);
            let wait: int = if s.frequency is Minutely {
                s.interval as int * 60
            } else {
                s.interval as int * 3600
            };
            &&& s.one_shot && last_run_at is Some ==> r == Ok::<Option<int>, Seq<char>>(None)
            &&& !(s.one_shot && last_run_at is Some) && (s.frequency is Daily || s.frequency is Weekly) ==> r == next_run(
                AutomationKind::Heartbeat,
                id,
                s,
                last_run_at,
                now,
            )
            &&& !(s.one_shot && last_run_at is Some) && (s.frequency is Minutely || s.frequency is Hourly) ==> {
                &&& r == Ok::<Option<int>, Seq<char>>(None) <==> last_run_at is None && thread_updated_at is None
                &&& r matches Ok(Some(at)) ==> {
                    &&& last_run_at matches Some(t) ==> at >= t + wait
                    &&& thread_updated_at matches Some(t) ==> at >= t + wait
                    &&& (last_run_at matches Some(t) && at == t + wait) || (thread_updated_at matches Some(t) && at == t
                        + wait)
                    &&& at <= MAX_SECONDS
                }
                &&& r is Err ==> (last_run_at matches Some(t) && t + wait > MAX_SECONDS) || (
                thread_updated_at matches Some(t) && t + wait > MAX_SECONDS)
            }
        }),
{
    law_parsed_schedule_is_sound(rrule);
}

/// When a heartbeat may run again. An instant that the calendar does not hold
/// is an error.
pub fn compute_next_heartbeat_cooldown_at(
    rrule: &str,
    last_run_at: Option<i64>,
    thread_updated_at: Option<i64>,
    now: i64,
    automation_id: &str,
) -> (r: Result<Option<i64>, String>)
    requires
        in_calendar(now as int),
        last_run_at matches Some(t) ==> in_calendar(t as int),
        thread_updated_at matches Some(t) ==> in_calendar(t as int),
    ensures
        is_next_run(r, next_heartbeat(rrule@, last_run_at, thread_updated_at, now as int, automation_id@)),
{
    let schedule = match AutomationSchedule::parse(rrule) {
        Ok(schedule) => schedule,
        Err(e) => return Err(e),
    };
    proof {
        law_parsed_schedule_is_sound(rrule@);
    }
    if schedule.one_shot && last_run_at.is_some() {
        return Ok(None);
    }
    let interval: i64 = match heartbeat_interval_duration(&schedule) {
        Some(n) => n,
        None => return compute_next_run_at(AutomationKind::Heartbeat, automation_id, &schedule, last_run_at, now),
    };
    let base = match (last_run_at, thread_updated_at) {
        (Some(x), Some(y)) => if x >= y {
            x
        } else {
            y
        },
        (Some(x), None) => x,
        (None, Some(y)) => y,
        (None, None) => return Ok(None),
    };
    match check_calendar(base + interval) {
        Ok(at) => Ok(Some(at)),
        Err(e) => Err(e),
    }
}

/// A rule may be given bare, behind `RRULE:`, or on a line of its own among
/// others; it is the same rule.
pub proof fn law_rule_may_stand_behind_its_name(first: Seq<char>, rule: Seq<char>)
    requires
        rule.len() > 0,
        !rule.contains('\n'),
        !text::is_space(rule[0]),
        !text::is_space(rule.last()),
        !text::has_prefix(rule, "RRULE:"@),
        !first.contains('\n'),
        first.len() > 0,
        !text::is_space(first[0]),
        !text::is_space(first.last()),
        !text::has_prefix(first, "RRULE:"@),
    ensures
        bare_rule(rule) == rule,
        bare_rule("RRULE:"@ + rule) == rule,
        bare_rule(first.push('\n') + ("RRULE:"@ + rule)) == rule,
        rule_schedule("RRULE:"@ + rule) == rule_schedule(rule),
{
    reveal_strlit("RRULE:");
    let named = "RRULE:"@ + rule;
    text::lemma_trimmed_plain(rule);
    text::lemma_trimmed_plain(first);
    assert(named.last() == rule.last());
    assert(named[0] == 'R');
    text::lemma_trimmed_plain(named);
    assert(!named.contains('\n')) by {
        if named.contains('\n') {
            let k = choose|k: int| 0 <= k < named.len() && named[k] == '\n';
            if k >= 6 {
                assert(rule[k - 6] == '\n');
                assert(rule.contains('\n'));
            }
        }
    }
    text::law_lines_end_at_line_feeds(rule, Seq::empty());
    text::law_lines_end_at_line_feeds(named, Seq::empty());
    text::law_lines_end_at_line_feeds(first, named);
    text::law_ends_are_taken_off(rule, "RRULE:"@);
    text::law_ends_are_taken_off(first, "RRULE:"@);
    reveal_with_fuel(rule_line, 3);
    assert(seq![rule].skip(1) =~= Seq::<Seq<char>>::empty());
    assert(rule_line(seq![rule]) is None);
    assert(rule_line(seq![named]) == Some(rule));
    assert(first.last() != '\r');
    let both = seq![first] + seq![named];
    assert(both.skip(1) =~= seq![named]);
    assert(both[0] == first);
    assert(rule_line(both) == Some(rule));
}

/// What is wrong with a rule is told in words: a frequency that is missing or not
/// known, an interval of none, more than one run, or parts that its frequency
/// does not go with.
pub proof fn law_rule_faults_in_words(entries: Seq<(Seq<char>, Seq<char>)>, s: Schedule)
    ensures
        value_of(entries, "FREQ"@) is None ==> schedule_of(entries) == Err::<Schedule, Seq<char>>(
            "rrule must include FREQ"@,
        ),
        value_of(entries, "FREQ"@) matches Some(v) ==> v != "MINUTELY"@ && v != "HOURLY"@ && v != "DAILY"@ && v
            != "WEEKLY"@ ==> schedule_of(entries) == Err::<Schedule, Seq<char>>("unsupported rrule frequency: "@ + v),
        s.frequency is Minutely && (s.hour is Some || s.minute is Some || s.weekdays.len() > 0) ==> shape_fault(s)
            == Some("MINUTELY rrules only support FREQ, INTERVAL, and COUNT"@),
        s.frequency is Minutely && s.hour is None && s.minute is None && s.weekdays.len() == 0 ==> shape_fault(s) is None,
        s.frequency is Hourly && (s.hour is Some || s.weekdays.len() > 0) ==> shape_fault(s) == Some(
            "HOURLY rrules only support BYMINUTE, INTERVAL, and COUNT"@,
        ),
        s.frequency is Hourly && s.hour is None && s.weekdays.len() == 0 ==> shape_fault(s) is None,
        s.frequency is Daily && (s.hour is None || s.minute is None) ==> shape_fault(s) == Some(
            "DAILY rrules require BYHOUR and BYMINUTE"@,
        ),
        s.frequency is Daily && s.hour is Some && s.minute is Some ==> shape_fault(s) == (if s.weekdays.len() > 0 {
            Some("DAILY rrules do not support BYDAY"@)
        } else {
            None
        }),
        s.frequency is Weekly && s.interval != 1 ==> shape_fault(s) == Some("WEEKLY rrules only support INTERVAL=1"@),
        s.frequency is Weekly && s.interval == 1 && (s.hour is None || s.minute is None) ==> shape_fault(s) == Some(
            "WEEKLY rrules require BYHOUR and BYMINUTE"@,
        ),
        s.frequency is Weekly && s.interval == 1 && s.hour is Some && s.minute is Some ==> shape_fault(s) == (
        if s.weekdays.len() == 0 {
            Some("WEEKLY rrules require BYDAY"@)
        } else {
            None
        }),
{
}

/// A number of a rule is at most what its key allows, and is told with its key
/// where it is more or no number; a part without an equals sign and a day that is
/// none are told as they stand.
pub proof fn law_wrong_numbers_and_parts_in_words(
    value: Seq<char>,
    key: Seq<char>,
    max: nat,
    parts: Seq<Seq<char>>,
    part: Seq<char>,
)
    ensures
        optional_number(None, key, max) == Ok::<Option<nat>, Seq<char>>(None),
        text::parsed_nat(value, u32::MAX as nat) is None ==> optional_number(Some(value), key, max) == Err::<
            Option<nat>,
            Seq<char>,
        >("invalid rrule "@ + key),
        text::parsed_nat(value, u32::MAX as nat) matches Some(n) ==> optional_number(Some(value), key, max) == (if n
            <= max {
            Ok(Some(n))
        } else {
            Err("rrule "@ + key + " must be <= "@ + text::decimal(max))
        }),
        entries_of(parts) is Ok && text::trimmed(part).len() > 0 && !text::trimmed(part).contains('=') ==> entries_of(
            parts.push(part),
        ) == Err::<Seq<(Seq<char>, Seq<char>)>, Seq<char>>("invalid rrule component: "@ + text::trimmed(part)),
        days_of(parts) is Ok && text::trimmed(part).len() > 0 && weekday_of(text::trimmed(part)) is None ==> days_of(
            parts.push(part),
        ) == Err::<Seq<Weekday>, Seq<char>>("invalid rrule weekday: "@ + text::trimmed(part)),
{
    assert(parts.push(part).drop_last() =~= parts);
    if !text::trimmed(part).contains('=') {
        text::law_text_is_cut_at_the_first(text::trimmed(part), '=', Seq::empty());
    }
}

} // verus!
