//! The credits with which a usage limit can be reset, as they are shown.

use vstd::prelude::*;

use crate::login::external_provided::AccountPlanType;
use crate::rollout::filename;
use crate::rollout::filename::CivilTime;
use crate::state::schedule;
use crate::text;

verus! {

/// Which limits a credit resets.
#[derive(Clone, Copy, Debug, PartialEq, Eq, Structural)]
pub enum RateLimitResetScope {
    Monthly,
    WeeklyAndFiveHour,
}

impl RateLimitResetScope {
    /// What a credit resets, in few words.
    pub open spec fn label(self) -> Seq<char> {
        match self {
            RateLimitResetScope::Monthly => "Full reset (Monthly)"@,
            RateLimitResetScope::WeeklyAndFiveHour => "Full reset (Weekly + 5h)"@,
        }
    }

    /// What a credit resets, in a sentence.
    pub open spec fn sentence(self) -> Seq<char> {
        match self {
            RateLimitResetScope::Monthly => "Reset your current monthly usage limit."@,
            RateLimitResetScope::WeeklyAndFiveHour => "Reset your current 5-hour and weekly usage limits."@,
        }
    }

    /// What a credit resets, in few words.
    pub fn status_label(self) -> (r: &'static str)
        ensures
            r@ == self.label(),
    {
        match self {
            RateLimitResetScope::Monthly => "Full reset (Monthly)",
            RateLimitResetScope::WeeklyAndFiveHour => "Full reset (Weekly + 5h)",
        }
    }

    /// What a credit resets, in a sentence.
    pub fn usage_description(self) -> (r: &'static str)
        ensures
            r@ == self.sentence(),
    {
        match self {
            RateLimitResetScope::Monthly => "Reset your current monthly usage limit.",
            RateLimitResetScope::WeeklyAndFiveHour => "Reset your current 5-hour and weekly usage limits.",
        }
    }
}

/// The time over which usage is limited, by its label.
pub struct RateLimitWindowDisplay {
    pub label: String,
}

/// A limit on usage.
pub struct RateLimitSnapshotDisplay {
    pub limit_id: String,
    pub primary: Option<RateLimitWindowDisplay>,
    pub secondary: Option<RateLimitWindowDisplay>,
}

/// How a credit stands.
#[derive(Clone, Copy, Debug, PartialEq, Eq, Structural)]
pub enum RateLimitResetCreditStatus {
    Available,
    Unavailable,
}

/// A credit, with the second at which it expires.
#[derive(Clone, Copy, Debug, PartialEq, Eq, Structural)]
pub struct RateLimitResetCredit {
    pub status: RateLimitResetCreditStatus,
    pub expires_at: Option<i64>,
}

/// The credits of an account: how many are available, and some of them.
pub struct RateLimitResetCreditsSummary {
    pub available_count: i64,
    pub credits: Option<Vec<RateLimitResetCredit>>,
}

/// The credits as they are shown.
#[derive(Debug, PartialEq)]
pub struct StatusResetCreditsData {
    pub summary: String,
    pub details: Vec<StatusResetCreditDetail>,
}

/// A line on credits, with what they reset.
#[derive(Debug, PartialEq)]
pub struct StatusResetCreditDetail {
    pub text: String,
    pub scope: Option<&'static str>,
}

/// A line on credits, in characters.
#[verifier::ext_equal]
pub struct DetailView {
    pub text: Seq<char>,
    pub scope: Option<Seq<char>>,
}

/// What a line says.
pub open spec fn detail_view(d: StatusResetCreditDetail) -> DetailView {
    DetailView {
        text: d.text@,
        scope: match d.scope {
            Some(scope) => Some(scope@),
            None => None,
        },
    }
}

/// What the lines say.
pub open spec fn detail_views(ds: Seq<StatusResetCreditDetail>) -> Seq<DetailView> {
    ds.map_values(|d: StatusResetCreditDetail| detail_view(d))
}

// ---------------------------------------------------------------------
// What credits reset
// ---------------------------------------------------------------------

/// Whether the window is a month.
pub open spec fn is_monthly(window: Option<RateLimitWindowDisplay>) -> bool {
    window matches Some(w) && w.label@ == "monthly"@
}

/// Whether the first of the limits with the canonical name has a window of a
/// month.
pub open spec fn has_monthly_window(limits: Seq<RateLimitSnapshotDisplay>) -> bool
    decreases limits.len(),
{
    if limits.len() == 0 {
        false
    } else if text::ascii_lower(limits[0].limit_id@) == text::ascii_lower("codex"@) {
        is_monthly(limits[0].primary) || is_monthly(limits[0].secondary)
    } else {
        has_monthly_window(limits.skip(1))
    }
}

/// Which limits a credit resets.
pub open spec fn scope_of(limits: Seq<RateLimitSnapshotDisplay>, plan: Option<AccountPlanType>) -> RateLimitResetScope {
    if has_monthly_window(limits) || plan == Some(AccountPlanType::Free) || plan == Some(AccountPlanType::Go) {
        RateLimitResetScope::Monthly
    } else {
        RateLimitResetScope::WeeklyAndFiveHour
    }
}

fn monthly(window: &Option<RateLimitWindowDisplay>) -> (r: bool)
    ensures
        r == is_monthly(*window),
{
    match window {
        Some(w) => text::str_eq(w.label.as_str(), "monthly"),
        None => false,
    }
}

/// Which limits a credit of an account with the limits and the plan resets.
pub fn rate_limit_reset_scope(limits: &Vec<RateLimitSnapshotDisplay>, plan: Option<AccountPlanType>) -> (r:
    RateLimitResetScope)
    ensures
        r == scope_of(limits@, plan),
{
    let free = match plan {
        Some(AccountPlanType::Free) => true,
        Some(AccountPlanType::Go) => true,
        _ => false,
    };
    let mut i: usize = 0;
    assert(limits@.skip(0) =~= limits@);
    while i < limits.len()
        invariant
            i <= limits@.len(),
            free == (plan == Some(AccountPlanType::Free) || plan == Some(AccountPlanType::Go)),
            has_monthly_window(limits@) == has_monthly_window(limits@.skip(i as int)),
        decreases limits@.len() - i,
    {
        assert(limits@.skip(i as int)[0] == limits@[i as int]);
        assert(limits@.skip(i as int).skip(1) =~= limits@.skip(i + 1));
        if text::eq_ignore_ascii_case(limits[i].limit_id.as_str(), "codex") {
            if free || monthly(&limits[i].primary) || monthly(&limits[i].secondary) {
                return RateLimitResetScope::Monthly;
            }
            return RateLimitResetScope::WeeklyAndFiveHour;
        }
        i = i + 1;
    }
    if free {
        RateLimitResetScope::Monthly
    } else {
        RateLimitResetScope::WeeklyAndFiveHour
    }
}

// ---------------------------------------------------------------------
// Which credits are shown
// ---------------------------------------------------------------------

/// When the credit expires, for the order of credits.
pub open spec fn expiry_key(expires_at: Option<i64>) -> int {
    match expires_at {
        Some(at) => at as int,
        None => i64::MAX as int,
    }
}

/// The expiries of the credits that are available.
pub open spec fn available(credits: Seq<RateLimitResetCredit>) -> Seq<Option<i64>>
    decreases credits.len(),
{
    if credits.len() == 0 {
        Seq::empty()
    } else if credits.last().status == RateLimitResetCreditStatus::Available {
        available(credits.drop_last()).push(credits.last().expires_at)
    } else {
        available(credits.drop_last())
    }
}

/// The expiries with one more, behind those that are not later.
pub open spec fn insert_expiry(expiries: Seq<Option<i64>>, e: Option<i64>) -> Seq<Option<i64>>
    decreases expiries.len(),
{
    if expiries.len() == 0 || expiry_key(expiries.last()) <= expiry_key(e) {
        expiries.push(e)
    } else {
        insert_expiry(expiries.drop_last(), e).push(expiries.last())
    }
}

/// The expiries, the first to come first.
pub open spec fn by_expiry(expiries: Seq<Option<i64>>) -> Seq<Option<i64>>
    decreases expiries.len(),
{
    if expiries.len() == 0 {
        expiries
    } else {
        insert_expiry(by_expiry(expiries.drop_last()), expiries.last())
    }
}

/// The expiries of the credits that are shown: of those that are available the
/// first to come, and no more than there are said to be.
pub open spec fn shown(credits: Seq<RateLimitResetCredit>, count: int) -> Seq<Option<i64>> {
    let all = by_expiry(available(credits));
    if all.len() <= count {
        all
    } else {
        all.take(count)
    }
}

/// Whether no expiry is earlier than one before it.
pub open spec fn expiries_ordered(expiries: Seq<Option<i64>>) -> bool {
    forall|i: int, j: int|
        0 <= i < j < expiries.len() ==> expiry_key(#[trigger] expiries[i]) <= expiry_key(#[trigger] expiries[j])
}

proof fn lemma_insert_ordered(expiries: Seq<Option<i64>>, e: Option<i64>)
    requires
        expiries_ordered(expiries),
    ensures
        expiries_ordered(insert_expiry(expiries, e)),
        forall|i: int|
            0 <= i < insert_expiry(expiries, e).len() ==> insert_expiry(expiries, e)[i] == e || expiries.contains(
                #[trigger] insert_expiry(expiries, e)[i],
            ),
    decreases expiries.len(),
{
    let after = insert_expiry(expiries, e);
    if expiries.len() == 0 || expiry_key(expiries.last()) <= expiry_key(e) {
        assert forall|i: int| 0 <= i < after.len() implies after[i] == e || expiries.contains(#[trigger] after[i]) by {
            if i < expiries.len() {
                assert(expiries[i] == after[i]);
            }
        }
        assert forall|i: int, j: int| 0 <= i < j < after.len() implies expiry_key(#[trigger] after[i]) <= expiry_key(
            #[trigger] after[j],
        ) by {
            if j == expiries.len() && i < expiries.len() - 1 {
                assert(expiry_key(expiries[i]) <= expiry_key(expiries[expiries.len() - 1]));
            }
        }
    } else {
        let front = expiries.drop_last();
        let last = expiries.last();
        let inner = insert_expiry(front, e);
        lemma_insert_ordered(front, e);
        assert(expiries[expiries.len() - 1] == last);
        assert forall|i: int| 0 <= i < after.len() implies after[i] == e || expiries.contains(#[trigger] after[i]) by {
            if i < inner.len() {
                assert(after[i] == inner[i]);
                if inner[i] != e {
                    let k = choose|k: int| 0 <= k < front.len() && front[k] == inner[i];
                    assert(expiries[k] == inner[i]);
                }
            }
        }
        assert forall|i: int, j: int| 0 <= i < j < after.len() implies expiry_key(#[trigger] after[i]) <= expiry_key(
            #[trigger] after[j],
        ) by {
            assert(after[i] == inner[i]);
            if j == inner.len() {
                if inner[i] != e {
                    let k = choose|k: int| 0 <= k < front.len() && front[k] == inner[i];
                    assert(expiries[k] == inner[i]);
                }
            } else {
                assert(after[j] == inner[j]);
            }
        }
    }
}

/// The credits that are shown expire in order, and are no more than there are
/// said to be.
pub proof fn law_shown_credits_are_ordered(credits: Seq<RateLimitResetCredit>, count: int)
    requires
        count >= 0,
    ensures
        expiries_ordered(shown(credits, count)),
        shown(credits, count).len() <= count,
{
    lemma_by_expiry_ordered(available(credits));
    let all = by_expiry(available(credits));
    if all.len() > count {
        assert forall|i: int, j: int| 0 <= i < j < count implies expiry_key(#[trigger] all.take(count)[i])
            <= expiry_key(#[trigger] all.take(count)[j]) by {
            assert(all.take(count)[i] == all[i] && all.take(count)[j] == all[j]);
        }
    }
}

proof fn lemma_by_expiry_ordered(expiries: Seq<Option<i64>>)
    ensures
        expiries_ordered(by_expiry(expiries)),
    decreases expiries.len(),
{
    if expiries.len() > 0 {
        lemma_by_expiry_ordered(expiries.drop_last());
        lemma_insert_ordered(by_expiry(expiries.drop_last()), expiries.last());
    }
}

fn key_of(expires_at: Option<i64>) -> (r: i64)
    ensures
        r == expiry_key(expires_at),
{
    match expires_at {
        Some(at) => at,
        None => i64::MAX,
    }
}

fn insert_sorted(expiries: &mut Vec<Option<i64>>, e: Option<i64>)
    ensures
        final(expiries)@ == insert_expiry(old(expiries)@, e),
{
    let ghost all = expiries@;
    let mut i: usize = expiries.len();
    proof {
        assert(all.take(all.len() as int) =~= all);
        assert(insert_expiry(all, e) =~= insert_expiry(all.take(i as int), e) + all.skip(i as int));
    }
    while i > 0 && key_of(expiries[i - 1]) > key_of(e)
        invariant
            i <= expiries@.len(),
            expiries@ == all,
            insert_expiry(all, e) == insert_expiry(all.take(i as int), e) + all.skip(i as int),
        decreases i,
    {
        proof {
            let part = all.take(i as int);
            assert(part.last() == all[i - 1]);
            assert(part.drop_last() =~= all.take(i - 1));
            assert(insert_expiry(part, e) == insert_expiry(all.take(i - 1), e).push(part.last()));
            assert(insert_expiry(all.take(i - 1), e).push(part.last()) + all.skip(i as int) =~= insert_expiry(
                all.take(i - 1),
                e,
            ) + all.skip(i - 1));
        }
        i = i - 1;
    }
    proof {
        let part = all.take(i as int);
        if i > 0 {
            assert(part.last() == all[i - 1]);
        }
        assert(insert_expiry(part, e) == part.push(e));
    }
    expiries.insert(i, e);
    assert(expiries@ =~= all.take(i as int).push(e) + all.skip(i as int));
}

/// The expiries of the credits that are shown.
pub fn shown_expiries(credits: &Vec<RateLimitResetCredit>, count: u64) -> (r: Vec<Option<i64>>)
    ensures
        r@ == shown(credits@, count as int),
{
    let mut sorted: Vec<Option<i64>> = Vec::new();
    let mut i: usize = 0;
    assert(credits@.take(0) =~= Seq::empty());
    while i < credits.len()
        invariant
            i <= credits@.len(),
            sorted@ == by_expiry(available(credits@.take(i as int))),
        decreases credits@.len() - i,
    {
        proof {
            assert(credits@.take(i + 1).drop_last() =~= credits@.take(i as int));
            let before = available(credits@.take(i as int));
            assert(before.push(credits@[i as int].expires_at).drop_last() =~= before);
        }
        if credits[i].status == RateLimitResetCreditStatus::Available {
            insert_sorted(&mut sorted, credits[i].expires_at);
        }
        i = i + 1;
    }
    assert(credits@.take(credits@.len() as int) =~= credits@);
    let total: usize = sorted.len();
    if total as u64 <= count {
        sorted
    } else {
        let mut out: Vec<Option<i64>> = Vec::new();
        let mut k: usize = 0;
        while (k as u64) < count
            invariant
                k <= count,
                count < total,
                total == sorted@.len(),
                out@ == sorted@.take(k as int),
            decreases count - k,
        {
            out.push(sorted[k]);
            assert(out@ =~= sorted@.take(k + 1));
            k = k + 1;
        }
        out
    }
}

// ---------------------------------------------------------------------
// Lines
// ---------------------------------------------------------------------

/// The line on the credit with the number; `label` is when it expires, where
/// that can be told.
pub open spec fn credit_text(number: nat, expires_at: Option<i64>, label: Option<Seq<char>>) -> Seq<char> {
    let named = "#"@ + text::decimal(number);
    match expires_at {
        Some(_) => match label {
            Some(label) => named + " expires "@ + label,
            None => named + " has an unknown expiration"@,
        },
        None => named + " does not expire"@,
    }
}

/// The lines on the credits with the expiries.
pub open spec fn credit_lines(
    expiries: Seq<Option<i64>>,
    labels: Seq<Option<Seq<char>>>,
    scope: Seq<char>,
) -> Seq<DetailView> {
    Seq::new(
        expiries.len(),
        |i: int| DetailView { text: credit_text((i + 1) as nat, expiries[i], labels[i]), scope: Some(scope) },
    )
}

/// The lines on the credits, and one on how many are not among them.
pub open spec fn all_lines(
    expiries: Seq<Option<i64>>,
    labels: Seq<Option<Seq<char>>>,
    scope: Seq<char>,
    count: int,
) -> Seq<DetailView> {
    let lines = credit_lines(expiries, labels, scope);
    if count > expiries.len() {
        lines.push(
            DetailView {
                text: "+"@ + text::decimal((count - expiries.len()) as nat) + " more without expiry details"@,
                scope: None,
            },
        )
    } else {
        lines
    }
}

/// How many credits are available.
pub open spec fn count_of(available_count: int) -> int {
    if available_count > 0 {
        available_count
    } else {
        0
    }
}

/// How many credits are available, in words.
pub open spec fn summary_text(available_count: int) -> Seq<char> {
    if count_of(available_count) == 0 {
        "none available"@
    } else {
        text::decimal(count_of(available_count) as nat) + " available"@
    }
}

/// When the credits expire, as far as it can be told.
pub open spec fn label_views(labels: Seq<Option<String>>) -> Seq<Option<Seq<char>>> {
    labels.map_values(|l: Option<String>| text::opt_view(l))
}

/// The lines on the credits, given when those that are shown expire.
pub fn compose_details(
    expiries: &Vec<Option<i64>>,
    labels: &Vec<Option<String>>,
    scope: &'static str,
    count: u64,
) -> (r: Vec<StatusResetCreditDetail>)
    requires
        labels@.len() == expiries@.len(),
    ensures
        detail_views(r@) == all_lines(expiries@, label_views(labels@), scope@, count as int),
{
    let mut details: Vec<StatusResetCreditDetail> = Vec::new();
    let mut i: usize = 0;
    let ghost lines = credit_lines(expiries@, label_views(labels@), scope@);
    assert(detail_views(details@) =~= lines.take(0));
    while i < expiries.len()
        invariant
            i <= expiries@.len(),
            labels@.len() == expiries@.len(),
            lines == credit_lines(expiries@, label_views(labels@), scope@),
            detail_views(details@) == lines.take(i as int),
        decreases expiries@.len() - i,
    {
        let mut line = "#".to_string();
        text::push_decimal(&mut line, i as u64 + 1);
        match expiries[i] {
            Some(_) => match &labels[i] {
                Some(label) => {
                    line.push_str(" expires ");
                    line.push_str(label.as_str());
                },
                None => {
                    line.push_str(" has an unknown expiration");
                },
            },
            None => {
                line.push_str(" does not expire");
            },
        }
        let ghost held = detail_views(details@);
        let ghost said = line@;
        proof {
            assert(label_views(labels@)[i as int] == text::opt_view(labels@[i as int]));
            assert(said == credit_text((i + 1) as nat, expiries@[i as int], label_views(labels@)[i as int]));
        }
        details.push(StatusResetCreditDetail { text: line, scope: Some(scope) });
        proof {
            assert(detail_views(details@) =~= held.push(DetailView { text: said, scope: Some(scope@) }));
            assert(detail_views(details@) =~= lines.take(i + 1));
        }
        i = i + 1;
    }
    assert(lines.take(lines.len() as int) =~= lines);
    if count > expiries.len() as u64 {
        let mut line = "+".to_string();
        text::push_decimal(&mut line, count - expiries.len() as u64);
        line.push_str(" more without expiry details");
        let ghost held = detail_views(details@);
        let ghost said = line@;
        details.push(StatusResetCreditDetail { text: line, scope: None });
        assert(detail_views(details@) =~= held.push(DetailView { text: said, scope: None }));
    }
    details
}

/// The short name of a month.
pub open spec fn month_name(month: int) -> Seq<char> {
    if month == 1 {
        "Jan"@
    } else if month == 2 {
        "Feb"@
    } else if month == 3 {
        "Mar"@
    } else if month == 4 {
        "Apr"@
    } else if month == 5 {
        "May"@
    } else if month == 6 {
        "Jun"@
    } else if month == 7 {
        "Jul"@
    } else if month == 8 {
        "Aug"@
    } else if month == 9 {
        "Sep"@
    } else if month == 10 {
        "Oct"@
    } else if month == 11 {
        "Nov"@
    } else {
        "Dec"@
    }
}

fn short_month(month: u8) -> (r: &'static str)
    ensures
        r@ == month_name(month as int),
{
    match month {
        1 => "Jan",
        2 => "Feb",
        3 => "Mar",
        4 => "Apr",
        5 => "May",
        6 => "Jun",
        7 => "Jul",
        8 => "Aug",
        9 => "Sep",
        10 => "Oct",
        11 => "Nov",
        _ => "Dec",
    }
}

/// The year in four digits; one that does not fit has a sign.
pub open spec fn year_label(year: int) -> Seq<char> {
    if year < 0 {
        "-"@ + text::padded((-year) as nat, 4)
    } else if year > 9999 {
        "+"@ + text::padded(year as nat, 4)
    } else {
        text::padded(year as nat, 4)
    }
}

/// A date and time of day as it is shown, such as `09:30 on 1 May 2026`.
pub open spec fn label_text(at: CivilTime) -> Seq<char> {
    text::padded(at.hour as nat, 2) + ":"@ + text::padded(at.minute as nat, 2) + " on "@ + text::decimal(at.day as nat)
        + " "@ + month_name(at.month as int) + " "@ + year_label(at.year as int)
}

/// Shows a date and time of day.
pub fn show_time(at: CivilTime) -> (r: String)
    ensures
        r@ == label_text(at),
{
    let mut year = String::new();
    if at.year < 0 {
        year.push_str("-");
        text::push_padded(&mut year, (-(at.year as i64)) as u64, 4);
    } else {
        if at.year > 9999 {
            year.push_str("+");
        }
        text::push_padded(&mut year, at.year as u64, 4);
    }
    assert(year@ =~= year_label(at.year as int));
    let mut out = String::new();
    text::push_padded(&mut out, at.hour as u64, 2);
    assert(out@ =~= text::padded(at.hour as nat, 2));
    out.push_str(":");
    text::push_padded(&mut out, at.minute as u64, 2);
    out.push_str(" on ");
    text::push_decimal(&mut out, at.day as u64);
    out.push_str(" ");
    out.push_str(short_month(at.month));
    out.push_str(" ");
    out.push_str(year.as_str());
    out
}

/// Whether the label shows the instant, in some time zone.
pub open spec fn shows_instant(label: Seq<char>, seconds: int) -> bool {
    exists|at: CivilTime| filename::reads_somewhere(at, seconds) && label == #[trigger] label_text(at)
}

/// When a credit expires, in the machine's own time zone, where the calendar
/// holds it.
fn expiry_label(seconds: i64) -> (r: Option<String>)
    ensures
        match r {
            Some(label) => schedule::in_calendar(seconds as int) && shows_instant(label@, seconds as int),
            None => !schedule::in_calendar(seconds as int),
        },
{
    match filename::local_civil_time(seconds) {
        Some(at) => Some(show_time(at)),
        None => None,
    }
}

/// Whether the label is that of the expiry: it shows it in some time zone where
/// the calendar holds it, and there is none else.
pub open spec fn label_fits(expiry: Option<i64>, label: Option<Seq<char>>) -> bool {
    match expiry {
        Some(at) => match label {
            Some(l) => schedule::in_calendar(at as int) && shows_instant(l, at as int),
            None => !schedule::in_calendar(at as int),
        },
        None => label is None,
    }
}

/// Whether each label is that of its expiry.
pub open spec fn labels_fit(expiries: Seq<Option<i64>>, labels: Seq<Option<Seq<char>>>) -> bool {
    &&& labels.len() == expiries.len()
    &&& forall|i: int| 0 <= i < expiries.len() ==> label_fits(expiries[i], #[trigger] labels[i])
}

/// The credits of an account as they are shown. Expiries are given in the
/// machine's own time zone.
pub fn compose_reset_credits_data(
    summary: &Option<RateLimitResetCreditsSummary>,
    limits: &Vec<RateLimitSnapshotDisplay>,
    plan: Option<AccountPlanType>,
) -> (r: Option<StatusResetCreditsData>)
    ensures
        r is Some <==> *summary is Some,
        r matches Some(data) ==> {
            let told = summary->Some_0;
            let count = count_of(told.available_count as int);
            &&& data.summary@ == summary_text(told.available_count as int)
            &&& (told.credits is None || count == 0) ==> data.details@.len() == 0
            &&& (told.credits is Some && count > 0) ==> exists|labels: Seq<Option<Seq<char>>>|
                labels_fit(shown(told.credits->Some_0@, count), labels) && detail_views(data.details@)
                    == #[trigger] all_lines(
                    shown(told.credits->Some_0@, count),
                    labels,
                    scope_of(limits@, plan).label(),
                    count,
                )
        },
{
    let told = match summary {
        Some(told) => told,
        None => {
            return None;
        },
    };
    let count: u64 = if told.available_count > 0 {
        told.available_count as u64
    } else {
        0
    };
    if count == 0 {
        return Some(StatusResetCreditsData { summary: "none available".to_string(), details: Vec::new() });
    }
    let mut value = String::new();
    text::push_decimal(&mut value, count);
    value.push_str(" available");
    assert(value@ =~= summary_text(told.available_count as int));
    match &told.credits {
        None => Some(StatusResetCreditsData { summary: value, details: Vec::new() }),
        Some(credits) => {
            let scope = rate_limit_reset_scope(limits, plan).status_label();
            let expiries = shown_expiries(credits, count);
            let mut labels: Vec<Option<String>> = Vec::new();
            let mut i: usize = 0;
            while i < expiries.len()
                invariant
                    i <= expiries@.len(),
                    labels@.len() == i,
                    forall|k: int| 0 <= k < i ==> label_fits(expiries@[k], text::opt_view(#[trigger] labels@[k])),
                decreases expiries@.len() - i,
            {
                let label = match expiries[i] {
                    Some(at) => expiry_label(at),
                    None => None,
                };
                labels.push(label);
                i = i + 1;
            }
            assert(labels_fit(expiries@, label_views(labels@))) by {
                assert forall|k: int| 0 <= k < expiries@.len() implies label_fits(
                    expiries@[k],
                    #[trigger] label_views(labels@)[k],
                ) by {
                    assert(label_views(labels@)[k] == text::opt_view(labels@[k]));
                }
            }
            let details = compose_details(&expiries, &labels, scope, count);
            Some(StatusResetCreditsData { summary: value, details })
        },
    }
}

/// The limits are monthly exactly where the first of them that is named `codex`,
/// in letters of either case, has a monthly window; the others do not matter.
pub proof fn law_first_codex_limit_decides(limits: Seq<RateLimitSnapshotDisplay>, i: int)
    ensures
        0 <= i < limits.len() && text::ascii_lower(limits[i].limit_id@) == text::ascii_lower("codex"@) && (forall|j: int|
            0 <= j < i ==> text::ascii_lower((#[trigger] limits[j]).limit_id@) != text::ascii_lower("codex"@))
            ==> has_monthly_window(limits) == ((limits[i].primary matches Some(w) && w.label@ == "monthly"@) || (
        limits[i].secondary matches Some(w) && w.label@ == "monthly"@)),
        (forall|j: int|
            0 <= j < limits.len() ==> text::ascii_lower((#[trigger] limits[j]).limit_id@) != text::ascii_lower(
                "codex"@,
            )) ==> !has_monthly_window(limits),
    decreases limits.len(),
{
    if limits.len() > 0 && text::ascii_lower(limits[0].limit_id@) != text::ascii_lower("codex"@) {
        let rest = limits.skip(1);
        law_first_codex_limit_decides(rest, i - 1);
        assert forall|j: int| 0 <= j < rest.len() implies #[trigger] rest[j] == limits[j + 1] by {}
        if 0 < i < limits.len() {
            assert(rest[i - 1] == limits[i]);
        }
    }
}

/// A reset is one of the month where the limits are monthly, or the plan is one
/// of the two that have only such; else it is one of the week and the five hours.
pub proof fn law_scope_of_a_reset(limits: Seq<RateLimitSnapshotDisplay>, plan: Option<AccountPlanType>)
    ensures
        scope_of(limits, plan) is Monthly <==> has_monthly_window(limits) || plan == Some(AccountPlanType::Free) || plan
            == Some(AccountPlanType::Go),
        scope_of(limits, plan).label() == (if scope_of(limits, plan) is Monthly {
            "Full reset (Monthly)"@
        } else {
            "Full reset (Weekly + 5h)"@
        }),
{
}

/// The credits that are shown are those that are available, in the order in which
/// they were told.
pub proof fn law_only_available_credits_count(
    a: Seq<RateLimitResetCredit>,
    b: Seq<RateLimitResetCredit>,
    credit: RateLimitResetCredit,
)
    ensures
        available(a + b) == available(a) + available(b),
        available(seq![credit]) == (if credit.status is Available {
            seq![credit.expires_at]
        } else {
            Seq::empty()
        }),
    decreases b.len(),
{
    reveal_with_fuel(available, 2);
    assert(seq![credit].drop_last() =~= Seq::<RateLimitResetCredit>::empty());
    assert(available(Seq::<RateLimitResetCredit>::empty()) =~= Seq::<Option<i64>>::empty());
    if credit.status is Available {
        assert(available(seq![credit]) =~= seq![credit.expires_at]);
    }
    if b.len() == 0 {
        assert(a + b =~= a);
        assert(available(a + b) =~= available(a) + available(b));
    } else {
        law_only_available_credits_count(a, b.drop_last(), credit);
        assert((a + b).drop_last() =~= a + b.drop_last());
        assert(available(a + b) =~= available(a) + available(b));
    }
}

proof fn lemma_insert_expiry(expiries: Seq<Option<i64>>, e: Option<i64>)
    ensures
        insert_expiry(expiries, e).len() == expiries.len() + 1,
        insert_expiry(expiries, e).to_multiset() == expiries.to_multiset().insert(e),
    decreases expiries.len(),
{
    broadcast use vstd::seq_lib::group_to_multiset_ensures;

    if expiries.len() == 0 || expiry_key(expiries.last()) <= expiry_key(e) {
    } else {
        let front = expiries.drop_last();
        lemma_insert_expiry(front, e);
        assert(expiries =~= front.push(expiries.last()));
        assert(insert_expiry(expiries, e).to_multiset() =~= front.to_multiset().insert(e).insert(expiries.last()));
        assert(expiries.to_multiset().insert(e) =~= front.to_multiset().insert(expiries.last()).insert(e));
    }
}

proof fn lemma_by_expiry(expiries: Seq<Option<i64>>)
    ensures
        by_expiry(expiries).len() == expiries.len(),
        by_expiry(expiries).to_multiset() == expiries.to_multiset(),
    decreases expiries.len(),
{
    broadcast use vstd::seq_lib::group_to_multiset_ensures;

    if expiries.len() > 0 {
        let front = expiries.drop_last();
        lemma_by_expiry(front);
        lemma_insert_expiry(by_expiry(front), expiries.last());
        assert(expiries =~= front.push(expiries.last()));
    }
}

/// No credit is lost or made up by ordering them, and as many are shown as there
/// are, or as are counted; those that are left out expire no sooner than those
/// that are shown, and one that does not expire comes last.
pub proof fn law_soonest_credits_are_shown(credits: Seq<RateLimitResetCredit>, count: int, i: int, j: int)
    requires
        count >= 0,
    ensures
        by_expiry(available(credits)).to_multiset() == available(credits).to_multiset(),
        shown(credits, count).len() == (if available(credits).len() <= count {
            available(credits).len() as int
        } else {
            count
        }),
        0 <= i < shown(credits, count).len() ==> shown(credits, count)[i] == by_expiry(available(credits))[i],
        0 <= i < j < shown(credits, count).len() && shown(credits, count)[j] is Some ==> (shown(credits, count)[i]
            is Some && shown(credits, count)[i]->0 <= shown(credits, count)[j]->0) || shown(credits, count)[j] == Some(
            i64::MAX,
        ),
{
    lemma_by_expiry(available(credits));
    law_shown_credits_are_ordered(credits, count);
    if 0 <= i < j < shown(credits, count).len() {
        assert(expiry_key(shown(credits, count)[i]) <= expiry_key(shown(credits, count)[j]));
    }
}

/// The lines number the credits from one on, tell of each when it expires, and
/// tell how many more there are of which that is not known.
pub proof fn law_credits_are_numbered(
    expiries: Seq<Option<i64>>,
    labels: Seq<Option<Seq<char>>>,
    scope: Seq<char>,
    count: int,
    i: int,
)
    requires
        labels.len() == expiries.len(),
        0 <= i < expiries.len(),
    ensures
        all_lines(expiries, labels, scope, count)[i].scope == Some(scope),
        all_lines(expiries, labels, scope, count)[i].text == (match (expiries[i], labels[i]) {
            (None, _) => "#"@ + text::decimal((i + 1) as nat) + " does not expire"@,
            (Some(_), None) => "#"@ + text::decimal((i + 1) as nat) + " has an unknown expiration"@,
            (Some(_), Some(label)) => "#"@ + text::decimal((i + 1) as nat) + " expires "@ + label,
        }),
        all_lines(expiries, labels, scope, count).len() == expiries.len() + (if count > expiries.len() {
            1int
        } else {
            0int
        }),
        count > expiries.len() ==> all_lines(expiries, labels, scope, count).last() == (DetailView {
            text: "+"@ + text::decimal((count - expiries.len()) as nat) + " more without expiry details"@,
            scope: None,
        }),
{
}

/// What is available is told by its number, and a number below one is none.
pub proof fn law_summary_of_credits(available_count: int)
    ensures
        available_count <= 0 ==> summary_text(available_count) == "none available"@ && count_of(available_count) == 0,
        available_count > 0 ==> summary_text(available_count) == text::decimal(available_count as nat) + " available"@
            && count_of(available_count) == available_count,
{
}

/// The months have the names that they have, three letters each.
pub proof fn law_month_names(month: int)
    requires
        1 <= month <= 12,
    ensures
        month_name(month).len() == 3,
        month_name(month) == "JanFebMarAprMayJunJulAugSepOctNovDec"@.subrange(3 * month - 3, 3 * month),
{
    reveal_strlit("JanFebMarAprMayJunJulAugSepOctNovDec");
    reveal_strlit("Jan");
    reveal_strlit("Feb");
    reveal_strlit("Mar");
    reveal_strlit("Apr");
    reveal_strlit("May");
    reveal_strlit("Jun");
    reveal_strlit("Jul");
    reveal_strlit("Aug");
    reveal_strlit("Sep");
    reveal_strlit("Oct");
    reveal_strlit("Nov");
    reveal_strlit("Dec");
    let all = "JanFebMarAprMayJunJulAugSepOctNovDec"@;
    assert(all.subrange(0, 3) =~= "Jan"@);
    assert(all.subrange(3, 6) =~= "Feb"@);
    assert(all.subrange(6, 9) =~= "Mar"@);
    assert(all.subrange(9, 12) =~= "Apr"@);
    assert(all.subrange(12, 15) =~= "May"@);
    assert(all.subrange(15, 18) =~= "Jun"@);
    assert(all.subrange(18, 21) =~= "Jul"@);
    assert(all.subrange(21, 24) =~= "Aug"@);
    assert(all.subrange(24, 27) =~= "Sep"@);
    assert(all.subrange(27, 30) =~= "Oct"@);
    assert(all.subrange(30, 33) =~= "Nov"@);
    assert(all.subrange(33, 36) =~= "Dec"@);
}

/// A time is shown as hour and minute, in two digits each, and then the day, the
/// month and the year.
pub proof fn law_time_is_shown_in_order(at: CivilTime)
    requires
        at.hour < 24,
        at.minute < 60,
        1 <= at.month <= 12,
        0 <= at.year <= 9999,
    ensures
        text::digits_value(label_text(at).subrange(0, 2)) == at.hour,
        label_text(at)[2] == ':',
        text::digits_value(label_text(at).subrange(3, 5)) == at.minute,
        label_text(at).subrange(5, 9) == " on "@,
        text::digits_value(label_text(at).skip(label_text(at).len() - 4)) == at.year,
        label_text(at).subrange(label_text(at).len() - 8, label_text(at).len() - 5) == month_name(at.month as int),
        text::digits_value(label_text(at).subrange(9, label_text(at).len() - 9)) == at.day,
{
    reveal_strlit(":");
    reveal_strlit(" on ");
    reveal_strlit(" ");
    text::lemma_padded_two(at.hour as nat);
    text::lemma_padded_two(at.minute as nat);
    text::lemma_padded_four(at.year as nat);
    text::law_decimal_is_read_back(at.day as nat, u8::MAX as nat);
    law_month_names(at.month as int);
    let l = label_text(at);
    assert(l.subrange(0, 2) =~= text::padded(at.hour as nat, 2));
    assert(l.subrange(3, 5) =~= text::padded(at.minute as nat, 2));
    assert(l.subrange(5, 9) =~= " on "@);
    assert(l.skip(l.len() - 4) =~= text::padded(at.year as nat, 4));
    assert(l.subrange(l.len() - 8, l.len() - 5) =~= month_name(at.month as int));
    assert(l.subrange(9, l.len() - 9) =~= text::decimal(at.day as nat));
}

/// A reset is described by the limits that it resets.
pub proof fn law_resets_in_words()
    ensures
        RateLimitResetScope::Monthly.sentence() == "Reset your current monthly usage limit."@,
        RateLimitResetScope::WeeklyAndFiveHour.sentence() == "Reset your current 5-hour and weekly usage limits."@,
{
}

/// A year is shown in four digits, with a sign where it is negative or needs more.
pub proof fn law_year_is_shown_in_four_digits(year: int)
    ensures
        0 <= year <= 9999 ==> year_label(year) == text::padded(year as nat, 4),
        year > 9999 ==> year_label(year) == "+"@ + text::decimal(year as nat),
        year < 0 ==> year_label(year) == "-"@ + text::padded((-year) as nat, 4),
{
    if year > 9999 {
        reveal_with_fuel(text::decimal, 5);
    }
}

/// A credit has the label of its time where it has a time in the calendar, and
/// none otherwise.
pub proof fn law_labels_go_with_their_credits(
    expiries: Seq<Option<i64>>,
    labels: Seq<Option<Seq<char>>>,
    i: int,
)
    requires
        labels_fit(expiries, labels),
        0 <= i < expiries.len(),
    ensures
        labels.len() == expiries.len(),
        expiries[i] is None ==> labels[i] is None,
        expiries[i] matches Some(at) ==> (labels[i] is Some <==> schedule::in_calendar(at as int)),
        expiries[i] matches Some(at) ==> labels[i] is Some ==> exists|time: CivilTime|
            filename::reads_somewhere(time, at as int) && labels[i]->0 == #[trigger] label_text(time),
{
    assert(label_fits(expiries[i], labels[i]));
}

} // verus!
