//! Authentication that the caller brings.

use vstd::prelude::*;

use crate::text;

verus! {

/// The plan of an account.
#[derive(Clone, Copy, Debug, PartialEq, Eq, Structural)]
pub enum AccountPlanType {
    Free,
    Go,
    Plus,
    Pro,
    Team,
    Business,
    Enterprise,
    Edu,
    Unknown,
}

/// What the caller's credentials are good for.
#[derive(Clone, Copy, Debug, PartialEq, Eq, Structural)]
pub struct ExternalProvidedAuthCapabilities {
    /// They authenticate requests to the backend.
    pub uses_codex_backend: bool,
    /// They stand for a person with an account.
    pub has_chatgpt_account: bool,
}

impl Default for ExternalProvidedAuthCapabilities {
    fn default() -> (r: Self)
        ensures
            !r.uses_codex_backend && !r.has_chatgpt_account,
    {
        ExternalProvidedAuthCapabilities { uses_codex_backend: false, has_chatgpt_account: false }
    }
}

/// Authentication that the caller brings: headers for requests, and whom they
/// stand for.
pub struct ExternalProvidedAuth {
    headers: Vec<(String, String)>,
    account_id: Option<String>,
    user_id: String,
    account_email: Option<String>,
    account_plan_type: Option<AccountPlanType>,
    is_fedramp_account: bool,
    capabilities: ExternalProvidedAuthCapabilities,
}

/// What the authentication says.
#[verifier::ext_equal]
pub struct ExternalView {
    pub headers: Seq<(Seq<char>, Seq<char>)>,
    pub account_id: Option<Seq<char>>,
    pub user_id: Seq<char>,
    pub account_email: Option<Seq<char>>,
    pub account_plan_type: Option<AccountPlanType>,
    pub is_fedramp_account: bool,
    pub capabilities: ExternalProvidedAuthCapabilities,
}

/// What the headers say.
pub open spec fn header_views(headers: Seq<(String, String)>) -> Seq<(Seq<char>, Seq<char>)> {
    headers.map_values(|h: (String, String)| (h.0@, h.1@))
}

/// The headers, in order of their names, with one more; it replaces the one of
/// its name.
pub open spec fn with_header(headers: Seq<(Seq<char>, Seq<char>)>, header: (Seq<char>, Seq<char>)) -> Seq<
    (Seq<char>, Seq<char>),
>
    decreases headers.len(),
{
    if headers.len() == 0 || text::before(headers.last().0, header.0) {
        headers.push(header)
    } else if headers.last().0 == header.0 {
        headers.drop_last().push(header)
    } else {
        with_header(headers.drop_last(), header).push(headers.last())
    }
}

/// The headers in order of their names, of several with one name the last.
pub open spec fn header_map(headers: Seq<(Seq<char>, Seq<char>)>) -> Seq<(Seq<char>, Seq<char>)>
    decreases headers.len(),
{
    if headers.len() == 0 {
        headers
    } else {
        with_header(header_map(headers.drop_last()), headers.last())
    }
}

fn insert_header(headers: &mut Vec<(String, String)>, header: (String, String))
    ensures
        header_views(final(headers)@) == with_header(header_views(old(headers)@), (header.0@, header.1@)),
{
    let ghost all = header_views(headers@);
    let ghost said = (header.0@, header.1@);
    let mut i: usize = headers.len();
    proof {
        assert(all.take(all.len() as int) =~= all);
        assert(with_header(all, said) =~= with_header(all.take(i as int), said) + all.skip(i as int));
    }
    while i > 0 && text::str_before(header.0.as_str(), headers[i - 1].0.as_str())
        invariant
            i <= headers@.len(),
            headers@ == old(headers)@,
            all == header_views(headers@),
            said == (header.0@, header.1@),
            with_header(all, said) == with_header(all.take(i as int), said) + all.skip(i as int),
        decreases i,
    {
        proof {
            let part = all.take(i as int);
            assert(part.last() == all[i - 1]);
            assert(part.drop_last() =~= all.take(i - 1));
            text::lemma_before_total(said.0, part.last().0);
            assert(with_header(part, said) == with_header(all.take(i - 1), said).push(part.last()));
            assert(with_header(all.take(i - 1), said).push(part.last()) + all.skip(i as int) =~= with_header(
                all.take(i - 1),
                said,
            ) + all.skip(i - 1));
        }
        i = i - 1;
    }
    let ghost part = all.take(i as int);
    if i > 0 && text::str_eq(header.0.as_str(), headers[i - 1].0.as_str()) {
        proof {
            assert(part.last() == all[i - 1]);
            text::lemma_before_total(said.0, part.last().0);
            assert(with_header(part, said) == part.drop_last().push(said));
        }
        headers.set(i - 1, header);
        assert(header_views(headers@) =~= part.drop_last().push(said) + all.skip(i as int));
    } else {
        proof {
            if i > 0 {
                assert(part.last() == all[i - 1]);
                text::lemma_before_total(said.0, part.last().0);
            }
            assert(with_header(part, said) == part.push(said));
        }
        headers.insert(i, header);
        assert(header_views(headers@) =~= part.push(said) + all.skip(i as int));
    }
}

/// A text in quotes, as it is shown.
pub uninterp spec fn quoted_text(s: Seq<char>) -> Seq<char>;

/// The `Debug` text of a string slice: a function of its characters, named
/// `quoted_text`.
#[verifier::external_body]
fn quote(s: &str) -> (r: String)
    ensures
        r@ == quoted_text(s@),
{
    format!("{:?}", s)
}

/// A bool, as it is shown.
pub open spec fn bool_text(b: bool) -> Seq<char> {
    if b {
        "true"@
    } else {
        "false"@
    }
}

fn show_bool(b: bool) -> (r: &'static str)
    ensures
        r@ == bool_text(b),
{
    if b {
        "true"
    } else {
        "false"
    }
}

/// The account, as it is shown.
pub open spec fn account_text(account_id: Option<Seq<char>>) -> Seq<char> {
    match account_id {
        Some(id) => "Some("@ + quoted_text(id) + ")"@,
        None => "None"@,
    }
}

fn show_account(account_id: &Option<String>) -> (r: String)
    ensures
        r@ == account_text(text::opt_view(*account_id)),
{
    match account_id {
        Some(id) => {
            let mut shown = "Some(".to_string();
            shown.push_str(quote(id.as_str()).as_str());
            shown.push_str(")");
            shown
        },
        None => "None".to_string(),
    }
}

/// The plan, as it is shown.
pub open spec fn plan_text(plan: Option<AccountPlanType>) -> Seq<char> {
    match plan {
        None => "None"@,
        Some(AccountPlanType::Free) => "Some(Free)"@,
        Some(AccountPlanType::Go) => "Some(Go)"@,
        Some(AccountPlanType::Plus) => "Some(Plus)"@,
        Some(AccountPlanType::Pro) => "Some(Pro)"@,
        Some(AccountPlanType::Team) => "Some(Team)"@,
        Some(AccountPlanType::Business) => "Some(Business)"@,
        Some(AccountPlanType::Enterprise) => "Some(Enterprise)"@,
        Some(AccountPlanType::Edu) => "Some(Edu)"@,
        Some(AccountPlanType::Unknown) => "Some(Unknown)"@,
    }
}

fn show_plan(plan: Option<AccountPlanType>) -> (r: &'static str)
    ensures
        r@ == plan_text(plan),
{
    match plan {
        None => "None",
        Some(AccountPlanType::Free) => "Some(Free)",
        Some(AccountPlanType::Go) => "Some(Go)",
        Some(AccountPlanType::Plus) => "Some(Plus)",
        Some(AccountPlanType::Pro) => "Some(Pro)",
        Some(AccountPlanType::Team) => "Some(Team)",
        Some(AccountPlanType::Business) => "Some(Business)",
        Some(AccountPlanType::Enterprise) => "Some(Enterprise)",
        Some(AccountPlanType::Edu) => "Some(Edu)",
        Some(AccountPlanType::Unknown) => "Some(Unknown)",
    }
}

/// The authentication as it is shown: of the headers nothing, of the email only
/// whether there is one.
pub open spec fn shown_text(auth: ExternalView) -> Seq<char> {
    let email = if auth.account_email is Some {
        "Some(\"<redacted>\")"@
    } else {
        "None"@
    };
    "ExternalProvidedAuth { headers: \"<redacted>\", account_id: "@ + account_text(auth.account_id) + ", user_id: "@
        + quoted_text(auth.user_id) + ", account_email: "@ + email + ", account_plan_type: "@ + plan_text(
        auth.account_plan_type,
    ) + ", is_fedramp_account: "@ + bool_text(auth.is_fedramp_account)
        + ", capabilities: ExternalProvidedAuthCapabilities { uses_codex_backend: "@ + bool_text(
        auth.capabilities.uses_codex_backend,
    ) + ", has_chatgpt_account: "@ + bool_text(auth.capabilities.has_chatgpt_account) + " } }"@
}

/// What is shown of an authentication tells neither its headers nor its email:
/// two that differ in these alone are shown alike.
pub proof fn law_secrets_are_not_shown(a: ExternalView, b: ExternalView)
    requires
        a.account_email is Some <==> b.account_email is Some,
        a == (ExternalView { headers: a.headers, account_email: a.account_email, ..b }),
    ensures
        shown_text(a) == shown_text(b),
{
}

impl ExternalProvidedAuth {
    /// What the authentication says.
    pub closed spec fn view(&self) -> ExternalView {
        ExternalView {
            headers: header_views(self.headers@),
            account_id: text::opt_view(self.account_id),
            user_id: self.user_id@,
            account_email: text::opt_view(self.account_email),
            account_plan_type: self.account_plan_type,
            is_fedramp_account: self.is_fedramp_account,
            capabilities: self.capabilities,
        }
    }

    /// The authentication of a user with the headers; it is good for nothing
    /// until the caller says for what.
    pub fn new(headers: Vec<(String, String)>, user_id: &str) -> (r: Self)
        ensures
            r@ == (ExternalView {
                headers: header_map(header_views(headers@)),
                account_id: None,
                user_id: user_id@,
                account_email: None,
                account_plan_type: Some(AccountPlanType::Unknown),
                is_fedramp_account: false,
                capabilities: ExternalProvidedAuthCapabilities {
                    uses_codex_backend: false,
                    has_chatgpt_account: false,
                },
            }),
    {
        let ghost all = header_views(headers@);
        let mut sorted: Vec<(String, String)> = Vec::new();
        let mut i: usize = 0;
        assert(all.take(0) =~= header_views(sorted@));
        while i < headers.len()
            invariant
                i <= headers@.len(),
                all == header_views(headers@),
                header_views(sorted@) == header_map(all.take(i as int)),
            decreases headers@.len() - i,
        {
            assert(all.take(i + 1).drop_last() =~= all.take(i as int));
            insert_header(&mut sorted, (headers[i].0.clone(), headers[i].1.clone()));
            i = i + 1;
        }
        assert(all.take(all.len() as int) =~= all);
        ExternalProvidedAuth {
            headers: sorted,
            account_id: None,
            user_id: user_id.to_string(),
            account_email: None,
            account_plan_type: Some(AccountPlanType::Unknown),
            is_fedramp_account: false,
            capabilities: ExternalProvidedAuthCapabilities::default(),
        }
    }

    /// The authentication with the account.
    pub fn with_account_id(self, account_id: &str) -> (r: Self)
        ensures
            r@ == (ExternalView { account_id: Some(account_id@), ..self@ }),
    {
        let mut auth = self;
        auth.account_id = Some(account_id.to_string());
        auth
    }

    /// The authentication with the email of the account.
    pub fn with_account_email(self, account_email: &str) -> (r: Self)
        ensures
            r@ == (ExternalView { account_email: Some(account_email@), ..self@ }),
    {
        let mut auth = self;
        auth.account_email = Some(account_email.to_string());
        auth
    }

    /// The authentication with the plan of the account.
    pub fn with_account_plan_type(self, account_plan_type: AccountPlanType) -> (r: Self)
        ensures
            r@ == (ExternalView { account_plan_type: Some(account_plan_type), ..self@ }),
    {
        let mut auth = self;
        auth.account_plan_type = Some(account_plan_type);
        auth
    }

    /// The authentication of an account that is, or is not, a FedRAMP account.
    pub fn with_fedramp_account(self, is_fedramp_account: bool) -> (r: Self)
        ensures
            r@ == (ExternalView { is_fedramp_account, ..self@ }),
    {
        let mut auth = self;
        auth.is_fedramp_account = is_fedramp_account;
        auth
    }

    /// The authentication that is good for this.
    pub fn with_capabilities(self, capabilities: ExternalProvidedAuthCapabilities) -> (r: Self)
        ensures
            r@ == (ExternalView { capabilities, ..self@ }),
    {
        let mut auth = self;
        auth.capabilities = capabilities;
        auth
    }

    /// The authentication as it is shown where errors are looked for.
    pub fn debug_text(&self) -> (r: String)
        ensures
            r@ == shown_text(self@),
    {
        let mut shown = "ExternalProvidedAuth { headers: \"<redacted>\", account_id: ".to_string();
        shown.push_str(show_account(&self.account_id).as_str());
        shown.push_str(", user_id: ");
        shown.push_str(quote(self.user_id.as_str()).as_str());
        shown.push_str(", account_email: ");
        if self.account_email.is_some() {
            shown.push_str("Some(\"<redacted>\")");
        } else {
            shown.push_str("None");
        }
        shown.push_str(", account_plan_type: ");
        shown.push_str(show_plan(self.account_plan_type));
        shown.push_str(", is_fedramp_account: ");
        shown.push_str(show_bool(self.is_fedramp_account));
        shown.push_str(", capabilities: ExternalProvidedAuthCapabilities { uses_codex_backend: ");
        shown.push_str(show_bool(self.capabilities.uses_codex_backend));
        shown.push_str(", has_chatgpt_account: ");
        shown.push_str(show_bool(self.capabilities.has_chatgpt_account));
        shown.push_str(" } }");
        shown
    }

    /// The headers, in order of their names.
    pub fn headers(&self) -> (r: &Vec<(String, String)>)
        ensures
            header_views(r@) == self@.headers,
    {
        &self.headers
    }

    /// The account.
    pub fn account_id(&self) -> (r: &Option<String>)
        ensures
            text::opt_view(*r) == self@.account_id,
    {
        &self.account_id
    }

    /// The email of the account.
    pub fn account_email(&self) -> (r: &Option<String>)
        ensures
            text::opt_view(*r) == self@.account_email,
    {
        &self.account_email
    }

    /// The plan of the account.
    pub fn account_plan_type(&self) -> (r: Option<AccountPlanType>)
        ensures
            r == self@.account_plan_type,
    {
        self.account_plan_type
    }

    /// Whether the account is a FedRAMP account.
    pub fn is_fedramp_account(&self) -> (r: bool)
        ensures
            r == self@.is_fedramp_account,
    {
        self.is_fedramp_account
    }

    /// The user.
    pub fn user_id(&self) -> (r: &str)
        ensures
            r@ == self@.user_id,
    {
        self.user_id.as_str()
    }

    /// What the authentication is good for.
    pub fn capabilities(&self) -> (r: ExternalProvidedAuthCapabilities)
        ensures
            r == self@.capabilities,
    {
        self.capabilities
    }

    /// Whether it stands for a person with an account.
    pub fn has_chatgpt_account(&self) -> (r: bool)
        ensures
            r == self@.capabilities.has_chatgpt_account,
    {
        self.capabilities.has_chatgpt_account
    }

    /// Whether it authenticates requests to the backend.
    pub fn uses_codex_backend(&self) -> (r: bool)
        ensures
            r == self@.capabilities.uses_codex_backend,
    {
        self.capabilities.uses_codex_backend
    }

    /// There is no key in it.
    pub fn api_key(&self) -> (r: Option<String>)
        ensures
            r is None,
    {
        None
    }

    /// There is no token in it.
    pub fn bearer_token(&self) -> (r: Result<String, String>)
        ensures
            r matches Err(e) && e@ == "externally provided auth does not expose a bearer token"@,
    {
        Err("externally provided auth does not expose a bearer token".to_string())
    }
}

/// Whether the names stand in order and none stands twice.
pub open spec fn in_order(headers: Seq<(Seq<char>, Seq<char>)>) -> bool {
    forall|i: int, j: int| 0 <= i < j < headers.len() ==> text::before(#[trigger] headers[i].0, #[trigger] headers[j].0)
}

/// Whether the last header of the name has the value.
pub open spec fn has_last(headers: Seq<(Seq<char>, Seq<char>)>, name: Seq<char>, value: Seq<char>) -> bool {
    exists|i: int|
        0 <= i < headers.len() && #[trigger] headers[i] == (name, value) && forall|j: int|
            i < j < headers.len() ==> (#[trigger] headers[j]).0 != name
}

proof fn lemma_with_header(headers: Seq<(Seq<char>, Seq<char>)>, header: (Seq<char>, Seq<char>))
    requires
        in_order(headers),
    ensures
        in_order(with_header(headers, header)),
        forall|h: (Seq<char>, Seq<char>)| #[trigger]
            with_header(headers, header).contains(h) <==> h == header || (headers.contains(h) && h.0 != header.0),
    decreases headers.len(),
{
    let out = with_header(headers, header);
    if headers.len() > 0 {
        let front = headers.drop_last();
        let last = headers.last();
        text::lemma_before_total(last.0, header.0);
        assert(headers =~= front.push(last));
        if text::before(last.0, header.0) {
            assert forall|i: int, j: int| 0 <= i < j < out.len() implies text::before(
                #[trigger] out[i].0,
                #[trigger] out[j].0,
            ) by {
                if j == headers.len() && i < headers.len() - 1 {
                    assert(text::before(headers[i].0, headers[headers.len() - 1].0));
                    text::lemma_before_transitive(headers[i].0, last.0, header.0);
                }
            }
            assert forall|h: (Seq<char>, Seq<char>)| #[trigger] out.contains(h) <==> h == header || (headers.contains(h)
                && h.0 != header.0) by {
                if headers.contains(h) {
                    let k = choose|k: int| 0 <= k < headers.len() && headers[k] == h;
                    assert(out[k] == h);
                    if h.0 == header.0 {
                        assert(text::before(headers[k].0, headers[headers.len() - 1].0) || k == headers.len() - 1);
                        text::lemma_before_total(h.0, last.0);
                    }
                }
                assert(out[headers.len() as int] == header);
            }
        } else if last.0 == header.0 {
            assert forall|i: int, j: int| 0 <= i < j < out.len() implies text::before(
                #[trigger] out[i].0,
                #[trigger] out[j].0,
            ) by {
                assert(text::before(headers[i].0, headers[j].0));
            }
            assert forall|h: (Seq<char>, Seq<char>)| #[trigger] out.contains(h) <==> h == header || (headers.contains(h)
                && h.0 != header.0) by {
                assert(out[headers.len() - 1] == header);
                if headers.contains(h) && h.0 != header.0 {
                    let k = choose|k: int| 0 <= k < headers.len() && headers[k] == h;
                    assert(out[k] == h);
                }
                if out.contains(h) && h != header {
                    let k = choose|k: int| 0 <= k < out.len() && out[k] == h;
                    assert(headers[k] == h);
                    assert(text::before(headers[k].0, headers[headers.len() - 1].0));
                    text::lemma_before_total(h.0, header.0);
                }
            }
        } else {
            assert(in_order(front)) by {
                assert forall|i: int, j: int| 0 <= i < j < front.len() implies text::before(
                    #[trigger] front[i].0,
                    #[trigger] front[j].0,
                ) by {
                    assert(text::before(headers[i].0, headers[j].0));
                }
            }
            lemma_with_header(front, header);
            let inner = with_header(front, header);
            assert forall|i: int, j: int| 0 <= i < j < out.len() implies text::before(
                #[trigger] out[i].0,
                #[trigger] out[j].0,
            ) by {
                if j < inner.len() {
                    assert(text::before(inner[i].0, inner[j].0));
                } else {
                    assert(inner.contains(inner[i]));
                    if inner[i] != header {
                        let k = choose|k: int| 0 <= k < front.len() && front[k] == inner[i];
                        assert(text::before(headers[k].0, headers[headers.len() - 1].0));
                    }
                }
            }
            assert forall|h: (Seq<char>, Seq<char>)| #[trigger] out.contains(h) <==> h == header || (headers.contains(h)
                && h.0 != header.0) by {
                assert(out.contains(h) <==> inner.contains(h) || h == last) by {
                    if out.contains(h) {
                        let k = choose|k: int| 0 <= k < out.len() && out[k] == h;
                        if k < inner.len() {
                            assert(inner[k] == h);
                        }
                    }
                    if inner.contains(h) {
                        let k = choose|k: int| 0 <= k < inner.len() && inner[k] == h;
                        assert(out[k] == h);
                    }
                    assert(out[inner.len() as int] == last);
                }
                assert(headers.contains(h) <==> front.contains(h) || h == last) by {
                    if headers.contains(h) {
                        let k = choose|k: int| 0 <= k < headers.len() && headers[k] == h;
                        if k < front.len() {
                            assert(front[k] == h);
                        }
                    }
                    if front.contains(h) {
                        let k = choose|k: int| 0 <= k < front.len() && front[k] == h;
                        assert(headers[k] == h);
                    }
                    assert(headers[headers.len() - 1] == last);
                }
            }
        }
    } else {
        assert(out[0] == header);
    }
}

/// The headers are kept in the order of their names, each name once, with the
/// value that it was given last.
pub proof fn law_last_value_of_a_header_counts(headers: Seq<(Seq<char>, Seq<char>)>, name: Seq<char>, value: Seq<char>)
    ensures
        in_order(header_map(headers)),
        header_map(headers).contains((name, value)) <==> has_last(headers, name, value),
    decreases headers.len(),
{
    if headers.len() > 0 {
        let front = headers.drop_last();
        let last = headers.last();
        law_last_value_of_a_header_counts(front, name, value);
        lemma_with_header(header_map(front), last);
        if has_last(headers, name, value) && last != (name, value) {
            let i = choose|i: int|
                0 <= i < headers.len() && #[trigger] headers[i] == (name, value) && forall|j: int|
                    i < j < headers.len() ==> (#[trigger] headers[j]).0 != name;
            assert(headers[headers.len() - 1].0 != name);
            assert(front[i] == (name, value));
            assert(has_last(front, name, value));
        }
        if last == (name, value) {
            assert(headers[headers.len() - 1] == (name, value));
            assert(has_last(headers, name, value));
        }
        if has_last(front, name, value) && last.0 != name {
            let i = choose|i: int|
                0 <= i < front.len() && #[trigger] front[i] == (name, value) && forall|j: int|
                    i < j < front.len() ==> (#[trigger] front[j]).0 != name;
            assert(headers[i] == (name, value));
            assert forall|j: int| i < j < headers.len() implies (#[trigger] headers[j]).0 != name by {
                if j < front.len() {
                    assert(front[j].0 != name);
                }
            }
            assert(has_last(headers, name, value));
        }
    }
}

/// What is shown of credentials tells every field in turn; of the headers nothing,
/// and of the address only whether there is one.
pub proof fn law_every_other_field_is_shown(auth: ExternalView)
    ensures
        shown_text(auth) == "ExternalProvidedAuth { headers: \"<redacted>\", account_id: "@ + account_text(
            auth.account_id,
        ) + ", user_id: "@ + quoted_text(auth.user_id) + ", account_email: "@ + (match auth.account_email {
            Some(_) => "Some(\"<redacted>\")"@,
            None => "None"@,
        }) + ", account_plan_type: "@ + plan_text(auth.account_plan_type) + ", is_fedramp_account: "@ + (
        if auth.is_fedramp_account {
            "true"@
        } else {
            "false"@
        }) + ", capabilities: ExternalProvidedAuthCapabilities { uses_codex_backend: "@ + (
        if auth.capabilities.uses_codex_backend {
            "true"@
        } else {
            "false"@
        }) + ", has_chatgpt_account: "@ + (if auth.capabilities.has_chatgpt_account {
            "true"@
        } else {
            "false"@
        }) + " } }"@,
{
}

/// The plans are shown by their names.
pub proof fn law_plans_are_shown_by_name(id: Seq<char>)
    ensures
        plan_text(None) == "None"@,
        plan_text(Some(AccountPlanType::Free)) == "Some(Free)"@,
        plan_text(Some(AccountPlanType::Go)) == "Some(Go)"@,
        plan_text(Some(AccountPlanType::Plus)) == "Some(Plus)"@,
        plan_text(Some(AccountPlanType::Pro)) == "Some(Pro)"@,
        plan_text(Some(AccountPlanType::Team)) == "Some(Team)"@,
        plan_text(Some(AccountPlanType::Business)) == "Some(Business)"@,
        plan_text(Some(AccountPlanType::Enterprise)) == "Some(Enterprise)"@,
        plan_text(Some(AccountPlanType::Edu)) == "Some(Edu)"@,
        plan_text(Some(AccountPlanType::Unknown)) == "Some(Unknown)"@,
        account_text(None) == "None"@,
        account_text(Some(id)) == "Some("@ + quoted_text(id) + ")"@,
        bool_text(true) == "true"@ && bool_text(false) == "false"@,
{
}

} // verus!
