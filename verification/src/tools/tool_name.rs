//! The names of tools.

use vstd::prelude::*;

use crate::text;

verus! {

/// The name of a tool, with the namespace that it stands in, if any.
#[derive(Debug, PartialEq, Eq, Hash)]
pub struct ToolName {
    pub name: String,
    pub namespace: Option<String>,
}

/// What a name of a tool says.
#[verifier::ext_equal]
pub struct ToolNameView {
    pub name: Seq<char>,
    pub namespace: Option<Seq<char>>,
}

impl View for ToolName {
    type V = ToolNameView;

    open spec fn view(&self) -> ToolNameView {
        ToolNameView { name: self.name@, namespace: text::opt_view(self.namespace) }
    }
}

impl ToolNameView {
    /// The name without a split: the parts of a name in a namespace are joined
    /// by two underscores, and lose those that stand at the joint.
    pub open spec fn flat(self) -> Seq<char> {
        match self.namespace {
            Some(namespace) => text::without_end(namespace, '_') + "__"@ + text::without_start(self.name, '_'),
            None => self.name,
        }
    }

    /// The name as it is shown.
    pub open spec fn shown(self) -> Seq<char> {
        match self.namespace {
            Some(namespace) => namespace + self.name,
            None => self.name,
        }
    }

    /// What names are ordered by first: the namespace, or the name that stands
    /// in none.
    pub open spec fn head(self) -> Seq<char> {
        match self.namespace {
            Some(namespace) => namespace,
            None => self.name,
        }
    }

    /// Whether the name comes before the other. Names in a namespace come
    /// behind the plain name that is like the namespace, and stand in order of
    /// their names.
    pub open spec fn comes_before(self, other: ToolNameView) -> bool {
        text::before(self.head(), other.head()) || (self.head() == other.head() && match (
            self.namespace,
            other.namespace,
        ) {
            (None, Some(_)) => true,
            (Some(_), Some(_)) => text::before(self.name, other.name),
            _ => false,
        })
    }
}

impl ToolName {
    /// The name in the namespace, if one is given.
    pub fn new(namespace: Option<String>, name: &str) -> (r: Self)
        ensures
            r@ == (ToolNameView { name: name@, namespace: text::opt_view(namespace) }),
    {
        ToolName { name: name.to_string(), namespace }
    }

    /// The name that stands in no namespace.
    pub fn plain(name: &str) -> (r: Self)
        ensures
            r@ == (ToolNameView { name: name@, namespace: None }),
    {
        ToolName { name: name.to_string(), namespace: None }
    }

    /// The name in the namespace.
    pub fn namespaced(namespace: &str, name: &str) -> (r: Self)
        ensures
            r@ == (ToolNameView { name: name@, namespace: Some(namespace@) }),
    {
        ToolName { name: name.to_string(), namespace: Some(namespace.to_string()) }
    }

    /// The one name to use where the split into namespace and name cannot be
    /// kept.
    pub fn canonical_flat_name(&self) -> (r: String)
        ensures
            r@ == self@.flat(),
    {
        match &self.namespace {
            Some(namespace) => {
                let mut flat = text::trim_end_of(namespace.as_str(), '_');
                flat.push_str("__");
                flat.push_str(text::trim_start_of(self.name.as_str(), '_').as_str());
                flat
            },
            None => self.name.clone(),
        }
    }

    /// The name as it is shown.
    pub fn display(&self) -> (r: String)
        ensures
            r@ == self@.shown(),
    {
        match &self.namespace {
            Some(namespace) => {
                let mut shown = namespace.clone();
                shown.push_str(self.name.as_str());
                shown
            },
            None => self.name.clone(),
        }
    }

    /// Whether the name comes before the other.
    pub fn precedes(&self, other: &ToolName) -> (r: bool)
        ensures
            r == self@.comes_before(other@),
    {
        let head = match &self.namespace {
            Some(namespace) => namespace.as_str(),
            None => self.name.as_str(),
        };
        let other_head = match &other.namespace {
            Some(namespace) => namespace.as_str(),
            None => other.name.as_str(),
        };
        if text::str_before(head, other_head) {
            return true;
        }
        if !text::str_eq(head, other_head) {
            return false;
        }
        match (&self.namespace, &other.namespace) {
            (None, Some(_)) => true,
            (Some(_), Some(_)) => text::str_before(self.name.as_str(), other.name.as_str()),
            _ => false,
        }
    }
}

impl From<String> for ToolName {
    fn from(name: String) -> (r: Self) {
        ToolName { name, namespace: None }
    }
}

impl vstd::std_specs::convert::FromSpecImpl<String> for ToolName {
    open spec fn obeys_from_spec() -> bool {
        true
    }

    open spec fn from_spec(name: String) -> ToolName {
        ToolName { name, namespace: None }
    }
}

/// Of two different names one comes before the other, and not the other way
/// round; and what comes before comes before all that follows.
pub proof fn law_tool_names_are_ordered(a: ToolNameView, b: ToolNameView, c: ToolNameView)
    ensures
        a != b ==> (a.comes_before(b) <==> !b.comes_before(a)),
        !a.comes_before(a),
        a.comes_before(b) && b.comes_before(c) ==> a.comes_before(c),
{
    text::lemma_before_total(a.head(), a.head());
    text::lemma_before_total(a.name, a.name);
    text::lemma_before_total(a.head(), b.head());
    text::lemma_before_total(a.name, b.name);
    if a.comes_before(b) && b.comes_before(c) {
        if text::before(a.head(), b.head()) && text::before(b.head(), c.head()) {
            text::lemma_before_transitive(a.head(), b.head(), c.head());
        }
        if text::before(a.name, b.name) && text::before(b.name, c.name) {
            text::lemma_before_transitive(a.name, b.name, c.name);
        }
    }
}

/// The flat name joins the namespace and the name by two underscores, however
/// many they bring along; a name without a namespace is as it is.
pub proof fn law_flat_name_is_joined_by_two(namespace: Seq<char>, name: Seq<char>)
    ensures
        (ToolNameView { name, namespace: None }).flat() == name,
        (namespace.len() == 0 || namespace.last() != '_') && (name.len() == 0 || name[0] != '_') ==> (ToolNameView {
            name,
            namespace: Some(namespace),
        }).flat() == namespace + "__"@ + name,
        (ToolNameView { name, namespace: Some(namespace.push('_')) }).flat() == (ToolNameView {
            name,
            namespace: Some(namespace),
        }).flat(),
        (ToolNameView { name: seq!['_'] + name, namespace: Some(namespace) }).flat() == (ToolNameView {
            name,
            namespace: Some(namespace),
        }).flat(),
{
    assert(namespace.push('_').drop_last() =~= namespace);
    assert((seq!['_'] + name).skip(1) =~= name);
}

/// What is shown of a name is the namespace and the name, one behind the other.
pub proof fn law_shown_name(namespace: Seq<char>, name: Seq<char>)
    ensures
        (ToolNameView { name, namespace: None }).shown() == name,
        (ToolNameView { name, namespace: Some(namespace) }).shown() == namespace + name,
{
}

/// Names are ordered by their first part; of those that share it, the one that is
/// no namespace comes first, and then they go by the name. Of two different names
/// exactly one comes before the other.
pub proof fn law_names_are_ordered(a: ToolNameView, b: ToolNameView)
    ensures
        !a.comes_before(a),
        a != b ==> a.comes_before(b) != b.comes_before(a),
        text::before(a.head(), b.head()) ==> a.comes_before(b),
        a.head() == b.head() && a.namespace is None && b.namespace is Some ==> a.comes_before(b),
        a.namespace is Some && a.namespace == b.namespace ==> a.comes_before(b) == text::before(a.name, b.name),
        a.namespace is Some ==> a.head() == a.namespace->0,
        a.namespace is None ==> a.head() == a.name,
{
    text::lemma_before_total(a.head(), b.head());
    text::lemma_before_total(a.head(), a.head());
    text::lemma_before_total(a.name, b.name);
    text::lemma_before_total(a.name, a.name);
}

} // verus!
