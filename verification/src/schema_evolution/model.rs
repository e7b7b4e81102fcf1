//! The parts of a schema and how references between them are followed.

use vstd::prelude::*;

use crate::json::JView;
use crate::schema_evolution::value;
use crate::schema_evolution::value::JsonType;
use crate::schema_evolution::value::TypeSet;
use crate::schema_evolution::value::ValueSet;
use crate::text;

verus! {

/// The place of a node among the nodes of a schema.
#[derive(Clone, Copy, Debug, PartialEq, Eq, Structural)]
pub struct SchemaId(pub usize);

/// A node of a schema.
pub enum SchemaNode {
    /// Every value is accepted.
    Any,
    /// No value is accepted.
    Never,
    /// What another node accepts is accepted.
    Reference(SchemaId),
    /// What meets the rules is accepted.
    Rules(Box<SchemaRules>),
}

/// The rules of a node.
pub struct SchemaRules {
    pub types: Option<TypeSet>,
    pub values: Option<ValueSet>,
    pub object: Option<ObjectSchema>,
}

/// The rules for objects.
pub struct ObjectSchema {
    pub properties: Vec<(String, Property)>,
    pub required: Vec<String>,
    pub additional_properties: AdditionalProperties,
}

/// The rule for a property.
#[derive(Clone, Copy, Debug, PartialEq, Eq, Structural)]
pub struct Property {
    pub schema: SchemaId,
}

/// The rule for properties that no other rule names.
#[derive(Clone, Copy, Debug, PartialEq, Eq, Structural)]
pub enum AdditionalProperties {
    Any,
    Forbidden,
    Schema(SchemaId),
}

/// What a node says.
pub enum SNode {
    Any,
    Never,
    Reference(SchemaId),
    Rules(SRules),
}

/// What rules say.
pub struct SRules {
    pub types: Option<Set<JsonType>>,
    pub values: Option<Seq<JView>>,
    pub object: Option<SObject>,
}

/// What rules for objects say.
pub struct SObject {
    pub properties: Seq<(Seq<char>, SchemaId)>,
    pub required: Set<Seq<char>>,
    pub additional_properties: AdditionalProperties,
}

/// What the properties say.
pub open spec fn property_views(properties: Seq<(String, Property)>) -> Seq<(Seq<char>, SchemaId)> {
    properties.map_values(|p: (String, Property)| (p.0@, p.1.schema))
}

/// The names as a set.
pub open spec fn name_set(names: Seq<String>) -> Set<Seq<char>> {
    text::views(names).to_set()
}

/// What the rules for objects say.
pub open spec fn object_view(o: ObjectSchema) -> SObject {
    SObject {
        properties: property_views(o.properties@),
        required: name_set(o.required@),
        additional_properties: o.additional_properties,
    }
}

/// What the rules for objects say, where there are any.
pub open spec fn opt_object(o: Option<ObjectSchema>) -> Option<SObject> {
    match o {
        Some(o) => Some(object_view(o)),
        None => None,
    }
}

/// What the rules say.
pub open spec fn rules_view(r: SchemaRules) -> SRules {
    SRules { types: value::opt_types(r.types), values: value::opt_values(r.values), object: opt_object(r.object) }
}

/// What a node says.
pub open spec fn node_view(n: SchemaNode) -> SNode {
    match n {
        SchemaNode::Any => SNode::Any,
        SchemaNode::Never => SNode::Never,
        SchemaNode::Reference(id) => SNode::Reference(id),
        SchemaNode::Rules(r) => SNode::Rules(rules_view(*r)),
    }
}

/// What the nodes say.
pub open spec fn node_views(nodes: Seq<SchemaNode>) -> Seq<SNode> {
    nodes.map_values(|n: SchemaNode| node_view(n))
}

/// The names of the properties.
pub open spec fn property_names(properties: Seq<(Seq<char>, SchemaId)>) -> Seq<Seq<char>> {
    properties.map_values(|p: (Seq<char>, SchemaId)| p.0)
}

/// Whether the properties and the required names are in order, with none twice.
pub open spec fn object_wf(o: ObjectSchema) -> bool {
    &&& names_ordered(property_names(property_views(o.properties@)))
    &&& names_ordered(text::views(o.required@))
}

/// Whether the sets of the node are in order, with nothing twice.
pub open spec fn node_wf(n: SchemaNode) -> bool {
    match n {
        SchemaNode::Rules(r) => {
            &&& r.types matches Some(types) ==> types.wf()
            &&& r.object matches Some(o) ==> object_wf(o)
        },
        _ => true,
    }
}

/// Whether the sets of every node are in order, with nothing twice.
pub open spec fn nodes_wf(nodes: Seq<SchemaNode>) -> bool {
    forall|i: int| 0 <= i < nodes.len() ==> node_wf(#[trigger] nodes[i])
}

// ---------------------------------------------------------------------
// Names in order
// ---------------------------------------------------------------------

/// Whether the names are in order, with none twice.
pub open spec fn names_ordered(names: Seq<Seq<char>>) -> bool {
    forall|i: int, j: int|
        0 <= i < j < names.len() ==> text::before(#[trigger] names[i], #[trigger] names[j])
}

/// Adds a name, where it is not there yet, at its place.
pub fn insert_name(names: &mut Vec<String>, name: String)
    requires
        names_ordered(text::views(old(names)@)),
    ensures
        names_ordered(text::views(final(names)@)),
        name_set(final(names)@) == name_set(old(names)@).insert(name@),
{
    let mut i: usize = 0;
    let ghost all = text::views(names@);
    let ghost said = name@;
    while i < names.len() && text::str_before(names[i].as_str(), name.as_str())
        invariant
            i <= names@.len(),
            names@ == old(names)@,
            all == text::views(names@),
            said == name@,
            names_ordered(all),
            forall|k: int| 0 <= k < i ==> text::before(#[trigger] all[k], said),
        decreases names@.len() - i,
    {
        assert(all[i as int] == names@[i as int]@);
        i = i + 1;
    }
    if i < names.len() && text::str_eq(names[i].as_str(), name.as_str()) {
        proof {
            assert(all[i as int] == said);
            assert(all.contains(said));
            assert(all.to_set().insert(said) =~= all.to_set());
        }
        return;
    }
    names.insert(i, name);
    proof {
        let after = text::views(names@);
        assert(after =~= all.insert(i as int, said));
        if i < all.len() {
            assert(all[i as int] == old(names)@[i as int]@);
            text::lemma_before_total(all[i as int], said);
        }
        assert forall|a: int, b: int| 0 <= a < b < after.len() implies text::before(
            #[trigger] after[a],
            #[trigger] after[b],
        ) by {
            if b < i {
                assert(after[a] == all[a] && after[b] == all[b]);
            } else if b == i {
                assert(after[a] == all[a]);
            } else {
                assert(after[b] == all[b - 1]);
                if a < i {
                    assert(after[a] == all[a]);
                } else if a == i {
                    if b - 1 > i {
                        text::lemma_before_transitive(said, all[i as int], all[b - 1]);
                    }
                } else {
                    assert(after[a] == all[a - 1]);
                }
            }
        }
        assert forall|x: Seq<char>| after.to_set().contains(x) == all.to_set().insert(said).contains(x) by {
            if after.contains(x) {
                let k = choose|k: int| 0 <= k < after.len() && after[k] == x;
                if k < i {
                    assert(all[k] == x);
                } else if k > i {
                    assert(all[k - 1] == x);
                }
            }
            if all.contains(x) {
                let k = choose|k: int| 0 <= k < all.len() && all[k] == x;
                if k < i {
                    assert(after[k] == x);
                } else {
                    assert(after[k + 1] == x);
                }
            }
            assert(after[i as int] == said);
        }
        assert(after.to_set() =~= all.to_set().insert(said));
    }
}

/// The properties with one more at its place; another of that name gives way.
pub open spec fn with_property(
    properties: Seq<(Seq<char>, SchemaId)>,
    name: Seq<char>,
    schema: SchemaId,
) -> Seq<(Seq<char>, SchemaId)>
    decreases properties.len(),
{
    if properties.len() == 0 {
        seq![(name, schema)]
    } else if text::before(properties[0].0, name) {
        seq![properties[0]] + with_property(properties.skip(1), name, schema)
    } else if properties[0].0 == name {
        seq![(name, schema)] + properties.skip(1)
    } else {
        seq![(name, schema)] + properties
    }
}

/// With a property there are the names from before and that property's, and under
/// its name stands its schema.
pub proof fn lemma_with_property_names(
    properties: Seq<(Seq<char>, SchemaId)>,
    name: Seq<char>,
    schema: SchemaId,
    other: Seq<char>,
)
    ensures
        with_property(properties, name, schema).contains((name, schema)),
        (exists|i: int|
            0 <= i < with_property(properties, name, schema).len() && (#[trigger] with_property(
                properties,
                name,
                schema,
            )[i]).0 == other) <==> other == name || exists|i: int|
            0 <= i < properties.len() && (#[trigger] properties[i]).0 == other,
    decreases properties.len(),
{
    let whole = with_property(properties, name, schema);
    if properties.len() == 0 {
        assert(whole[0] == (name, schema));
    } else {
        let rest = properties.skip(1);
        assert(properties[0] == properties.first());
        assert forall|i: int| 0 < i < properties.len() implies #[trigger] properties[i] == rest[i - 1] by {}
        if text::before(properties[0].0, name) {
            let inner = with_property(rest, name, schema);
            lemma_with_property_names(rest, name, schema, other);
            assert(whole =~= seq![properties[0]] + inner);
            assert forall|i: int| 0 < i < whole.len() implies #[trigger] whole[i] == inner[i - 1] by {}
            let k = choose|k: int| 0 <= k < inner.len() && inner[k] == (name, schema);
            assert(whole[k + 1] == (name, schema));
            if exists|i: int| 0 <= i < inner.len() && (#[trigger] inner[i]).0 == other {
                let i = choose|i: int| 0 <= i < inner.len() && (#[trigger] inner[i]).0 == other;
                assert(whole[i + 1].0 == other);
            }
            if exists|i: int| 0 <= i < rest.len() && (#[trigger] rest[i]).0 == other {
                let i = choose|i: int| 0 <= i < rest.len() && (#[trigger] rest[i]).0 == other;
                assert(properties[i + 1].0 == other);
            }
            if exists|i: int| 0 <= i < whole.len() && (#[trigger] whole[i]).0 == other {
                let i = choose|i: int| 0 <= i < whole.len() && (#[trigger] whole[i]).0 == other;
                if i == 0 {
                    assert(properties[0].0 == other);
                } else {
                    assert(inner[i - 1].0 == other);
                }
            }
            if exists|i: int| 0 <= i < properties.len() && (#[trigger] properties[i]).0 == other {
                let i = choose|i: int| 0 <= i < properties.len() && (#[trigger] properties[i]).0 == other;
                if i == 0 {
                    assert(whole[0].0 == other);
                } else {
                    assert(rest[i - 1].0 == other);
                }
            }
        } else {
            assert(whole[0] == (name, schema));
            let shift: int = if properties[0].0 == name {
                0
            } else {
                1
            };
            assert forall|i: int| 1 - shift <= i < properties.len() implies #[trigger] properties[i] == whole[i + shift] by {
                if shift == 0 {
                    assert(whole[i] == rest[i - 1]);
                }
            }
            if exists|i: int| 0 <= i < properties.len() && (#[trigger] properties[i]).0 == other {
                let i = choose|i: int| 0 <= i < properties.len() && (#[trigger] properties[i]).0 == other;
                if i >= 1 - shift {
                    assert(whole[i + shift].0 == other);
                } else {
                    assert(whole[0].0 == other);
                }
            }
            if exists|i: int| 0 <= i < whole.len() && (#[trigger] whole[i]).0 == other {
                let i = choose|i: int| 0 <= i < whole.len() && (#[trigger] whole[i]).0 == other;
                if i > 0 {
                    assert(properties[i - shift] == whole[i]);
                }
            }
            if other == name {
                assert(whole[0].0 == other);
            }
        }
    }
}

proof fn lemma_with_property(properties: Seq<(Seq<char>, SchemaId)>, name: Seq<char>, schema: SchemaId, i: int)
    requires
        0 <= i <= properties.len(),
        forall|k: int| 0 <= k < i ==> text::before((#[trigger] properties[k]).0, name),
        i < properties.len() ==> !text::before(properties[i].0, name),
    ensures
        with_property(properties, name, schema) == (if i < properties.len() && properties[i].0 == name {
            properties.update(i, (name, schema))
        } else {
            properties.insert(i, (name, schema))
        }),
    decreases i,
{
    let whole = with_property(properties, name, schema);
    if i == 0 {
        if properties.len() > 0 && properties[0].0 == name {
            assert(whole =~= properties.update(0, (name, schema)));
        } else {
            assert(whole =~= properties.insert(0, (name, schema)));
        }
    } else {
        let rest = properties.skip(1);
        assert forall|k: int| 0 <= k < i - 1 implies text::before((#[trigger] rest[k]).0, name) by {
            assert(rest[k] == properties[k + 1]);
        }
        if i < properties.len() {
            assert(rest[i - 1] == properties[i]);
        }
        lemma_with_property(rest, name, schema, i - 1);
        assert(text::before(properties[0].0, name));
        if i < properties.len() && properties[i].0 == name {
            assert(whole =~= properties.update(i, (name, schema)));
        } else {
            assert(whole =~= properties.insert(i, (name, schema)));
        }
    }
}

proof fn lemma_property_order(properties: Seq<(Seq<char>, SchemaId)>, name: Seq<char>, schema: SchemaId, i: int)
    requires
        0 <= i <= properties.len(),
        names_ordered(property_names(properties)),
        forall|k: int| 0 <= k < i ==> text::before((#[trigger] properties[k]).0, name),
        i < properties.len() ==> !text::before(properties[i].0, name),
    ensures
        names_ordered(property_names(with_property(properties, name, schema))),
{
    lemma_with_property(properties, name, schema, i);
    let all = property_names(properties);
    let after = property_names(with_property(properties, name, schema));
    if i < properties.len() && properties[i].0 == name {
        assert(after =~= all);
    } else {
        assert(after =~= all.insert(i, name));
        if i < all.len() {
            assert(all[i] == properties[i].0);
            text::lemma_before_total(all[i], name);
        }
        assert forall|a: int, b: int| 0 <= a < b < after.len() implies text::before(
            #[trigger] after[a],
            #[trigger] after[b],
        ) by {
            if b < i {
                assert(after[a] == all[a] && after[b] == all[b]);
            } else if b == i {
                assert(after[a] == all[a]);
                assert(all[a] == properties[a].0);
            } else {
                assert(after[b] == all[b - 1]);
                if a < i {
                    assert(after[a] == all[a]);
                } else if a == i {
                    if b - 1 > i {
                        text::lemma_before_transitive(name, all[i], all[b - 1]);
                    }
                } else {
                    assert(after[a] == all[a - 1]);
                }
            }
        }
    }
}

/// Adds a property at its place; another of that name gives way.
pub fn insert_property(properties: &mut Vec<(String, Property)>, name: String, schema: SchemaId)
    requires
        names_ordered(property_names(property_views(old(properties)@))),
    ensures
        property_views(final(properties)@) == with_property(property_views(old(properties)@), name@, schema),
        names_ordered(property_names(property_views(final(properties)@))),
{
    let ghost all = property_views(properties@);
    let ghost said = name@;
    let mut i: usize = 0;
    while i < properties.len() && text::str_before(properties[i].0.as_str(), name.as_str())
        invariant
            i <= properties@.len(),
            properties@ == old(properties)@,
            all == property_views(properties@),
            said == name@,
            forall|k: int| 0 <= k < i ==> text::before((#[trigger] all[k]).0, said),
        decreases properties@.len() - i,
    {
        assert(all[i as int].0 == properties@[i as int].0@);
        i = i + 1;
    }
    proof {
        if i < properties.len() {
            assert(all[i as int].0 == properties@[i as int].0@);
        }
        lemma_with_property(all, said, schema, i as int);
        lemma_property_order(all, said, schema, i as int);
    }
    if i < properties.len() && text::str_eq(properties[i].0.as_str(), name.as_str()) {
        properties.set(i, (name, Property { schema }));
        assert(property_views(properties@) =~= all.update(i as int, (said, schema)));
    } else {
        properties.insert(i, (name, Property { schema }));
        assert(property_views(properties@) =~= all.insert(i as int, (said, schema)));
    }
}

// ---------------------------------------------------------------------
// References
// ---------------------------------------------------------------------

/// The node behind a node, where that is a reference.
pub open spec fn target(nodes: Seq<SNode>, id: SchemaId) -> Option<SchemaId> {
    if id.0 < nodes.len() && nodes[id.0 as int] is Reference {
        Some(nodes[id.0 as int]->Reference_0)
    } else {
        None
    }
}

/// The node that is reached over so many references, as long as there are.
pub open spec fn reached(nodes: Seq<SNode>, id: SchemaId, hops: nat) -> Option<SchemaId>
    decreases hops,
{
    if hops == 0 {
        Some(id)
    } else {
        match reached(nodes, id, (hops - 1) as nat) {
            Some(at) => target(nodes, at),
            None => None,
        }
    }
}

/// What following references comes to, where at most so many nodes are visited.
pub open spec fn followed(nodes: Seq<SNode>, id: SchemaId, visits: nat) -> Result<SchemaId, Seq<char>>
    decreases visits,
{
    if visits == 0 {
        Err("cyclic direct JSON Schema reference"@)
    } else if id.0 >= nodes.len() {
        Err("invalid schema node "@ + text::decimal(id.0 as nat))
    } else {
        match nodes[id.0 as int] {
            SNode::Reference(next) => followed(nodes, next, (visits - 1) as nat),
            _ => Ok(id),
        }
    }
}

/// The node that a node stands for. A walk over more nodes than there are has
/// come round in a circle.
pub open spec fn resolution(nodes: Seq<SNode>, id: SchemaId) -> Result<SchemaId, Seq<char>> {
    followed(nodes, id, nodes.len() + 1)
}

/// The node that a node of the list stands for.
pub fn resolve(nodes: &Vec<SchemaNode>, id: SchemaId) -> (r: Result<SchemaId, String>)
    ensures
        match r {
            Ok(at) => resolution(node_views(nodes@), id) == Ok::<SchemaId, Seq<char>>(at) && at.0 < nodes@.len()
                && !(nodes@[at.0 as int] is Reference),
            Err(e) => resolution(node_views(nodes@), id) == Err::<SchemaId, Seq<char>>(e@),
        },
{
    let ghost all = node_views(nodes@);
    let mut at = id;
    let mut visited: usize = 0;
    while visited < nodes.len()
        invariant
            visited <= nodes@.len(),
            all == node_views(nodes@),
            resolution(all, id) == followed(all, at, (nodes@.len() + 1 - visited) as nat),
        decreases nodes@.len() - visited,
    {
        if at.0 >= nodes.len() {
            let mut message = "invalid schema node ".to_string();
            text::push_decimal(&mut message, at.0 as u64);
            return Err(message);
        }
        assert(all[at.0 as int] == node_view(nodes@[at.0 as int]));
        match &nodes[at.0] {
            SchemaNode::Reference(next) => {
                at = *next;
            },
            _ => {
                return Ok(at);
            },
        }
        visited = visited + 1;
    }
    if at.0 >= nodes.len() {
        let mut message = "invalid schema node ".to_string();
        text::push_decimal(&mut message, at.0 as u64);
        return Err(message);
    }
    assert(all[at.0 as int] == node_view(nodes@[at.0 as int]));
    match &nodes[at.0] {
        SchemaNode::Reference(next) => {
            assert(followed(all, *next, 0) is Err);
            Err("cyclic direct JSON Schema reference".to_string())
        },
        _ => Ok(at),
    }
}

proof fn lemma_followed(nodes: Seq<SNode>, id: SchemaId, start: SchemaId, hops: nat, visits: nat)
    requires
        reached(nodes, start, hops) == Some(id),
    ensures
        match followed(nodes, id, visits) {
            Ok(at) => at.0 < nodes.len() && !(nodes[at.0 as int] is Reference) && exists|n: nat|
                #[trigger] reached(nodes, start, n) == Some(at),
            Err(_) => (exists|n: nat| #[trigger] reached(nodes, start, n) matches Some(at) && at.0 >= nodes.len()) || (
            forall|n: nat| n <= hops + visits ==> #[trigger] reached(nodes, start, n) is Some),
        },
    decreases visits,
{
    if visits == 0 {
        assert forall|n: nat| n <= hops implies #[trigger] reached(nodes, start, n) is Some by {
            lemma_reached_before(nodes, start, n, hops);
        }
    } else if id.0 >= nodes.len() {
        assert(reached(nodes, start, hops) == Some(id));
    } else {
        match nodes[id.0 as int] {
            SNode::Reference(next) => {
                assert(reached(nodes, start, hops + 1) == Some(next));
                lemma_followed(nodes, next, start, hops + 1, (visits - 1) as nat);
            },
            _ => {
                assert(reached(nodes, start, hops) == Some(id));
            },
        }
    }
}

proof fn lemma_reached_before(nodes: Seq<SNode>, id: SchemaId, n: nat, m: nat)
    requires
        n <= m,
        reached(nodes, id, m) is Some,
    ensures
        reached(nodes, id, n) is Some,
    decreases m,
{
    if n < m {
        lemma_reached_before(nodes, id, n, (m - 1) as nat);
    }
}

proof fn lemma_reached_again(nodes: Seq<SNode>, id: SchemaId, i: nat, j: nat, n: nat)
    requires
        i < j,
        reached(nodes, id, i) == reached(nodes, id, j),
        forall|k: nat| k <= j ==> #[trigger] reached(nodes, id, k) is Some,
    ensures
        reached(nodes, id, n) is Some,
        n >= i ==> exists|k: nat| i <= k < j && #[trigger] reached(nodes, id, k) == reached(nodes, id, n),
    decreases n,
{
    if n <= i {
        assert(reached(nodes, id, n) is Some);
        if n == i {
            assert(reached(nodes, id, i) == reached(nodes, id, n));
        }
    } else {
        lemma_reached_again(nodes, id, i, j, (n - 1) as nat);
        let k = choose|k: nat| i <= k < j && #[trigger] reached(nodes, id, k) == reached(nodes, id, (n - 1) as nat);
        assert(reached(nodes, id, k + 1) == reached(nodes, id, n));
        assert(reached(nodes, id, k + 1) is Some);
        if k + 1 == j {
            assert(reached(nodes, id, i) == reached(nodes, id, n));
        }
    }
}

/// Following references ends, if it ends, at a node that is none and that the
/// references lead to. It fails only where they lead out of the schema, or lead
/// on for ever.
pub proof fn law_resolution_follows_references(nodes: Seq<SNode>, id: SchemaId)
    ensures
        match resolution(nodes, id) {
            Ok(at) => at.0 < nodes.len() && !(nodes[at.0 as int] is Reference) && exists|n: nat|
                #[trigger] reached(nodes, id, n) == Some(at),
            Err(_) => (exists|n: nat| #[trigger] reached(nodes, id, n) matches Some(at) && at.0 >= nodes.len()) || (
            forall|n: nat| #[trigger] reached(nodes, id, n) is Some),
        },
{
    lemma_followed(nodes, id, id, 0, nodes.len() + 1);
    if resolution(nodes, id) is Err && !(exists|n: nat|
        #[trigger] reached(nodes, id, n) matches Some(at) && at.0 >= nodes.len()) {
        let count = nodes.len() + 1;
        let trail = Seq::new(count, |n: int| reached(nodes, id, n as nat)->Some_0.0 as int);
        assert forall|n: int| 0 <= n < count implies 0 <= #[trigger] trail[n] < nodes.len() by {
            assert(reached(nodes, id, n as nat) is Some);
        }
        lemma_repeats(trail, nodes.len() as int);
        let (i, j) = choose|i: int, j: int| 0 <= i < j < trail.len() && #[trigger] trail[i] == #[trigger] trail[j];
        assert(reached(nodes, id, i as nat) == reached(nodes, id, j as nat));
        assert forall|n: nat| #[trigger] reached(nodes, id, n) is Some by {
            lemma_reached_again(nodes, id, i as nat, j as nat, n);
        }
    }
}

proof fn lemma_reached_behind(nodes: Seq<SNode>, id: SchemaId, next: SchemaId, n: nat)
    requires
        target(nodes, id) == Some(next),
    ensures
        reached(nodes, id, n + 1) == reached(nodes, next, n),
    decreases n,
{
    if n == 0 {
        assert(reached(nodes, id, 0) == Some(id));
        assert(reached(nodes, id, 1) == target(nodes, id));
    } else {
        lemma_reached_behind(nodes, id, next, (n - 1) as nat);
    }
}

proof fn lemma_end_is_one(nodes: Seq<SNode>, id: SchemaId, n: nat, m: nat)
    requires
        reached(nodes, id, n) is Some,
        reached(nodes, id, m) is Some,
        target(nodes, reached(nodes, id, n)->0) is None,
        n <= m,
    ensures
        n == m,
{
    if n < m {
        lemma_reached_before(nodes, id, n + 1, m);
    }
}

/// A reference to a node that can be followed to its end can be followed too.
pub proof fn lemma_reference_resolves(nodes: Seq<SNode>, id: SchemaId, next: SchemaId)
    requires
        target(nodes, id) == Some(next),
        resolution(nodes, next) is Ok,
    ensures
        resolution(nodes, id) is Ok,
{
    law_resolution_follows_references(nodes, id);
    law_resolution_follows_references(nodes, next);
    let at = resolution(nodes, next)->Ok_0;
    let n = choose|n: nat| #[trigger] reached(nodes, next, n) == Some(at);
    assert(target(nodes, at) is None);
    if resolution(nodes, id) is Err {
        if forall|m: nat| #[trigger] reached(nodes, id, m) is Some {
            assert(reached(nodes, id, n + 2) is Some);
            lemma_reached_behind(nodes, id, next, n + 1);
            assert(reached(nodes, next, n + 1) is None);
        } else {
            let m = choose|m: nat| #[trigger] reached(nodes, id, m) matches Some(x) && x.0 >= nodes.len();
            if m == 0 {
                assert(reached(nodes, id, 0) == Some(id));
            } else {
                lemma_reached_behind(nodes, id, next, (m - 1) as nat);
                let k = (m - 1) as nat;
                if k <= n {
                    lemma_end_is_one(nodes, next, k, n);
                } else {
                    lemma_end_is_one(nodes, next, n, k);
                }
            }
        }
    }
}

/// More numbers than there are below a bound hold one twice.
proof fn lemma_repeats(s: Seq<int>, bound: int)
    requires
        bound >= 0,
        s.len() > bound,
        forall|n: int| 0 <= n < s.len() ==> 0 <= #[trigger] s[n] < bound,
    ensures
        exists|i: int, j: int| 0 <= i < j < s.len() && #[trigger] s[i] == #[trigger] s[j],
{
    if !(exists|i: int, j: int| 0 <= i < j < s.len() && #[trigger] s[i] == #[trigger] s[j]) {
        assert(s.no_duplicates()) by {
            assert forall|i: int, j: int| 0 <= i < s.len() && 0 <= j < s.len() && i != j implies s[i] != s[j] by {
                if i < j {
                    assert(!(s[i] == s[j]));
                } else {
                    assert(!(s[j] == s[i]));
                }
            }
        }
        s.unique_seq_to_set();
        vstd::set_lib::lemma_int_range(0, bound);
        assert(s.to_set().subset_of(vstd::set_lib::set_int_range(0, bound)));
        vstd::set_lib::lemma_len_subset(s.to_set(), vstd::set_lib::set_int_range(0, bound));
    }
}

} // verus!
