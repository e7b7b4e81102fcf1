//! The schema of all requests that clients make.

use vstd::prelude::*;

use crate::json;
use crate::json::JField;
use crate::json::JShape;
use crate::json::JView;
use crate::json::Json;
use crate::json::JsonField;
use crate::json::JsonShape;
use crate::schema_evolution::method;
use crate::schema_evolution::method::Method;
use crate::schema_evolution::method::SMethod;
use crate::schema_evolution::model;
use crate::schema_evolution::model::SNode;
use crate::schema_evolution::model::SchemaId;
use crate::schema_evolution::model::SchemaNode;
use crate::schema_evolution::parse;
use crate::schema_evolution::parse::Parser;
use crate::schema_evolution::value;
use crate::schema_evolution::value::JsonType;
use crate::text;

verus! {

/// The methods that clients may call, in order of their names, and the nodes
/// that their schemas are made of.
pub struct ApiSchema {
    pub methods: Vec<Method>,
    pub nodes: Vec<SchemaNode>,
}

/// Why a schema cannot be read.
#[derive(Debug, PartialEq)]
pub struct SchemaError {
    pub message: String,
    /// What lies behind the message.
    pub cause: Option<String>,
}

/// Why a schema cannot be read, in characters.
pub struct Fault {
    pub message: Seq<char>,
    pub cause: Option<Seq<char>>,
}

impl View for SchemaError {
    type V = Fault;

    open spec fn view(&self) -> Fault {
        Fault { message: self.message@, cause: text::opt_view(self.cause) }
    }
}

/// A fault with nothing behind it.
pub open spec fn plain_fault(message: Seq<char>) -> Fault {
    Fault { message, cause: None }
}

/// What a schema says.
pub struct SApi {
    pub methods: Seq<SMethod>,
    pub nodes: Seq<SNode>,
}

impl View for ApiSchema {
    type V = SApi;

    open spec fn view(&self) -> SApi {
        SApi { methods: method::method_views(self.methods@), nodes: model::node_views(self.nodes@) }
    }
}

/// What a character is written as in a pointer.
pub open spec fn escaped_char(c: char) -> Seq<char> {
    if c == '~' {
        seq!['~', '0']
    } else if c == '/' {
        seq!['~', '1']
    } else {
        seq![c]
    }
}

/// What a name is written as in a pointer.
pub open spec fn escaped(name: Seq<char>) -> Seq<char>
    decreases name.len(),
{
    if name.len() == 0 {
        name
    } else {
        escaped(name.drop_last()) + escaped_char(name.last())
    }
}

/// What a name is written as in a pointer.
pub fn pointer_escape(name: &str) -> (r: String)
    ensures
        r@ == escaped(name@),
{
    let cs = text::char_vec(name);
    let mut out = String::new();
    let mut i: usize = 0;
    assert(cs@.take(0) =~= Seq::empty());
    while i < cs.len()
        invariant
            i <= cs@.len(),
            out@ == escaped(cs@.take(i as int)),
        decreases cs@.len() - i,
    {
        assert(cs@.take(i + 1).drop_last() =~= cs@.take(i as int));
        let ghost before = out@;
        let c = cs[i];
        if c == '~' {
            out.push('~');
            out.push('0');
        } else if c == '/' {
            out.push('~');
            out.push('1');
        } else {
            out.push(c);
        }
        assert(out@ =~= before + escaped_char(c));
        i = i + 1;
    }
    assert(cs@.take(cs@.len() as int) =~= cs@);
    out
}

proof fn lemma_escaped_end(name: Seq<char>)
    ensures
        name.len() == 0 <==> escaped(name).len() == 0,
        name.len() > 0 ==> escaped(name).last() == escaped_char(name.last()).last(),
        forall|i: int| 0 <= i < escaped(name).len() ==> #[trigger] escaped(name)[i] != '/',
        escaped(name).len() > 0 ==> escaped(name).last() != '~',
    decreases name.len(),
{
    if name.len() > 0 {
        lemma_escaped_end(name.drop_last());
    }
}

/// Different names are written differently in a pointer, and never with the
/// character that parts its steps.
pub proof fn law_escape_is_injective(a: Seq<char>, b: Seq<char>)
    ensures
        escaped(a) == escaped(b) ==> a == b,
        !escaped(a).contains('/'),
    decreases a.len(),
{
    lemma_escaped_end(a);
    lemma_escaped_end(b);
    if escaped(a) == escaped(b) {
        if a.len() == 0 {
            assert(a =~= b);
        } else {
            assert(b.len() > 0);
            let x = escaped(a);
            let p = a.drop_last();
            let q = b.drop_last();
            lemma_escaped_end(p);
            lemma_escaped_end(q);
            lemma_last_char(a, b);
            assert(escaped_char(a.last()) == escaped_char(b.last()));
            let n = escaped_char(a.last()).len() as int;
            assert(escaped(p) =~= x.take(x.len() - n));
            assert(escaped(q) =~= x.take(x.len() - n));
            law_escape_is_injective(p, q);
            assert(a =~= p.push(a.last()));
            assert(b =~= q.push(b.last()));
        }
    }
}

proof fn lemma_last_char(a: Seq<char>, b: Seq<char>)
    requires
        a.len() > 0,
        b.len() > 0,
        escaped(a) == escaped(b),
    ensures
        a.last() == b.last(),
{
    let x = escaped(a);
    let p = a.drop_last();
    let q = b.drop_last();
    lemma_escaped_end(p);
    lemma_escaped_end(q);
    let s = escaped_char(a.last());
    let t = escaped_char(b.last());
    assert(x == escaped(p) + s);
    assert(x == escaped(q) + t);
    assert(x.last() == s.last());
    assert(x.last() == t.last());
    if s.len() == 2 {
        assert(x[x.len() - 2] == '~');
        if t.len() == 1 {
            assert(escaped(q).last() == x[x.len() - 2]);
        }
    } else if t.len() == 2 {
        assert(x[x.len() - 2] == '~');
        assert(escaped(p).last() == x[x.len() - 2]);
    }
}

/// A name is written in a pointer with `~0` for `~` and `~1` for `/`, and otherwise as
/// it is.
pub proof fn law_escape_by_characters(a: Seq<char>, b: Seq<char>, c: char)
    ensures
        escaped(a + b) == escaped(a) + escaped(b),
        escaped(seq!['~']) == seq!['~', '0'],
        escaped(seq!['/']) == seq!['~', '1'],
        c != '~' && c != '/' ==> escaped(seq![c]) == seq![c],
        escaped(Seq::empty()) == Seq::<char>::empty(),
    decreases b.len(),
{
    assert forall|x: char| #[trigger] escaped(seq![x]) == escaped_char(x) by {
        assert(seq![x].drop_last() =~= Seq::empty());
        assert(escaped(seq![x].drop_last()) =~= Seq::empty());
        assert(escaped(seq![x]) =~= escaped_char(x));
    }
    if b.len() == 0 {
        assert(a + b =~= a);
        assert(escaped(a) + escaped(b) =~= escaped(a));
    } else {
        law_escape_by_characters(a, b.drop_last(), c);
        assert((a + b).drop_last() =~= a + b.drop_last());
        assert(escaped(a + b) =~= escaped(a) + escaped(b));
    }
}

/// The references to the definitions.
pub open spec fn references_to(definitions: Seq<JField>) -> Seq<Seq<char>> {
    definitions.map_values(|d: JField| "#/definitions/"@ + escaped(d.name))
}

/// The nodes with the first so many definitions read into their places, or what
/// is wrong with one of those.
pub open spec fn defined(definitions: Seq<JField>, count: nat) -> Result<Seq<SNode>, Fault>
    decreases count,
{
    if count == 0 {
        Ok(Seq::new(definitions.len(), |i: int| SNode::Any))
    } else {
        let at = count - 1;
        match defined(definitions, at as nat) {
            Err(fault) => Err(fault),
            Ok(nodes) => match parse::node_of(references_to(definitions), definitions[at].value, nodes) {
                Ok((node, more)) => Ok(more.update(at, node)),
                Err(cause) => Err(
                    Fault { message: "parse JSON Schema definition "@ + definitions[at].name, cause: Some(cause) },
                ),
            },
        }
    }
}

/// What is wrong with the references of the first so many nodes.
pub open spec fn reference_fault(nodes: Seq<SNode>, count: nat) -> Option<Seq<char>>
    decreases count,
{
    if count == 0 {
        None
    } else {
        match reference_fault(nodes, (count - 1) as nat) {
            Some(e) => Some(e),
            None => match model::resolution(nodes, SchemaId((count - 1) as usize)) {
                Ok(_) => None,
                Err(e) => Some(e),
            },
        }
    }
}

/// The definitions that a schema holds.
pub open spec fn definitions_of(root: JView) -> Result<Seq<JField>, Fault> {
    match root.shape {
        JShape::Object(fields) => match json::field_of(fields, "definitions"@) {
            None => Ok(Seq::empty()),
            Some(v) => match v.shape {
                JShape::Object(definitions) => Ok(definitions),
                _ => Err(plain_fault("ClientRequest definitions must be an object"@)),
            },
        },
        _ => Ok(Seq::empty()),
    }
}

/// The variants of a request that a schema holds.
pub open spec fn variants_of(root: JView) -> Option<Seq<JView>> {
    match root.shape {
        JShape::Object(fields) => match json::field_of(fields, "oneOf"@) {
            None => None,
            Some(v) => match v.shape {
                JShape::Array(variants) => Some(variants),
                _ => None,
            },
        },
        _ => None,
    }
}

/// What a schema says, or why it cannot be read.
pub open spec fn schema_read(root: JView) -> Result<SApi, Fault> {
    match definitions_of(root) {
        Err(fault) => Err(fault),
        Ok(definitions) => match defined(definitions, definitions.len()) {
            Err(fault) => Err(fault),
            Ok(nodes) => match reference_fault(nodes, definitions.len()) {
                Some(e) => Err(plain_fault(e)),
                None => match variants_of(root) {
                    None => Err(plain_fault("ClientRequest schema must contain a oneOf array"@)),
                    Some(variants) => match method::methods_of(references_to(definitions), variants, nodes) {
                        Err(e) => Err(plain_fault(e)),
                        Ok((methods, all)) => Ok(SApi { methods, nodes: all }),
                    },
                },
            },
        },
    }
}

fn plain_error(message: String) -> (r: SchemaError)
    ensures
        r@ == plain_fault(message@),
{
    SchemaError { message, cause: None }
}

fn definition_references(definitions: &Vec<JsonField>) -> (r: Vec<String>)
    ensures
        text::views(r@) == references_to(json::jfields(definitions@)),
{
    let mut out: Vec<String> = Vec::new();
    let mut i: usize = 0;
    let ghost all = json::jfields(definitions@);
    proof {
        json::lemma_jfields(definitions@);
    }
    while i < definitions.len()
        invariant
            i <= definitions@.len(),
            out@.len() == i,
            all == json::jfields(definitions@),
            all.len() == definitions@.len(),
            forall|k: int| 0 <= k < definitions@.len() ==> (#[trigger] all[k]).name == definitions@[k].name@,
            forall|k: int| 0 <= k < i ==> (#[trigger] out@[k])@ == "#/definitions/"@ + escaped(all[k].name),
        decreases definitions@.len() - i,
    {
        let mut reference = "#/definitions/".to_string();
        let name = pointer_escape(definitions[i].name.as_str());
        reference.push_str(name.as_str());
        out.push(reference);
        i = i + 1;
    }
    assert(text::views(out@) =~= references_to(all));
    out
}

proof fn lemma_defined_error_stays(definitions: Seq<JField>, n: nat, m: nat)
    requires
        n <= m,
        defined(definitions, n) is Err,
    ensures
        defined(definitions, m) == defined(definitions, n),
    decreases m,
{
    if n < m {
        lemma_defined_error_stays(definitions, n, (m - 1) as nat);
    }
}

proof fn lemma_fault_stays(nodes: Seq<SNode>, n: nat, m: nat)
    requires
        n <= m,
        reference_fault(nodes, n) is Some,
    ensures
        reference_fault(nodes, m) == reference_fault(nodes, n),
    decreases m,
{
    if n < m {
        lemma_fault_stays(nodes, n, (m - 1) as nat);
    }
}

/// Whether the nodes are among those, at their places.
pub open spec fn kept_in(nodes: Seq<SNode>, more: Seq<SNode>) -> bool {
    more.len() >= nodes.len() && more.take(nodes.len() as int) == nodes
}

proof fn lemma_kept(a: Seq<SNode>, b: Seq<SNode>, c: Seq<SNode>)
    requires
        kept_in(a, b),
        kept_in(b, c),
    ensures
        kept_in(a, c),
{
    assert(c.take(a.len() as int) =~= b.take(a.len() as int));
}

proof fn lemma_kept_push(a: Seq<SNode>, b: Seq<SNode>, node: SNode)
    requires
        kept_in(a, b),
    ensures
        kept_in(a, b.push(node)),
{
    assert(b.push(node).take(a.len() as int) =~= b.take(a.len() as int));
}

/// What a schema adds stands behind the nodes that were there.
proof fn lemma_nodes_are_kept(references: Seq<Seq<char>>, v: JView, nodes: Seq<SNode>)
    ensures
        parse::node_of(references, v, nodes) matches Ok((_, more)) ==> kept_in(nodes, more),
    decreases v, 0int,
{
    reveal_with_fuel(parse::node_of, 3);
    reveal_with_fuel(parse::schema_of, 3);
    assert(nodes.take(nodes.len() as int) =~= nodes);
    if let JShape::Object(fields) = v.shape {
        json::lemma_field_is_part(fields, "allOf"@);
        if let Ok(Some(alias)) = parse::alias_of(fields) {
            lemma_schema_is_kept(references, alias, nodes);
        }
        if let Ok(types) = value::types_of(json::field_of(fields, "type"@)) {
            lemma_object_is_kept(references, fields, types, nodes);
        }
    }
}

proof fn lemma_schema_is_kept(references: Seq<Seq<char>>, v: JView, nodes: Seq<SNode>)
    ensures
        parse::schema_of(references, v, nodes) matches Ok((_, more)) ==> kept_in(nodes, more),
    decreases v, 1int,
{
    reveal_with_fuel(parse::schema_of, 3);
    lemma_nodes_are_kept(references, v, nodes);
    if let Ok((node, more)) = parse::node_of(references, v, nodes) {
        lemma_kept_push(nodes, more, node);
    }
}

proof fn lemma_entries_are_kept(references: Seq<Seq<char>>, entries: Seq<JField>, nodes: Seq<SNode>)
    ensures
        parse::properties_of(references, entries, nodes) matches Ok((_, more)) ==> kept_in(nodes, more),
    decreases entries, 0int,
{
    reveal_with_fuel(parse::properties_of, 3);
    if entries.len() > 0 {
        lemma_entries_are_kept(references, entries.drop_last(), nodes);
        if let Ok((_, more)) = parse::properties_of(references, entries.drop_last(), nodes) {
            lemma_schema_is_kept(references, entries.last().value, more);
            if let Ok((_, all)) = parse::schema_of(references, entries.last().value, more) {
                lemma_kept(nodes, more, all);
            }
        }
    } else {
        assert(nodes.take(nodes.len() as int) =~= nodes);
    }
}

proof fn lemma_object_is_kept(
    references: Seq<Seq<char>>,
    fields: Seq<JField>,
    types: Option<Set<JsonType>>,
    nodes: Seq<SNode>,
)
    ensures
        parse::object_of(references, fields, types, nodes) matches Ok((_, more)) ==> kept_in(nodes, more),
    decreases fields, 1int,
{
    json::lemma_field_is_part(fields, "properties"@);
    json::lemma_field_is_part(fields, "additionalProperties"@);
    assert(nodes.take(nodes.len() as int) =~= nodes);
    let mut middle = nodes;
    if let Some(v) = json::field_of(fields, "properties"@) {
        if let JShape::Object(entries) = v.shape {
            lemma_entries_are_kept(references, entries, nodes);
            if let Ok((_, more)) = parse::properties_of(references, entries, nodes) {
                middle = more;
            }
        }
    }
    if let Some(v) = json::field_of(fields, "additionalProperties"@) {
        lemma_schema_is_kept(references, v, middle);
        if let Ok((_, all)) = parse::schema_of(references, v, middle) {
            lemma_kept(nodes, middle, all);
        }
    }
}

proof fn lemma_methods_are_kept(references: Seq<Seq<char>>, variants: Seq<JView>, nodes: Seq<SNode>)
    ensures
        method::methods_of(references, variants, nodes) matches Ok((_, more)) ==> kept_in(nodes, more),
    decreases variants.len(),
{
    if variants.len() > 0 {
        lemma_methods_are_kept(references, variants.drop_last(), nodes);
        if let Ok((_, more)) = method::methods_of(references, variants.drop_last(), nodes) {
            lemma_schema_is_kept(references, variants.last(), more);
            if let Ok((_, all)) = parse::schema_of(references, variants.last(), more) {
                lemma_kept(nodes, more, all);
            }
        }
    } else {
        assert(nodes.take(nodes.len() as int) =~= nodes);
    }
}

proof fn lemma_followed_is_kept(nodes: Seq<SNode>, more: Seq<SNode>, id: SchemaId, visits: nat, visited: nat)
    requires
        kept_in(nodes, more),
        visits <= visited,
    ensures
        model::followed(nodes, id, visits) is Ok ==> model::followed(more, id, visited) == model::followed(
            nodes,
            id,
            visits,
        ),
    decreases visits,
{
    if visits > 0 && id.0 < nodes.len() {
        assert(more.take(nodes.len() as int)[id.0 as int] == more[id.0 as int]);
        if let SNode::Reference(next) = nodes[id.0 as int] {
            lemma_followed_is_kept(nodes, more, next, (visits - 1) as nat, (visited - 1) as nat);
        }
    }
}

proof fn lemma_no_fault(nodes: Seq<SNode>, count: nat, i: nat)
    requires
        reference_fault(nodes, count) is None,
        i < count,
    ensures
        model::resolution(nodes, SchemaId(i as usize)) is Ok,
    decreases count,
{
    if i + 1 < count {
        lemma_no_fault(nodes, (count - 1) as nat, i);
    }
}

/// Whether every reference behind the first so many nodes leads to a node before
/// it.
pub open spec fn points_back(nodes: Seq<SNode>, from: nat) -> bool {
    forall|i: int| from <= i < nodes.len() ==> (#[trigger] nodes[i] matches SNode::Reference(id) ==> id.0 < i)
}

proof fn lemma_place_is_inside(names: Seq<Seq<char>>, name: Seq<char>)
    ensures
        parse::place_of(names, name) matches Some(i) ==> 0 <= i < names.len(),
    decreases names.len(),
{
    if names.len() > 0 {
        lemma_place_is_inside(names.skip(1), name);
    }
}

proof fn lemma_node_points_back(references: Seq<Seq<char>>, v: JView, nodes: Seq<SNode>, from: nat)
    requires
        references.len() <= from <= nodes.len(),
        points_back(nodes, from),
    ensures
        parse::node_of(references, v, nodes) matches Ok((node, more)) ==> more.len() <= usize::MAX ==> points_back(
            more,
            from,
        ) && (node matches SNode::Reference(id) ==> id.0 < more.len()),
    decreases v, 0int,
{
    reveal_with_fuel(parse::node_of, 3);
    reveal_with_fuel(parse::schema_of, 3);
    if let JShape::Object(fields) = v.shape {
        json::lemma_field_is_part(fields, "allOf"@);
        if let Some(reference) = json::field_of(fields, "$ref"@) {
            if let JShape::Str(name) = reference.shape {
                lemma_place_is_inside(references, name);
            }
        }
        if let Ok(Some(alias)) = parse::alias_of(fields) {
            lemma_schema_points_back(references, alias, nodes, from);
        }
        if let Ok(types) = value::types_of(json::field_of(fields, "type"@)) {
            lemma_object_points_back(references, fields, types, nodes, from);
        }
    }
}

proof fn lemma_schema_points_back(references: Seq<Seq<char>>, v: JView, nodes: Seq<SNode>, from: nat)
    requires
        references.len() <= from <= nodes.len(),
        points_back(nodes, from),
    ensures
        parse::schema_of(references, v, nodes) matches Ok((id, more)) ==> more.len() <= usize::MAX ==> points_back(
            more,
            from,
        ) && id.0 < more.len(),
    decreases v, 1int,
{
    reveal_with_fuel(parse::schema_of, 3);
    lemma_node_points_back(references, v, nodes, from);
}

proof fn lemma_entries_point_back(references: Seq<Seq<char>>, entries: Seq<JField>, nodes: Seq<SNode>, from: nat)
    requires
        references.len() <= from <= nodes.len(),
        points_back(nodes, from),
    ensures
        parse::properties_of(references, entries, nodes) matches Ok((_, more)) ==> more.len() <= usize::MAX
            ==> points_back(more, from),
    decreases entries, 0int,
{
    reveal_with_fuel(parse::properties_of, 3);
    if entries.len() > 0 {
        lemma_entries_point_back(references, entries.drop_last(), nodes, from);
        if let Ok((_, more)) = parse::properties_of(references, entries.drop_last(), nodes) {
            lemma_entries_are_kept(references, entries.drop_last(), nodes);
            lemma_schema_is_kept(references, entries.last().value, more);
            if more.len() <= usize::MAX {
                lemma_schema_points_back(references, entries.last().value, more, from);
            }
        }
    }
}

proof fn lemma_object_points_back(
    references: Seq<Seq<char>>,
    fields: Seq<JField>,
    types: Option<Set<JsonType>>,
    nodes: Seq<SNode>,
    from: nat,
)
    requires
        references.len() <= from <= nodes.len(),
        points_back(nodes, from),
    ensures
        parse::object_of(references, fields, types, nodes) matches Ok((_, more)) ==> more.len() <= usize::MAX
            ==> points_back(more, from),
    decreases fields, 1int,
{
    json::lemma_field_is_part(fields, "properties"@);
    json::lemma_field_is_part(fields, "additionalProperties"@);
    let mut middle = nodes;
    if let Some(v) = json::field_of(fields, "properties"@) {
        if let JShape::Object(entries) = v.shape {
            lemma_entries_are_kept(references, entries, nodes);
            lemma_entries_point_back(references, entries, nodes, from);
            if let Ok((_, more)) = parse::properties_of(references, entries, nodes) {
                middle = more;
            }
        }
    }
    if let Some(v) = json::field_of(fields, "additionalProperties"@) {
        lemma_schema_is_kept(references, v, middle);
        if middle.len() <= usize::MAX {
            lemma_schema_points_back(references, v, middle, from);
        }
    }
}

proof fn lemma_methods_point_back(references: Seq<Seq<char>>, variants: Seq<JView>, nodes: Seq<SNode>, from: nat)
    requires
        references.len() <= from <= nodes.len(),
        points_back(nodes, from),
    ensures
        method::methods_of(references, variants, nodes) matches Ok((_, more)) ==> more.len() <= usize::MAX
            ==> points_back(more, from),
    decreases variants.len(),
{
    if variants.len() > 0 {
        lemma_methods_point_back(references, variants.drop_last(), nodes, from);
        if let Ok((_, more)) = method::methods_of(references, variants.drop_last(), nodes) {
            lemma_methods_are_kept(references, variants.drop_last(), nodes);
            lemma_schema_is_kept(references, variants.last(), more);
            if more.len() <= usize::MAX {
                lemma_schema_points_back(references, variants.last(), more, from);
            }
        }
    }
}

proof fn lemma_defined_points_back(definitions: Seq<JField>, n: nat)
    requires
        n <= definitions.len(),
    ensures
        defined(definitions, n) matches Ok(nodes) ==> nodes.len() <= usize::MAX ==> points_back(
            nodes,
            definitions.len(),
        ),
    decreases n,
{
    if n > 0 {
        lemma_defined_points_back(definitions, (n - 1) as nat);
        lemma_defined_len(definitions, (n - 1) as nat);
        if let Ok(nodes) = defined(definitions, (n - 1) as nat) {
            lemma_nodes_are_kept(references_to(definitions), definitions[n - 1].value, nodes);
            if nodes.len() <= usize::MAX {
                lemma_node_points_back(
                    references_to(definitions),
                    definitions[n - 1].value,
                    nodes,
                    definitions.len(),
                );
            }
        }
    }
}

proof fn lemma_definition_resolves(root: JView, i: nat)
    requires
        schema_read(root) is Ok,
        definitions_of(root) is Ok,
        i < definitions_of(root)->Ok_0.len(),
    ensures
        model::resolution(schema_read(root)->Ok_0.nodes, SchemaId(i as usize)) is Ok,
{
    let schema = schema_read(root)->Ok_0;
    let definitions = definitions_of(root)->Ok_0;
    let nodes = defined(definitions, definitions.len())->Ok_0;
    let variants = variants_of(root)->Some_0;
    lemma_no_fault(nodes, definitions.len(), i);
    lemma_methods_are_kept(references_to(definitions), variants, nodes);
    lemma_followed_is_kept(nodes, schema.nodes, SchemaId(i as usize), nodes.len() + 1, schema.nodes.len() + 1);
}

/// In a schema that can be read every node, each definition among them, stands
/// for a node that is no reference: no nodes refer to each other in a circle.
pub proof fn law_nodes_resolve(root: JView, i: nat)
    requires
        schema_read(root) matches Ok(schema) ==> schema.nodes.len() <= usize::MAX,
    ensures
        schema_read(root) matches Ok(schema) ==> i < schema.nodes.len() ==> model::resolution(
            schema.nodes,
            SchemaId(i as usize),
        ) is Ok,
    decreases i,
{
    if let (Ok(schema), Ok(definitions)) = (schema_read(root), definitions_of(root)) {
        if i < definitions.len() && i < schema.nodes.len() {
            lemma_definition_resolves(root, i);
        } else if i < schema.nodes.len() {
            let nodes = defined(definitions, definitions.len())->Ok_0;
            let variants = variants_of(root)->Some_0;
            lemma_defined_len(definitions, definitions.len());
            lemma_methods_are_kept(references_to(definitions), variants, nodes);
            lemma_defined_points_back(definitions, definitions.len());
            lemma_methods_point_back(references_to(definitions), variants, nodes, definitions.len());
            match schema.nodes[i as int] {
                SNode::Reference(next) => {
                    law_nodes_resolve(root, next.0 as nat);
                    model::lemma_reference_resolves(schema.nodes, SchemaId(i as usize), next);
                },
                _ => {},
            }
        }
    }
}

proof fn lemma_defined_len(definitions: Seq<JField>, n: nat)
    requires
        n <= definitions.len(),
    ensures
        defined(definitions, n) matches Ok(nodes) ==> nodes.len() >= definitions.len(),
    decreases n,
{
    if n > 0 {
        lemma_defined_len(definitions, (n - 1) as nat);
        if let Ok(nodes) = defined(definitions, (n - 1) as nat) {
            lemma_nodes_are_kept(references_to(definitions), definitions[n - 1].value, nodes);
        }
    }
}

/// Each definition is read into the node at its place, and is known under the
/// reference that its name makes; the nodes of the requests stand behind all that.
pub proof fn law_definition_stands_at_its_place(root: JView, i: int)
    requires
        schema_read(root) is Ok,
        definitions_of(root) is Ok,
        0 <= i < definitions_of(root)->Ok_0.len(),
    ensures
        ({
            let definitions = definitions_of(root)->Ok_0;
            let nodes = schema_read(root)->Ok_0.nodes;
            let references = references_to(definitions);
            &&& references.len() == definitions.len() <= nodes.len()
            &&& references[i] == "#/definitions/"@ + escaped(definitions[i].name)
            &&& exists|before: Seq<SNode>|
                #[trigger] parse::node_of(references, definitions[i].value, before) is Ok && parse::node_of(
                    references,
                    definitions[i].value,
                    before,
                )->Ok_0.0 == nodes[i]
        }),
{
    let definitions = definitions_of(root)->Ok_0;
    let schema = schema_read(root)->Ok_0;
    let nodes = defined(definitions, definitions.len())->Ok_0;
    lemma_defined_place(definitions, definitions.len(), i);
    lemma_defined_len(definitions, definitions.len());
    lemma_methods_are_kept(references_to(definitions), variants_of(root)->Some_0, nodes);
    assert(schema.nodes.take(nodes.len() as int)[i] == schema.nodes[i]);
}

proof fn lemma_defined_place(definitions: Seq<JField>, n: nat, i: int)
    requires
        0 <= i < n <= definitions.len(),
        defined(definitions, n) is Ok,
    ensures
        exists|before: Seq<SNode>|
            #[trigger] parse::node_of(references_to(definitions), definitions[i].value, before) is Ok && parse::node_of(
                references_to(definitions),
                definitions[i].value,
                before,
            )->Ok_0.0 == defined(definitions, n)->Ok_0[i],
    decreases n,
{
    let at = n - 1;
    let nodes = defined(definitions, at as nat)->Ok_0;
    lemma_defined_len(definitions, at as nat);
    lemma_nodes_are_kept(references_to(definitions), definitions[at].value, nodes);
    let (node, more) = parse::node_of(references_to(definitions), definitions[at].value, nodes)->Ok_0;
    if i == at {
        assert(parse::node_of(references_to(definitions), definitions[i].value, nodes) == Ok::<
            (SNode, Seq<SNode>),
            Seq<char>,
        >((node, more)));
    } else {
        lemma_defined_place(definitions, at as nat, i);
        assert(more.take(nodes.len() as int)[i] == more[i]);
        assert(defined(definitions, n)->Ok_0[i] == nodes[i]);
    }
}

/// A schema is read from the `definitions` and the variants under `oneOf` that it
/// holds: its methods are those of all the variants, each once.
pub proof fn law_schema_has_a_method_for_each_variant(root: JView)
    ensures
        schema_read(root) matches Ok(schema) ==> {
            &&& root.shape matches JShape::Object(fields)
            &&& json::field_of(fields, "oneOf"@) matches Some(listed)
            &&& listed.shape matches JShape::Array(variants)
            &&& schema.methods.len() == variants.len()
            &&& method::methods_ordered(schema.methods)
            &&& match json::field_of(fields, "definitions"@) {
                None => definitions_of(root) == Ok::<Seq<JField>, Fault>(Seq::empty()),
                Some(v) => v.shape matches JShape::Object(entries) && definitions_of(root) == Ok::<Seq<JField>, Fault>(
                    entries,
                ),
            }
        },
{
    if let Ok(schema) = schema_read(root) {
        let definitions = definitions_of(root)->Ok_0;
        let nodes = defined(definitions, definitions.len())->Ok_0;
        method::law_methods_are_ordered(references_to(definitions), variants_of(root)->Some_0, nodes);
    }
}

fn read_definitions(definitions: &Vec<JsonField>) -> (r: Result<Parser, SchemaError>)
    ensures
        match r {
            Ok(parser) => {
                &&& defined(json::jfields(definitions@), definitions@.len()) == Ok::<Seq<SNode>, Fault>(
                    parse::read_nodes(parser),
                )
                &&& parse::known(parser) == references_to(json::jfields(definitions@))
                &&& model::nodes_wf(parser.nodes@)
            },
            Err(e) => defined(json::jfields(definitions@), definitions@.len()) == Err::<Seq<SNode>, Fault>(e@),
        },
{
    let references = definition_references(definitions);
    let mut nodes: Vec<SchemaNode> = Vec::new();
    let mut i: usize = 0;
    let ghost all = json::jfields(definitions@);
    while i < definitions.len()
        invariant
            i <= definitions@.len(),
            nodes@.len() == i,
            forall|k: int| 0 <= k < i ==> #[trigger] nodes@[k] is Any,
        decreases definitions@.len() - i,
    {
        nodes.push(SchemaNode::Any);
        i = i + 1;
    }
    let mut parser = Parser { nodes, references };
    proof {
        json::lemma_jfields(definitions@);
        assert(parse::read_nodes(parser) =~= Seq::new(all.len(), |i: int| SNode::Any));
    }
    let mut at: usize = 0;
    while at < definitions.len()
        invariant
            at <= definitions@.len(),
            all == json::jfields(definitions@),
            all.len() == definitions@.len(),
            forall|k: int|
                0 <= k < definitions@.len() ==> (#[trigger] all[k]).name == definitions@[k].name@ && all[k].value
                    == json::jview(definitions@[k].value),
            parse::known(parser) == references_to(all),
            model::nodes_wf(parser.nodes@),
            defined(all, at as nat) == Ok::<Seq<SNode>, Fault>(parse::read_nodes(parser)),
        decreases definitions@.len() - at,
    {
        match parser.parse_node(&definitions[at].value) {
            Ok(node) => {
                proof {
                    lemma_defined_len(all, at as nat);
                    assert(parse::read_nodes(parser).len() >= all.len()) by {
                        if let Ok(before) = defined(all, at as nat) {
                            lemma_nodes_are_kept(references_to(all), all[at as int].value, before);
                        }
                    }
                }
                let ghost read = parse::read_nodes(parser);
                let ghost said = model::node_view(node);
                parser.nodes.set(at, node);
                proof {
                    assert(parse::read_nodes(parser) =~= read.update(at as int, said));
                }
            },
            Err(cause) => {
                proof {
                    lemma_defined_error_stays(all, (at + 1) as nat, all.len());
                }
                let mut message = "parse JSON Schema definition ".to_string();
                message.push_str(definitions[at].name.as_str());
                return Err(SchemaError { message, cause: Some(cause) });
            },
        }
        at = at + 1;
    }
    Ok(parser)
}

impl ApiSchema {
    /// Reads the schema of the requests that clients make.
    pub fn parse(root: &Json) -> (r: Result<ApiSchema, SchemaError>)
        ensures
            match r {
                Ok(schema) => schema_read(root@) == Ok::<SApi, Fault>(schema@) && model::nodes_wf(schema.nodes@),
                Err(e) => schema_read(root@) == Err::<SApi, Fault>(e@),
            },
    {
        let none: Vec<JsonField> = Vec::new();
        assert(json::jfields(none@) =~= Seq::empty());
        let definitions = match &root.shape {
            JsonShape::Object(fields) => match json::get_field(fields, "definitions") {
                None => &none,
                Some(v) => match &v.shape {
                    JsonShape::Object(definitions) => definitions,
                    _ => {
                        return Err(plain_error("ClientRequest definitions must be an object".to_string()));
                    },
                },
            },
            _ => &none,
        };
        let ghost all = json::jfields(definitions@);
        proof {
            json::lemma_jfields(definitions@);
        }
        let mut parser = match read_definitions(definitions) {
            Ok(parser) => parser,
            Err(e) => {
                return Err(e);
            },
        };
        let mut i: usize = 0;
        while i < definitions.len()
            invariant
                i <= definitions@.len(),
                definitions_of(root@) == Ok::<Seq<JField>, Fault>(all),
                all.len() == definitions@.len(),
                defined(all, all.len()) == Ok::<Seq<SNode>, Fault>(parse::read_nodes(parser)),
                reference_fault(parse::read_nodes(parser), i as nat) is None,
            decreases definitions@.len() - i,
        {
            match model::resolve(&parser.nodes, SchemaId(i)) {
                Ok(_) => {},
                Err(e) => {
                    proof {
                        lemma_fault_stays(parse::read_nodes(parser), (i + 1) as nat, all.len());
                    }
                    return Err(plain_error(e));
                },
            }
            i = i + 1;
        }
        let variants = match &root.shape {
            JsonShape::Object(fields) => match json::get_field(fields, "oneOf") {
                None => {
                    return Err(plain_error("ClientRequest schema must contain a oneOf array".to_string()));
                },
                Some(v) => match &v.shape {
                    JsonShape::Array(variants) => variants,
                    _ => {
                        return Err(plain_error("ClientRequest schema must contain a oneOf array".to_string()));
                    },
                },
            },
            _ => {
                return Err(plain_error("ClientRequest schema must contain a oneOf array".to_string()));
            },
        };
        match Method::parse_all(&mut parser, variants) {
            Ok(methods) => Ok(ApiSchema { methods, nodes: parser.nodes }),
            Err(e) => Err(plain_error(e)),
        }
    }

    /// Adds a node and gives its place.
    pub fn push(&mut self, node: SchemaNode) -> (r: SchemaId)
        ensures
            r.0 == old(self).nodes@.len(),
            final(self).nodes@ == old(self).nodes@.push(node),
            final(self).methods@ == old(self).methods@,
    {
        let id = SchemaId(self.nodes.len());
        self.nodes.push(node);
        id
    }

    /// The node that a node stands for, with its place.
    pub fn resolve(&self, id: SchemaId) -> (r: Result<(SchemaId, &SchemaNode), String>)
        ensures
            match r {
                Ok((at, node)) => {
                    &&& model::resolution(self@.nodes, id) == Ok::<SchemaId, Seq<char>>(at)
                    &&& at.0 < self.nodes@.len()
                    &&& *node == self.nodes@[at.0 as int]
                    &&& !(*node is Reference)
                },
                Err(e) => model::resolution(self@.nodes, id) == Err::<SchemaId, Seq<char>>(e@),
            },
    {
        match model::resolve(&self.nodes, id) {
            Ok(at) => Ok((at, &self.nodes[at.0])),
            Err(e) => Err(e),
        }
    }

    /// The method with the name.
    pub fn method(&self, name: &str) -> (r: Option<&Method>)
        ensures
            match r {
                Some(m) => self@.methods.contains(m@) && m.name@ == name@,
                None => !method::has_method(self@.methods, name@),
            },
    {
        let mut i: usize = 0;
        let ghost all = self@.methods;
        while i < self.methods.len()
            invariant
                i <= self.methods@.len(),
                all == method::method_views(self.methods@),
                forall|k: int| 0 <= k < i ==> (#[trigger] all[k]).name != name@,
            decreases self.methods@.len() - i,
        {
            assert(all[i as int] == self.methods@[i as int]@);
            if text::str_eq(self.methods[i].name.as_str(), name) {
                return Some(&self.methods[i]);
            }
            i = i + 1;
        }
        None
    }
}

} // verus!
