//! The methods that clients may call, with the shape of their arguments.

use vstd::prelude::*;

use crate::json;
use crate::json::JShape;
use crate::json::JView;
use crate::json::Json;
use crate::json::JsonShape;
use crate::schema_evolution::model;
use crate::schema_evolution::model::Property;
use crate::schema_evolution::model::SNode;
use crate::schema_evolution::model::SchemaId;
use crate::schema_evolution::model::SchemaNode;
use crate::schema_evolution::parse;
use crate::schema_evolution::parse::Parser;
use crate::schema_evolution::value::JsonType;
use crate::schema_evolution::value::TypeSet;
use crate::text;

verus! {

/// A method that clients may call.
#[derive(Debug, PartialEq)]
pub struct Method {
    pub name: String,
    pub arguments: Arguments,
    pub request: SchemaId,
}

/// What a method is called with.
#[derive(Clone, Copy, Debug, PartialEq, Eq, Structural)]
pub enum Arguments {
    Absent,
    Mapping(Argument),
    Value(Argument),
}

/// An argument of a method.
#[derive(Clone, Copy, Debug, PartialEq, Eq, Structural)]
pub struct Argument {
    pub required: bool,
    pub schema: SchemaId,
}

/// What a method says.
pub struct SMethod {
    pub name: Seq<char>,
    pub arguments: Arguments,
    pub request: SchemaId,
}

impl View for Method {
    type V = SMethod;

    open spec fn view(&self) -> SMethod {
        SMethod { name: self.name@, arguments: self.arguments, request: self.request }
    }
}

/// What the methods say.
pub open spec fn method_views(methods: Seq<Method>) -> Seq<SMethod> {
    methods.map_values(|m: Method| m@)
}

/// The schema of the first property with the name.
pub open spec fn property_of(properties: Seq<(Seq<char>, SchemaId)>, name: Seq<char>) -> Option<SchemaId>
    decreases properties.len(),
{
    if properties.len() == 0 {
        None
    } else if properties[0].0 == name {
        Some(properties[0].1)
    } else {
        property_of(properties.skip(1), name)
    }
}

/// The schema of the first property with the name.
pub fn get_property(properties: &Vec<(String, Property)>, name: &str) -> (r: Option<SchemaId>)
    ensures
        r == property_of(model::property_views(properties@), name@),
{
    let ghost all = model::property_views(properties@);
    let mut i: usize = 0;
    assert(all.skip(0) =~= all);
    while i < properties.len()
        invariant
            i <= properties@.len(),
            all == model::property_views(properties@),
            property_of(all, name@) == property_of(all.skip(i as int), name@),
        decreases properties@.len() - i,
    {
        assert(all.skip(i as int)[0] == all[i as int]);
        assert(all.skip(i as int).skip(1) =~= all.skip(i + 1));
        if text::str_eq(properties[i].0.as_str(), name) {
            return Some(properties[i].1.schema);
        }
        i = i + 1;
    }
    None
}

/// The one string that a schema accepts.
pub open spec fn only_string(nodes: Seq<SNode>, id: SchemaId, label: Seq<char>) -> Result<Seq<char>, Seq<char>> {
    match model::resolution(nodes, id) {
        Err(e) => Err(e),
        Ok(at) => match nodes[at.0 as int] {
            SNode::Rules(rules) => match rules.values {
                Some(values) => if values.len() != 1 {
                    Err(label + " must contain exactly one value"@)
                } else {
                    match values[0].shape {
                        JShape::Str(s) => Ok(s),
                        _ => Err(label + " must be a string"@),
                    }
                },
                None => Err(label + " must use enum or const"@),
            },
            _ => Err(label + " must use enum or const"@),
        },
    }
}

fn labelled(label: &str, rest: &str) -> (r: String)
    ensures
        r@ == label@ + rest@,
{
    let mut message = label.to_string();
    message.push_str(rest);
    message
}

/// The one string that a schema accepts.
pub fn singleton_string(nodes: &Vec<SchemaNode>, id: SchemaId, label: &str) -> (r: Result<String, String>)
    ensures
        match r {
            Ok(s) => only_string(model::node_views(nodes@), id, label@) == Ok::<Seq<char>, Seq<char>>(s@),
            Err(e) => only_string(model::node_views(nodes@), id, label@) == Err::<Seq<char>, Seq<char>>(e@),
        },
{
    let at = match model::resolve(nodes, id) {
        Ok(at) => at,
        Err(e) => {
            return Err(e);
        },
    };
    assert(model::node_views(nodes@)[at.0 as int] == model::node_view(nodes@[at.0 as int]));
    match &nodes[at.0] {
        SchemaNode::Rules(rules) => match &rules.values {
            Some(set) => {
                proof {
                    json::lemma_jviews(set.values@);
                }
                if set.values.len() != 1 {
                    return Err(labelled(label, " must contain exactly one value"));
                }
                match &set.values[0].shape {
                    JsonShape::Str(s) => Ok(s.clone()),
                    _ => Err(labelled(label, " must be a string")),
                }
            },
            None => Err(labelled(label, " must use enum or const")),
        },
        _ => Err(labelled(label, " must use enum or const")),
    }
}

/// The shape of an argument: a map where its schema has rules for objects.
pub open spec fn classified(nodes: Seq<SNode>, argument: Argument) -> Result<Arguments, Seq<char>> {
    match model::resolution(nodes, argument.schema) {
        Err(e) => Err(e),
        Ok(at) => match nodes[at.0 as int] {
            SNode::Rules(rules) => if rules.object is Some {
                Ok(Arguments::Mapping(argument))
            } else {
                Ok(Arguments::Value(argument))
            },
            _ => Ok(Arguments::Value(argument)),
        },
    }
}

impl Arguments {
    /// The shape of an argument.
    pub fn classify(nodes: &Vec<SchemaNode>, argument: Argument) -> (r: Result<Arguments, String>)
        ensures
            match r {
                Ok(a) => classified(model::node_views(nodes@), argument) == Ok::<Arguments, Seq<char>>(a),
                Err(e) => classified(model::node_views(nodes@), argument) == Err::<Arguments, Seq<char>>(e@),
            },
    {
        let at = match model::resolve(nodes, argument.schema) {
            Ok(at) => at,
            Err(e) => {
                return Err(e);
            },
        };
        assert(model::node_views(nodes@)[at.0 as int] == model::node_view(nodes@[at.0 as int]));
        match &nodes[at.0] {
            SchemaNode::Rules(rules) => if rules.object.is_some() {
                Ok(Arguments::Mapping(argument))
            } else {
                Ok(Arguments::Value(argument))
            },
            _ => Ok(Arguments::Value(argument)),
        }
    }
}

/// The method that a request calls.
pub open spec fn method_of(nodes: Seq<SNode>, request: SchemaId) -> Result<SMethod, Seq<char>> {
    match model::resolution(nodes, request) {
        Err(e) => Err(e),
        Ok(at) => match nodes[at.0 as int] {
            SNode::Rules(rules) => if rules.types matches Some(types) && !TypeSet::accepted(types).contains(
                JsonType::Object,
            ) {
                Err("ClientRequest variant must accept objects"@)
            } else {
                match rules.object {
                    None => Err("ClientRequest variant must contain properties"@),
                    Some(object) => match property_of(object.properties, "method"@) {
                        None => Err("ClientRequest variant is missing method"@),
                        Some(property) => match only_string(nodes, property, "ClientRequest method"@) {
                            Err(e) => Err(e),
                            Ok(name) => match property_of(object.properties, "params"@) {
                                None => Ok(SMethod { name, arguments: Arguments::Absent, request }),
                                Some(schema) => match classified(
                                    nodes,
                                    Argument { required: object.required.contains("params"@), schema },
                                ) {
                                    Err(e) => Err(e),
                                    Ok(arguments) => Ok(SMethod { name, arguments, request }),
                                },
                            },
                        },
                    },
                }
            },
            _ => Err("ClientRequest variant must be an object schema"@),
        },
    }
}

fn parse_method(nodes: &Vec<SchemaNode>, request: SchemaId) -> (r: Result<Method, String>)
    requires
        model::nodes_wf(nodes@),
    ensures
        match r {
            Ok(m) => method_of(model::node_views(nodes@), request) == Ok::<SMethod, Seq<char>>(m@),
            Err(e) => method_of(model::node_views(nodes@), request) == Err::<SMethod, Seq<char>>(e@),
        },
{
    let at = match model::resolve(nodes, request) {
        Ok(at) => at,
        Err(e) => {
            return Err(e);
        },
    };
    assert(model::node_views(nodes@)[at.0 as int] == model::node_view(nodes@[at.0 as int]));
    match &nodes[at.0] {
        SchemaNode::Rules(rules) => {
            if let Some(types) = &rules.types {
                if !types.accepted_types().declares(JsonType::Object) {
                    return Err("ClientRequest variant must accept objects".to_string());
                }
            }
            match &rules.object {
                None => Err("ClientRequest variant must contain properties".to_string()),
                Some(object) => {
                    let property = match get_property(&object.properties, "method") {
                        Some(property) => property,
                        None => {
                            return Err("ClientRequest variant is missing method".to_string());
                        },
                    };
                    let name = match singleton_string(nodes, property, "ClientRequest method") {
                        Ok(name) => name,
                        Err(e) => {
                            return Err(e);
                        },
                    };
                    let arguments = match get_property(&object.properties, "params") {
                        None => Arguments::Absent,
                        Some(schema) => {
                            let required = text::contains_string(&object.required, "params");
                            assert(required == model::name_set(object.required@).contains("params"@));
                            match Arguments::classify(nodes, Argument { required, schema }) {
                                Ok(arguments) => arguments,
                                Err(e) => {
                                    return Err(e);
                                },
                            }
                        },
                    };
                    Ok(Method { name, arguments, request })
                },
            }
        },
        _ => Err("ClientRequest variant must be an object schema".to_string()),
    }
}

/// Whether a method has the name.
pub open spec fn has_method(methods: Seq<SMethod>, name: Seq<char>) -> bool {
    exists|i: int| 0 <= i < methods.len() && (#[trigger] methods[i]).name == name
}

/// The methods, in order of their names, with one more.
pub open spec fn insert_method(methods: Seq<SMethod>, m: SMethod) -> Seq<SMethod>
    decreases methods.len(),
{
    if methods.len() == 0 || !text::before(m.name, methods.last().name) {
        methods.push(m)
    } else {
        insert_method(methods.drop_last(), m).push(methods.last())
    }
}

/// The methods that the variants of a request call, in order of their names.
pub open spec fn methods_of(references: Seq<Seq<char>>, variants: Seq<JView>, nodes: Seq<SNode>) -> Result<
    (Seq<SMethod>, Seq<SNode>),
    Seq<char>,
>
    decreases variants.len(),
{
    if variants.len() == 0 {
        Ok((Seq::empty(), nodes))
    } else {
        match methods_of(references, variants.drop_last(), nodes) {
            Err(e) => Err(e),
            Ok((before, more)) => match parse::schema_of(references, variants.last(), more) {
                Err(e) => Err(e),
                Ok((request, all)) => match method_of(all, request) {
                    Err(e) => Err(e),
                    Ok(m) => if has_method(before, m.name) {
                        Err("ClientRequest contains duplicate method "@ + m.name)
                    } else {
                        Ok((insert_method(before, m), all))
                    },
                },
            },
        }
    }
}

/// Whether the methods are in order of their names, with no name twice.
pub open spec fn methods_ordered(methods: Seq<SMethod>) -> bool {
    forall|i: int, j: int|
        0 <= i < j < methods.len() ==> text::before((#[trigger] methods[i]).name, (#[trigger] methods[j]).name)
}

proof fn lemma_insert_method(methods: Seq<SMethod>, m: SMethod)
    requires
        methods_ordered(methods),
        !has_method(methods, m.name),
    ensures
        methods_ordered(insert_method(methods, m)),
        insert_method(methods, m).len() == methods.len() + 1,
        insert_method(methods, m).contains(m),
        forall|i: int|
            0 <= i < insert_method(methods, m).len() ==> insert_method(methods, m)[i] == m || methods.contains(
                #[trigger] insert_method(methods, m)[i],
            ),
        forall|x: SMethod| methods.contains(x) ==> #[trigger] insert_method(methods, m).contains(x),
    decreases methods.len(),
{
    if methods.len() == 0 || !text::before(m.name, methods.last().name) {
        let after = methods.push(m);
        assert(after[methods.len() as int] == m);
        assert forall|i: int, j: int| 0 <= i < j < after.len() implies text::before(
            (#[trigger] after[i]).name,
            (#[trigger] after[j]).name,
        ) by {
            if j == methods.len() {
                let last = methods[methods.len() - 1];
                assert(last == methods.last());
                assert(last.name != m.name);
                text::lemma_before_total(m.name, last.name);
                if i < methods.len() - 1 {
                    text::lemma_before_transitive(methods[i].name, last.name, m.name);
                }
            }
        }
        assert forall|x: SMethod| methods.contains(x) implies #[trigger] after.contains(x) by {
            let k = choose|k: int| 0 <= k < methods.len() && methods[k] == x;
            assert(after[k] == x);
        }
        assert forall|i: int| 0 <= i < after.len() implies after[i] == m || methods.contains(#[trigger] after[i]) by {
            if i < methods.len() {
                assert(methods[i] == after[i]);
            }
        }
    } else {
        let front = methods.drop_last();
        let last = methods.last();
        assert(methods[methods.len() - 1] == last);
        assert(!has_method(front, m.name)) by {
            if has_method(front, m.name) {
                let k = choose|k: int| 0 <= k < front.len() && (#[trigger] front[k]).name == m.name;
                assert(methods[k].name == m.name);
            }
        }
        lemma_insert_method(front, m);
        let inner = insert_method(front, m);
        let after = inner.push(last);
        assert forall|i: int, j: int| 0 <= i < j < after.len() implies text::before(
            (#[trigger] after[i]).name,
            (#[trigger] after[j]).name,
        ) by {
            assert(after[i] == inner[i]);
            if j == inner.len() {
                if inner[i] != m {
                    let k = choose|k: int| 0 <= k < front.len() && front[k] == inner[i];
                    assert(methods[k] == inner[i]);
                }
            } else {
                assert(after[j] == inner[j]);
            }
        }
        let at = choose|k: int| 0 <= k < inner.len() && inner[k] == m;
        assert(after[at] == m);
        assert forall|x: SMethod| methods.contains(x) implies #[trigger] after.contains(x) by {
            let k = choose|k: int| 0 <= k < methods.len() && methods[k] == x;
            if k < front.len() {
                assert(front[k] == x);
                assert(front.contains(x));
                assert(inner.contains(x));
                let n = choose|n: int| 0 <= n < inner.len() && inner[n] == x;
                assert(after[n] == x);
            } else {
                assert(after[inner.len() as int] == x);
            }
        }
        assert forall|i: int| 0 <= i < after.len() implies after[i] == m || methods.contains(#[trigger] after[i]) by {
            if i < inner.len() {
                assert(after[i] == inner[i]);
                if inner[i] != m {
                    let k = choose|k: int| 0 <= k < front.len() && front[k] == inner[i];
                    assert(methods[k] == inner[i]);
                }
            } else {
                assert(methods[methods.len() - 1] == after[i]);
            }
        }
    }
}

/// The methods that are read are in order of their names, and no two share one.
pub proof fn law_methods_are_ordered(references: Seq<Seq<char>>, variants: Seq<JView>, nodes: Seq<SNode>)
    ensures
        methods_of(references, variants, nodes) matches Ok((methods, _)) ==> methods_ordered(methods) && methods.len()
            == variants.len(),
    decreases variants.len(),
{
    if variants.len() > 0 {
        law_methods_are_ordered(references, variants.drop_last(), nodes);
        if let Ok((before, more)) = methods_of(references, variants.drop_last(), nodes) {
            if let Ok((request, all)) = parse::schema_of(references, variants.last(), more) {
                if let Ok(m) = method_of(all, request) {
                    if !has_method(before, m.name) {
                        lemma_insert_method(before, m);
                    }
                }
            }
        }
    }
}

/// A request calls the method that its property `method` names, by the one string
/// that the schema of that property accepts. It is called with what its property
/// `params` allows: with nothing where there is none, with a map where the schema of
/// that property has rules for objects, and otherwise with a value; and it must be
/// where the request requires `params`.
pub proof fn law_method_of_a_request(nodes: Seq<SNode>, request: SchemaId)
    ensures
        method_of(nodes, request) matches Ok(m) ==> {
            &&& m.request == request
            &&& model::resolution(nodes, request) matches Ok(at)
            &&& nodes[at.0 as int] matches SNode::Rules(rules)
            &&& rules.types matches Some(types) ==> types.contains(JsonType::Object)
            &&& rules.object matches Some(object)
            &&& property_of(object.properties, "method"@) matches Some(property)
            &&& accepts_only(nodes, property, m.name)
            &&& match property_of(object.properties, "params"@) {
                None => m.arguments == Arguments::Absent,
                Some(schema) => {
                    let argument = Argument { required: object.required.contains("params"@), schema };
                    &&& model::resolution(nodes, schema) matches Ok(place)
                    &&& if nodes[place.0 as int] matches SNode::Rules(inner) && inner.object is Some {
                        m.arguments == Arguments::Mapping(argument)
                    } else {
                        m.arguments == Arguments::Value(argument)
                    }
                },
            }
        },
{
}

/// Whether the schema accepts the string, and nothing else is named.
pub open spec fn accepts_only(nodes: Seq<SNode>, id: SchemaId, name: Seq<char>) -> bool {
    &&& model::resolution(nodes, id) matches Ok(at)
    &&& nodes[at.0 as int] matches SNode::Rules(rules)
    &&& rules.values matches Some(values)
    &&& values.len() == 1
    &&& values[0].shape == JShape::Str(name)
}

/// A request whose properties are read has a method exactly where its property
/// `method` accepts one string, it accepts objects, and what its `params` refer to
/// can be found.
pub proof fn law_request_has_a_method(nodes: Seq<SNode>, request: SchemaId, at: SchemaId, rules: model::SRules)
    requires
        model::resolution(nodes, request) == Ok::<SchemaId, Seq<char>>(at),
        nodes[at.0 as int] == SNode::Rules(rules),
    ensures
        method_of(nodes, request) is Ok <==> {
            &&& rules.types matches Some(types) ==> types.contains(JsonType::Object)
            &&& rules.object matches Some(object)
            &&& property_of(object.properties, "method"@) matches Some(property)
            &&& exists|name: Seq<char>| #[trigger] accepts_only(nodes, property, name)
            &&& property_of(object.properties, "params"@) matches Some(schema) ==> model::resolution(nodes, schema) is Ok
        },
{
    if let Some(object) = rules.object {
        if let Some(property) = property_of(object.properties, "method"@) {
            if let Ok(name) = only_string(nodes, property, "ClientRequest method"@) {
                assert(accepts_only(nodes, property, name));
            }
        }
    }
}

/// What is found under the name of a property is the schema of one of that name, and
/// nothing is found exactly where no property has it.
pub proof fn law_property_is_found_by_name(properties: Seq<(Seq<char>, SchemaId)>, name: Seq<char>)
    ensures
        match property_of(properties, name) {
            Some(id) => properties.contains((name, id)),
            None => forall|i: int| 0 <= i < properties.len() ==> (#[trigger] properties[i]).0 != name,
        },
    decreases properties.len(),
{
    if properties.len() > 0 {
        let rest = properties.skip(1);
        law_property_is_found_by_name(rest, name);
        assert forall|i: int| 0 < i < properties.len() implies #[trigger] properties[i] == rest[i - 1] by {}
        if properties[0].0 == name {
            assert(properties[0] == (name, properties[0].1));
        } else if let Some(id) = property_of(rest, name) {
            let k = choose|k: int| 0 <= k < rest.len() && rest[k] == (name, id);
            assert(properties[k + 1] == (name, id));
        }
    }
}

/// Every variant of a request adds its method and keeps those of the others; a
/// variant whose method is there already is refused.
pub proof fn law_every_variant_adds_its_method(
    references: Seq<Seq<char>>,
    variants: Seq<JView>,
    variant: JView,
    nodes: Seq<SNode>,
)
    ensures
        methods_of(references, variants.push(variant), nodes) matches Ok((methods, all)) ==> {
            &&& methods_of(references, variants, nodes) matches Ok((before, more))
            &&& parse::schema_of(references, variant, more) matches Ok((request, read))
            &&& read == all
            &&& method_of(all, request) matches Ok(m)
            &&& methods.contains(m)
            &&& methods.len() == before.len() + 1
            &&& forall|x: SMethod| before.contains(x) ==> #[trigger] methods.contains(x)
            &&& forall|i: int| 0 <= i < before.len() ==> (#[trigger] before[i]).name != m.name
        },
{
    let whole = variants.push(variant);
    assert(whole.drop_last() =~= variants);
    law_methods_are_ordered(references, variants, nodes);
    if let Ok((before, more)) = methods_of(references, variants, nodes) {
        if let Ok((request, all)) = parse::schema_of(references, variant, more) {
            if let Ok(m) = method_of(all, request) {
                if !has_method(before, m.name) {
                    lemma_insert_method(before, m);
                }
            }
        }
    }
}

fn insert(methods: &mut Vec<Method>, m: Method)
    ensures
        method_views(final(methods)@) == insert_method(method_views(old(methods)@), m@),
{
    let mut i: usize = methods.len();
    let ghost all = method_views(methods@);
    let ghost mut tail = Seq::<SMethod>::empty();
    proof {
        assert(all.take(all.len() as int) =~= all);
        assert(all.skip(i as int) =~= tail);
        assert(insert_method(all, m@) =~= insert_method(all.take(i as int), m@) + tail);
    }
    while i > 0 && text::str_before(m.name.as_str(), methods[i - 1].name.as_str())
        invariant
            i <= methods@.len(),
            methods@ == old(methods)@,
            all == method_views(methods@),
            tail == all.skip(i as int),
            insert_method(all, m@) == insert_method(all.take(i as int), m@) + tail,
        decreases i,
    {
        proof {
            let part = all.take(i as int);
            assert(part.last() == all[i - 1]);
            assert(part.drop_last() =~= all.take(i - 1));
            assert(insert_method(part, m@) == insert_method(all.take(i - 1), m@).push(part.last()));
            tail = all.skip(i - 1);
            assert(insert_method(all.take(i - 1), m@).push(part.last()) + all.skip(i as int) =~= insert_method(
                all.take(i - 1),
                m@,
            ) + tail);
        }
        i = i - 1;
    }
    proof {
        let part = all.take(i as int);
        if i > 0 {
            assert(part.last() == all[i - 1]);
        }
        assert(insert_method(part, m@) == part.push(m@));
    }
    let ghost said = m@;
    methods.insert(i, m);
    proof {
        assert(method_views(methods@) =~= all.take(i as int).push(said) + all.skip(i as int));
    }
}

fn contains_method(methods: &Vec<Method>, name: &str) -> (r: bool)
    ensures
        r == has_method(method_views(methods@), name@),
{
    let mut i: usize = 0;
    let ghost all = method_views(methods@);
    while i < methods.len()
        invariant
            i <= methods@.len(),
            all == method_views(methods@),
            forall|k: int| 0 <= k < i ==> (#[trigger] all[k]).name != name@,
        decreases methods@.len() - i,
    {
        assert(all[i as int].name == methods@[i as int].name@);
        if text::str_eq(methods[i].name.as_str(), name) {
            return true;
        }
        i = i + 1;
    }
    false
}

proof fn lemma_methods_error_stays(references: Seq<Seq<char>>, variants: Seq<JView>, nodes: Seq<SNode>, n: int)
    requires
        0 <= n <= variants.len(),
        methods_of(references, variants.take(n), nodes) is Err,
    ensures
        methods_of(references, variants, nodes) == methods_of(references, variants.take(n), nodes),
    decreases variants.len(),
{
    if n < variants.len() {
        assert(variants.drop_last().take(n) =~= variants.take(n));
        lemma_methods_error_stays(references, variants.drop_last(), nodes, n);
    } else {
        assert(variants.take(n) =~= variants);
    }
}

impl Method {
    /// The methods that the variants of a request call, in order of their names.
    pub fn parse_all(parser: &mut Parser, variants: &Vec<Json>) -> (r: Result<Vec<Method>, String>)
        requires
            model::nodes_wf(old(parser).nodes@),
        ensures
            model::nodes_wf(final(parser).nodes@),
            match r {
                Ok(methods) => methods_of(
                    parse::known(*old(parser)),
                    json::jviews(variants@),
                    parse::read_nodes(*old(parser)),
                ) == Ok::<(Seq<SMethod>, Seq<SNode>), Seq<char>>(
                    (method_views(methods@), parse::read_nodes(*final(parser))),
                ),
                Err(e) => methods_of(
                    parse::known(*old(parser)),
                    json::jviews(variants@),
                    parse::read_nodes(*old(parser)),
                ) == Err::<(Seq<SMethod>, Seq<SNode>), Seq<char>>(e@),
            },
    {
        let ghost all = json::jviews(variants@);
        let ghost refs = parse::known(*parser);
        let ghost start = parse::read_nodes(*parser);
        let mut methods: Vec<Method> = Vec::new();
        let mut i: usize = 0;
        proof {
            json::lemma_jviews(variants@);
            assert(all.take(0) =~= Seq::empty());
            assert(method_views(methods@) =~= Seq::empty());
        }
        while i < variants.len()
            invariant
                i <= variants@.len(),
                all == json::jviews(variants@),
                all.len() == variants@.len(),
                forall|k: int| 0 <= k < variants@.len() ==> #[trigger] all[k] == json::jview(variants@[k]),
                parser.references@ == old(parser).references@,
                model::nodes_wf(parser.nodes@),
                refs == parse::known(*old(parser)),
                start == parse::read_nodes(*old(parser)),
                methods_of(refs, all.take(i as int), start) == Ok::<(Seq<SMethod>, Seq<SNode>), Seq<char>>(
                    (method_views(methods@), parse::read_nodes(*parser)),
                ),
            decreases variants@.len() - i,
        {
            proof {
                assert(all.take(i + 1).drop_last() =~= all.take(i as int));
                assert(all.take(i + 1).last() == all[i as int]);
            }
            let request = match parser.parse_schema(&variants[i]) {
                Ok(request) => request,
                Err(e) => {
                    proof {
                        lemma_methods_error_stays(refs, all, start, i + 1);
                    }
                    return Err(e);
                },
            };
            let m = match parse_method(&parser.nodes, request) {
                Ok(m) => m,
                Err(e) => {
                    proof {
                        lemma_methods_error_stays(refs, all, start, i + 1);
                    }
                    return Err(e);
                },
            };
            if contains_method(&methods, m.name.as_str()) {
                proof {
                    lemma_methods_error_stays(refs, all, start, i + 1);
                }
                return Err(labelled("ClientRequest contains duplicate method ", m.name.as_str()));
            }
            insert(&mut methods, m);
            i = i + 1;
        }
        assert(all.take(all.len() as int) =~= all);
        Ok(methods)
    }
}

} // verus!
