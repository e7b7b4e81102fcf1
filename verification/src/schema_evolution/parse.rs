//! How the nodes of a schema are read out of JSON.

use vstd::prelude::*;

use crate::json;
use crate::json::JField;
use crate::json::JShape;
use crate::json::JView;
use crate::json::Json;
use crate::json::JsonField;
use crate::json::JsonShape;
use crate::schema_evolution::model;
use crate::schema_evolution::model::AdditionalProperties;
use crate::schema_evolution::model::ObjectSchema;
use crate::schema_evolution::model::Property;
use crate::schema_evolution::model::SNode;
use crate::schema_evolution::model::SObject;
use crate::schema_evolution::model::SRules;
use crate::schema_evolution::model::SchemaId;
use crate::schema_evolution::model::SchemaNode;
use crate::schema_evolution::model::SchemaRules;
use crate::schema_evolution::value;
use crate::schema_evolution::value::JsonType;
use crate::schema_evolution::value::TypeSet;
use crate::schema_evolution::value::ValueSet;
use crate::text;

verus! {

// ---------------------------------------------------------------------
// What is read
// ---------------------------------------------------------------------

/// Whether the keyword tells readers something and constrains nothing.
pub open spec fn is_annotation(keyword: Seq<char>) -> bool {
    ||| keyword == "$comment"@
    ||| keyword == "$id"@
    ||| keyword == "$schema"@
    ||| keyword == "default"@
    ||| keyword == "deprecated"@
    ||| keyword == "description"@
    ||| keyword == "examples"@
    ||| keyword == "readOnly"@
    ||| keyword == "title"@
    ||| keyword == "writeOnly"@
}

/// Whether nothing but annotations stands beside the `allOf`.
pub open spec fn only_all_of(fields: Seq<JField>) -> bool {
    forall|i: int| 0 <= i < fields.len() ==> (#[trigger] fields[i]).name == "allOf"@ || is_annotation(fields[i].name)
}

/// The schema that an `allOf` of one branch stands for.
pub open spec fn alias_of(fields: Seq<JField>) -> Result<Option<JView>, Seq<char>> {
    match json::field_of(fields, "allOf"@) {
        None => Ok(None),
        Some(branches) => match branches.shape {
            JShape::Array(items) => if items.len() == 1 && only_all_of(fields) {
                Ok(Some(items[0]))
            } else {
                Ok(None)
            },
            _ => Err("JSON Schema allOf must be an array"@),
        },
    }
}

/// Where the first of the names stands that is the given one.
pub open spec fn place_of(names: Seq<Seq<char>>, name: Seq<char>) -> Option<int>
    decreases names.len(),
{
    if names.len() == 0 {
        None
    } else if names[0] == name {
        Some(0)
    } else {
        match place_of(names.skip(1), name) {
            Some(i) => Some(i + 1),
            None => None,
        }
    }
}

/// The node that a reference is.
pub open spec fn reference_node(references: Seq<Seq<char>>, reference: JView) -> Result<SNode, Seq<char>> {
    match reference.shape {
        JShape::Str(name) => match place_of(references, name) {
            Some(i) => Ok(SNode::Reference(SchemaId(i as usize))),
            None => Err("unsupported or missing JSON Schema reference "@ + name),
        },
        _ => Err("JSON Schema $ref must be a string"@),
    }
}

/// The names in an array of strings.
pub open spec fn names_in(items: Seq<JView>, keyword: Seq<char>) -> Result<Set<Seq<char>>, Seq<char>>
    decreases items.len(),
{
    if items.len() == 0 {
        Ok(Set::empty())
    } else {
        match names_in(items.drop_last(), keyword) {
            Err(e) => Err(e),
            Ok(before) => match items.last().shape {
                JShape::Str(name) => Ok(before.insert(name)),
                _ => Err("JSON Schema "@ + keyword + " values must be strings"@),
            },
        }
    }
}

/// The names that a keyword lists; none where it does not stand.
pub open spec fn listed_names(listed: Option<JView>, keyword: Seq<char>) -> Result<Set<Seq<char>>, Seq<char>> {
    match listed {
        None => Ok(Set::empty()),
        Some(v) => match v.shape {
            JShape::Array(items) => names_in(items, keyword),
            _ => Err("JSON Schema "@ + keyword + " must be an array"@),
        },
    }
}

/// Whether the fields hold a rule for objects.
pub open spec fn speaks_of_objects(fields: Seq<JField>, types: Option<Set<JsonType>>) -> bool {
    ||| json::field_of(fields, "properties"@) is Some
    ||| json::field_of(fields, "required"@) is Some
    ||| json::field_of(fields, "additionalProperties"@) is Some
    ||| types matches Some(declared) && declared.contains(JsonType::Object)
}

/// The node that a schema is, and the nodes with those that stand in it.
pub open spec fn node_of(references: Seq<Seq<char>>, v: JView, nodes: Seq<SNode>) -> Result<
    (SNode, Seq<SNode>),
    Seq<char>,
>
    decreases v, 0int,
{
    match v.shape {
        JShape::Bool(b) => Ok(
            (if b {
                SNode::Any
            } else {
                SNode::Never
            }, nodes),
        ),
        JShape::Object(fields) => {
            proof {
                json::lemma_field_is_part(fields, "allOf"@);
            }
            match json::field_of(fields, "$ref"@) {
                Some(reference) => match reference_node(references, reference) {
                    Ok(node) => Ok((node, nodes)),
                    Err(e) => Err(e),
                },
                None => match alias_of(fields) {
                    Err(e) => Err(e),
                    Ok(Some(alias)) => match schema_of(references, alias, nodes) {
                        Ok((id, more)) => Ok((SNode::Reference(id), more)),
                        Err(e) => Err(e),
                    },
                    Ok(None) => if json::field_of(fields, "allOf"@) is Some {
                        Err("only single-branch JSON Schema allOf aliases are supported"@)
                    } else {
                        match value::types_of(json::field_of(fields, "type"@)) {
                            Err(e) => Err(e),
                            Ok(types) => match value::values_of(fields) {
                                Err(e) => Err(e),
                                Ok(values) => match object_of(references, fields, types, nodes) {
                                    Err(e) => Err(e),
                                    Ok((object, more)) => Ok((SNode::Rules(SRules { types, values, object }), more)),
                                },
                            },
                        }
                    },
                },
            }
        },
        _ => Err("JSON Schema must be a boolean or object"@),
    }
}

/// The place of the node that a schema is, behind those that stand in it.
pub open spec fn schema_of(references: Seq<Seq<char>>, v: JView, nodes: Seq<SNode>) -> Result<
    (SchemaId, Seq<SNode>),
    Seq<char>,
>
    decreases v, 1int,
{
    match node_of(references, v, nodes) {
        Ok((node, more)) => Ok((SchemaId(more.len() as usize), more.push(node))),
        Err(e) => Err(e),
    }
}

/// The properties that the entries declare, in the order of their names.
pub open spec fn properties_of(references: Seq<Seq<char>>, entries: Seq<JField>, nodes: Seq<SNode>) -> Result<
    (Seq<(Seq<char>, SchemaId)>, Seq<SNode>),
    Seq<char>,
>
    decreases entries, 0int,
{
    if entries.len() == 0 {
        Ok((Seq::empty(), nodes))
    } else {
        match properties_of(references, entries.drop_last(), nodes) {
            Err(e) => Err(e),
            Ok((before, more)) => match schema_of(references, entries.last().value, more) {
                Err(e) => Err(e),
                Ok((id, all)) => Ok((model::with_property(before, entries.last().name, id), all)),
            },
        }
    }
}

/// The rule for properties that no other rule names.
pub open spec fn additional_of(references: Seq<Seq<char>>, fields: Seq<JField>, nodes: Seq<SNode>) -> Result<
    (AdditionalProperties, Seq<SNode>),
    Seq<char>,
>
    decreases fields, 0int,
{
    proof {
        json::lemma_field_is_part(fields, "additionalProperties"@);
    }
    match json::field_of(fields, "additionalProperties"@) {
        None => Ok((AdditionalProperties::Any, nodes)),
        Some(v) => match v.shape {
            JShape::Bool(b) => Ok(
                (if b {
                    AdditionalProperties::Any
                } else {
                    AdditionalProperties::Forbidden
                }, nodes),
            ),
            JShape::Object(_) => match schema_of(references, v, nodes) {
                Ok((id, more)) => Ok((AdditionalProperties::Schema(id), more)),
                Err(e) => Err(e),
            },
            _ => Err("JSON Schema additionalProperties must be a boolean or object"@),
        },
    }
}

/// The rules for objects that the fields hold.
pub open spec fn object_of(
    references: Seq<Seq<char>>,
    fields: Seq<JField>,
    types: Option<Set<JsonType>>,
    nodes: Seq<SNode>,
) -> Result<(Option<SObject>, Seq<SNode>), Seq<char>>
    decreases fields, 1int,
{
    proof {
        json::lemma_field_is_part(fields, "properties"@);
    }
    let entries = match json::field_of(fields, "properties"@) {
        None => Ok::<Seq<JField>, Seq<char>>(Seq::empty()),
        Some(v) => match v.shape {
            JShape::Object(entries) => Ok(entries),
            _ => Err("JSON Schema properties must be an object"@),
        },
    };
    match entries {
        Err(e) => Err(e),
        Ok(entries) => match listed_names(json::field_of(fields, "required"@), "required"@) {
            Err(e) => Err(e),
            Ok(required) => if !speaks_of_objects(fields, types) {
                Ok((None, nodes))
            } else {
                match json::field_of(fields, "properties"@) {
                    Some(_) => match properties_of(references, entries, nodes) {
                        Err(e) => Err(e),
                        Ok((properties, more)) => match additional_of(references, fields, more) {
                            Err(e) => Err(e),
                            Ok((additional_properties, all)) => Ok(
                                (Some(SObject { properties, required, additional_properties }), all),
                            ),
                        },
                    },
                    None => match additional_of(references, fields, nodes) {
                        Err(e) => Err(e),
                        Ok((additional_properties, all)) => Ok(
                            (Some(SObject { properties: Seq::empty(), required, additional_properties }), all),
                        ),
                    },
                }
            },
        },
    }
}

/// The schema `true` accepts every value and `false` none; other values that are no
/// object are no schema.
pub proof fn law_plain_schemas(references: Seq<Seq<char>>, v: JView, nodes: Seq<SNode>)
    ensures
        v.shape == JShape::Bool(true) ==> node_of(references, v, nodes) == Ok::<(SNode, Seq<SNode>), Seq<char>>(
            (SNode::Any, nodes),
        ),
        v.shape == JShape::Bool(false) ==> node_of(references, v, nodes) == Ok::<(SNode, Seq<SNode>), Seq<char>>(
            (SNode::Never, nodes),
        ),
        !(v.shape is Bool) && !(v.shape is Object) ==> node_of(references, v, nodes) is Err,
{
}

/// A schema with a `$ref` is the definition that is known under that reference,
/// whatever else it holds, and there is none where no definition is.
pub proof fn law_reference_names_its_definition(
    references: Seq<Seq<char>>,
    fields: Seq<JField>,
    text: Seq<char>,
    reference: JView,
    nodes: Seq<SNode>,
)
    requires
        json::field_of(fields, "$ref"@) == Some(reference),
        references.len() <= usize::MAX,
    ensures
        ({
            let read = node_of(references, JView { text, shape: JShape::Object(fields) }, nodes);
            match reference.shape {
                JShape::Str(name) => {
                    &&& read is Ok <==> references.contains(name)
                    &&& read matches Ok((node, more)) ==> more == nodes && (node matches SNode::Reference(id) && id.0
                        < references.len() && references[id.0 as int] == name && forall|j: int|
                        0 <= j < id.0 ==> #[trigger] references[j] != name)
                },
                _ => read is Err,
            }
        }),
{
    if let JShape::Str(name) = reference.shape {
        lemma_place(references, name);
    }
}

proof fn lemma_place(names: Seq<Seq<char>>, name: Seq<char>)
    ensures
        match place_of(names, name) {
            Some(i) => 0 <= i < names.len() && names[i] == name && forall|j: int|
                0 <= j < i ==> #[trigger] names[j] != name,
            None => !names.contains(name),
        },
    decreases names.len(),
{
    if names.len() > 0 && names[0] != name {
        let rest = names.skip(1);
        lemma_place(rest, name);
        assert forall|j: int| 0 < j < names.len() implies #[trigger] names[j] == rest[j - 1] by {}
        if place_of(rest, name) is None && names.contains(name) {
            let k = choose|k: int| 0 <= k < names.len() && names[k] == name;
            assert(rest[k - 1] == name);
        }
    }
}

/// A schema that holds one branch under `allOf`, and beside it nothing that
/// constrains, is that branch. Any other `allOf` is refused.
pub proof fn law_single_branch_is_an_alias(
    references: Seq<Seq<char>>,
    fields: Seq<JField>,
    text: Seq<char>,
    branches: JView,
    nodes: Seq<SNode>,
)
    requires
        json::field_of(fields, "$ref"@) is None,
        json::field_of(fields, "allOf"@) == Some(branches),
    ensures
        ({
            let read = node_of(references, JView { text, shape: JShape::Object(fields) }, nodes);
            let alone = forall|i: int|
                0 <= i < fields.len() ==> {
                    let name = (#[trigger] fields[i]).name;
                    name == "allOf"@ || name == "$comment"@ || name == "$id"@ || name == "$schema"@ || name == "default"@
                        || name == "deprecated"@ || name == "description"@ || name == "examples"@ || name == "readOnly"@
                        || name == "title"@ || name == "writeOnly"@
                };
            &&& !(branches.shape is Array) || branches.shape->Array_0.len() != 1 || !alone ==> read is Err
            &&& branches.shape matches JShape::Array(items) ==> items.len() == 1 && alone ==> (match schema_of(
                references,
                items[0],
                nodes,
            ) {
                Ok((id, more)) => read == Ok::<(SNode, Seq<SNode>), Seq<char>>((SNode::Reference(id), more)),
                Err(e) => read == Err::<(SNode, Seq<SNode>), Seq<char>>(e),
            })
        }),
{
    reveal_with_fuel(node_of, 2);
    reveal_with_fuel(schema_of, 2);
    let alone = forall|i: int|
        0 <= i < fields.len() ==> {
            let name = (#[trigger] fields[i]).name;
            name == "allOf"@ || name == "$comment"@ || name == "$id"@ || name == "$schema"@ || name == "default"@
                || name == "deprecated"@ || name == "description"@ || name == "examples"@ || name == "readOnly"@ || name
                == "title"@ || name == "writeOnly"@
        };
    assert(alone == only_all_of(fields));
}

/// Which properties an object may have beside those that are named: none exactly
/// where `additionalProperties` is `false`, any exactly where it is `true` or is not
/// there, and otherwise those that meet the schema that it is, which is read last.
pub proof fn law_further_properties(
    references: Seq<Seq<char>>,
    fields: Seq<JField>,
    types: Option<Set<JsonType>>,
    nodes: Seq<SNode>,
)
    ensures
        object_of(references, fields, types, nodes) matches Ok((Some(rules), more)) ==> {
            let keyword = json::field_of(fields, "additionalProperties"@);
            &&& rules.additional_properties is Forbidden <==> (keyword matches Some(v) && v.shape == JShape::Bool(false))
            &&& rules.additional_properties is Any <==> (keyword is None || (keyword matches Some(v) && v.shape
                == JShape::Bool(true)))
            &&& rules.additional_properties is Schema <==> (keyword matches Some(v) && v.shape is Object)
            &&& rules.additional_properties matches AdditionalProperties::Schema(id) ==> more.len() <= usize::MAX
                ==> id.0 == more.len() - 1
        },
        json::field_of(fields, "additionalProperties"@) matches Some(v) && !(v.shape is Bool) && !(v.shape is Object)
            ==> object_of(references, fields, types, nodes) is Err,
{
}

/// To say that further properties are allowed is to say nothing: rules for objects
/// without `additionalProperties` are those with `additionalProperties` as `true`.
pub proof fn law_further_properties_are_allowed_by_default(
    references: Seq<Seq<char>>,
    fields: Seq<JField>,
    types: Option<Set<JsonType>>,
    nodes: Seq<SNode>,
    yes: JView,
)
    requires
        json::field_of(fields, "additionalProperties"@) is None,
        json::field_of(fields, "properties"@) is Some || json::field_of(fields, "required"@) is Some || (types matches Some(
            declared,
        ) && declared.contains(JsonType::Object)),
        yes.shape == JShape::Bool(true),
    ensures
        object_of(
            references,
            fields.push(JField { name: "additionalProperties"@, value: yes }),
            types,
            nodes,
        ) == object_of(references, fields, types, nodes),
{
    let more = JField { name: "additionalProperties"@, value: yes };
    reveal_strlit("additionalProperties");
    reveal_strlit("properties");
    reveal_strlit("required");
    assert("additionalProperties"@.len() == 20);
    assert("properties"@.len() == 10);
    assert("required"@.len() == 8);
    json::law_field_is_the_first_of_its_name(fields, "additionalProperties"@, more);
    json::law_field_is_the_first_of_its_name(fields, "properties"@, more);
    json::law_field_is_the_first_of_its_name(fields, "required"@, more);
}

/// There are rules for objects exactly where a keyword for objects stands or the
/// type `object` is declared.
pub proof fn law_object_rules_are_there(
    references: Seq<Seq<char>>,
    fields: Seq<JField>,
    types: Option<Set<JsonType>>,
    nodes: Seq<SNode>,
)
    ensures
        object_of(references, fields, types, nodes) matches Ok((rules, more)) ==> {
            &&& rules is Some <==> json::field_of(fields, "properties"@) is Some || json::field_of(
                fields,
                "required"@,
            ) is Some || json::field_of(fields, "additionalProperties"@) is Some || (types matches Some(declared)
                && declared.contains(JsonType::Object))
            &&& rules is None ==> more == nodes
        },
{
}

/// The names that are required are exactly the strings in the array under
/// `required`; none are where the keyword does not stand.
pub proof fn law_required_names(
    references: Seq<Seq<char>>,
    fields: Seq<JField>,
    types: Option<Set<JsonType>>,
    nodes: Seq<SNode>,
    name: Seq<char>,
)
    ensures
        object_of(references, fields, types, nodes) matches Ok((Some(rules), _)) ==> (rules.required.contains(name) <==> (
        json::field_of(fields, "required"@) matches Some(v) && v.shape matches JShape::Array(items) && exists|i: int|
            0 <= i < items.len() && (#[trigger] items[i]).shape == JShape::Str(name))),
        json::field_of(fields, "required"@) matches Some(v) && !(v.shape is Array) ==> object_of(
            references,
            fields,
            types,
            nodes,
        ) is Err,
{
    if let Some(v) = json::field_of(fields, "required"@) {
        if let JShape::Array(items) = v.shape {
            lemma_names_in(items, "required"@, name);
        }
    }
}

proof fn lemma_names_in(items: Seq<JView>, keyword: Seq<char>, name: Seq<char>)
    ensures
        names_in(items, keyword) matches Ok(names) ==> {
            &&& names.contains(name) <==> exists|i: int|
                0 <= i < items.len() && (#[trigger] items[i]).shape == JShape::Str(name)
            &&& forall|i: int| 0 <= i < items.len() ==> (#[trigger] items[i]).shape is Str
        },
    decreases items.len(),
{
    if items.len() > 0 {
        let front = items.drop_last();
        lemma_names_in(front, keyword, name);
        if let Ok(names) = names_in(items, keyword) {
            let n = items.len() - 1;
            assert(items[n] == items.last());
            assert forall|i: int| 0 <= i < items.len() implies (#[trigger] items[i]).shape is Str by {
                if i < n {
                    assert(front[i] == items[i]);
                }
            }
            if names.contains(name) {
                if names_in(front, keyword)->Ok_0.contains(name) {
                    let i = choose|i: int| 0 <= i < front.len() && (#[trigger] front[i]).shape == JShape::Str(name);
                    assert(items[i].shape == JShape::Str(name));
                } else {
                    assert(items[n].shape == JShape::Str(name));
                }
            }
            if exists|i: int| 0 <= i < items.len() && (#[trigger] items[i]).shape == JShape::Str(name) {
                let i = choose|i: int| 0 <= i < items.len() && (#[trigger] items[i]).shape == JShape::Str(name);
                if i < n {
                    assert(front[i].shape == JShape::Str(name));
                }
            }
        }
    }
}

/// The rules of an object name exactly the properties that it declares.
pub proof fn law_declared_properties(
    references: Seq<Seq<char>>,
    fields: Seq<JField>,
    types: Option<Set<JsonType>>,
    nodes: Seq<SNode>,
    name: Seq<char>,
)
    ensures
        object_of(references, fields, types, nodes) matches Ok((Some(rules), _)) ==> (has_property(
            rules.properties,
            name,
        ) <==> (json::field_of(fields, "properties"@) matches Some(v) && v.shape matches JShape::Object(entries)
            && has_entry(entries, name))),
        json::field_of(fields, "properties"@) matches Some(v) && !(v.shape is Object) ==> object_of(
            references,
            fields,
            types,
            nodes,
        ) is Err,
{
    if let Some(v) = json::field_of(fields, "properties"@) {
        if let JShape::Object(entries) = v.shape {
            if properties_of(references, entries, nodes) is Ok {
                lemma_property_names(references, entries, nodes, name);
            }
        }
    }
}

/// Whether a property has the name.
pub open spec fn has_property(properties: Seq<(Seq<char>, SchemaId)>, name: Seq<char>) -> bool {
    exists|i: int| 0 <= i < properties.len() && (#[trigger] properties[i]).0 == name
}

/// Whether an entry has the name.
pub open spec fn has_entry(entries: Seq<JField>, name: Seq<char>) -> bool {
    exists|i: int| 0 <= i < entries.len() && (#[trigger] entries[i]).name == name
}

proof fn lemma_property_names(references: Seq<Seq<char>>, entries: Seq<JField>, nodes: Seq<SNode>, name: Seq<char>)
    requires
        properties_of(references, entries, nodes) is Ok,
    ensures
        has_property(properties_of(references, entries, nodes)->Ok_0.0, name) == has_entry(entries, name),
    decreases entries.len(),
{
    reveal_with_fuel(properties_of, 2);
    if entries.len() > 0 {
        let front = entries.drop_last();
        let n = entries.len() - 1;
        lemma_property_names(references, front, nodes, name);
        let (before, more) = properties_of(references, front, nodes)->Ok_0;
        let (id, all) = schema_of(references, entries.last().value, more)->Ok_0;
        model::lemma_with_property_names(before, entries.last().name, id, name);
        assert(entries[n] == entries.last());
        if has_entry(front, name) {
            let i = choose|i: int| 0 <= i < front.len() && (#[trigger] front[i]).name == name;
            assert(entries[i].name == name);
        }
        if has_entry(entries, name) {
            let i = choose|i: int| 0 <= i < entries.len() && (#[trigger] entries[i]).name == name;
            if i < n {
                assert(front[i].name == name);
            }
        }
    }
}

/// A property stands for the node that its schema is: reading one more entry puts
/// the node of its schema behind all others, and its place under the entry's name.
pub proof fn law_property_stands_for_its_schema(
    references: Seq<Seq<char>>,
    entries: Seq<JField>,
    entry: JField,
    nodes: Seq<SNode>,
)
    ensures
        properties_of(references, entries.push(entry), nodes) matches Ok((properties, all)) ==> all.len() <= usize::MAX
            ==> {
            &&& properties_of(references, entries, nodes) is Ok
            &&& node_of(references, entry.value, properties_of(references, entries, nodes)->Ok_0.1) == Ok::<
                (SNode, Seq<SNode>),
                Seq<char>,
            >((all.last(), all.drop_last()))
            &&& properties.contains((entry.name, SchemaId((all.len() - 1) as usize)))
        },
        properties_of(references, Seq::empty(), nodes) == Ok::<(Seq<(Seq<char>, SchemaId)>, Seq<SNode>), Seq<char>>(
            (Seq::empty(), nodes),
        ),
{
    reveal_with_fuel(properties_of, 2);
    reveal_with_fuel(schema_of, 2);
    let whole = entries.push(entry);
    assert(whole.drop_last() =~= entries);
    if let Ok((before, more)) = properties_of(references, entries, nodes) {
        if let Ok((node, all)) = node_of(references, entry.value, more) {
            assert(all.push(node).drop_last() =~= all);
            model::lemma_with_property_names(before, entry.name, SchemaId(all.len() as usize), entry.name);
        }
    }
}

/// A schema is read into the node behind all that stand in it, and its rules are the
/// types under `type`, the values under `enum` and `const`, and the rules for
/// objects.
pub proof fn law_schema_is_its_rules(
    references: Seq<Seq<char>>,
    fields: Seq<JField>,
    text: Seq<char>,
    nodes: Seq<SNode>,
)
    requires
        json::field_of(fields, "$ref"@) is None,
        json::field_of(fields, "allOf"@) is None,
    ensures
        ({
            let v = JView { text, shape: JShape::Object(fields) };
            match schema_of(references, v, nodes) {
                Ok((id, all)) => {
                    &&& all.len() > 0
                    &&& all.len() <= usize::MAX ==> id.0 == all.len() - 1
                    &&& all.last() matches SNode::Rules(rules)
                    &&& value::types_of(json::field_of(fields, "type"@)) == Ok::<Option<Set<JsonType>>, Seq<char>>(
                        rules.types,
                    )
                    &&& value::values_of(fields) == Ok::<Option<Seq<JView>>, Seq<char>>(rules.values)
                    &&& object_of(references, fields, rules.types, nodes) == Ok::<(Option<SObject>, Seq<SNode>), Seq<char>>(
                        (rules.object, all.drop_last()),
                    )
                },
                Err(e) => value::types_of(json::field_of(fields, "type"@)) is Err || value::values_of(fields) is Err
                    || object_of(references, fields, value::types_of(json::field_of(fields, "type"@))->Ok_0, nodes) is Err,
            }
        }),
{
    reveal_with_fuel(node_of, 2);
    reveal_with_fuel(schema_of, 2);
    let v = JView { text, shape: JShape::Object(fields) };
    if let Ok((node, more)) = node_of(references, v, nodes) {
        assert(more.push(node).drop_last() =~= more);
    }
}

// ---------------------------------------------------------------------
// Reading
// ---------------------------------------------------------------------

fn annotation(keyword: &str) -> (r: bool)
    ensures
        r == is_annotation(keyword@),
{
    text::str_eq(keyword, "$comment") || text::str_eq(keyword, "$id") || text::str_eq(keyword, "$schema")
        || text::str_eq(keyword, "default") || text::str_eq(keyword, "deprecated") || text::str_eq(
        keyword,
        "description",
    ) || text::str_eq(keyword, "examples") || text::str_eq(keyword, "readOnly") || text::str_eq(keyword, "title")
        || text::str_eq(keyword, "writeOnly")
}

fn single_all_of(object: &Vec<JsonField>) -> (r: Result<Option<&Json>, String>)
    ensures
        match r {
            Ok(alias) => alias_of(json::jfields(object@)) == Ok::<Option<JView>, Seq<char>>(value::opt_json(alias)),
            Err(e) => alias_of(json::jfields(object@)) == Err::<Option<JView>, Seq<char>>(e@),
        },
        r matches Ok(Some(alias)) ==> decreases_to!(object@ => *alias),
{
    let ghost all = json::jfields(object@);
    match json::get_field(object, "allOf") {
        None => Ok(None),
        Some(branches) => match &branches.shape {
            JsonShape::Array(items) => {
                proof {
                    json::lemma_jviews(items@);
                    json::lemma_jfields(object@);
                }
                if items.len() != 1 {
                    return Ok(None);
                }
                let mut i: usize = 0;
                while i < object.len()
                    invariant
                        i <= object@.len(),
                        all == json::jfields(object@),
                        all.len() == object@.len(),
                        alias_of(all) == (if only_all_of(all) {
                            Ok::<Option<JView>, Seq<char>>(Some(json::jviews(items@)[0]))
                        } else {
                            Ok(None)
                        }),
                        forall|k: int| 0 <= k < object@.len() ==> (#[trigger] all[k]).name == object@[k].name@,
                        forall|k: int|
                            0 <= k < i ==> (#[trigger] all[k]).name == "allOf"@ || is_annotation(all[k].name),
                    decreases object@.len() - i,
                {
                    if !text::str_eq(object[i].name.as_str(), "allOf") && !annotation(object[i].name.as_str()) {
                        assert(!(all[i as int].name == "allOf"@ || is_annotation(all[i as int].name)));
                        assert(!only_all_of(all));
                        return Ok(None);
                    }
                    i = i + 1;
                }
                proof {
                    let n = choose|n: int| 0 <= n < object@.len() && (#[trigger] object@[n]).value == *branches;
                    assert(decreases_to!(object@ => object@[n]));
                    assert(decreases_to!(object@[n] => object@[n].value));
                    assert(decreases_to!(*branches => branches.shape));
                    assert(decreases_to!(branches.shape => branches.shape->Array_0));
                    assert(decreases_to!(*items => items@));
                    assert(decreases_to!(items@ => items@[0]));
                }
                Ok(Some(&items[0]))
            },
            _ => Err("JSON Schema allOf must be an array".to_string()),
        },
    }
}

fn find_name(names: &Vec<String>, name: &str) -> (r: Option<usize>)
    ensures
        match r {
            Some(i) => place_of(text::views(names@), name@) == Some(i as int) && i < names@.len(),
            None => place_of(text::views(names@), name@) is None,
        },
{
    let ghost all = text::views(names@);
    let mut i: usize = 0;
    assert(all.skip(0) =~= all);
    while i < names.len()
        invariant
            i <= names@.len(),
            all == text::views(names@),
            match place_of(all.skip(i as int), name@) {
                Some(k) => place_of(all, name@) == Some(k + i),
                None => place_of(all, name@) is None,
            },
        decreases names@.len() - i,
    {
        assert(all.skip(i as int)[0] == names@[i as int]@);
        assert(all.skip(i as int).skip(1) =~= all.skip(i + 1));
        if text::str_eq(names[i].as_str(), name) {
            return Some(i);
        }
        i = i + 1;
    }
    None
}

proof fn lemma_names_error_stays(items: Seq<JView>, keyword: Seq<char>, n: int)
    requires
        0 <= n <= items.len(),
        names_in(items.take(n), keyword) is Err,
    ensures
        names_in(items, keyword) == names_in(items.take(n), keyword),
    decreases items.len(),
{
    if n < items.len() {
        assert(items.drop_last().take(n) =~= items.take(n));
        lemma_names_error_stays(items.drop_last(), keyword, n);
    } else {
        assert(items.take(n) =~= items);
    }
}

fn parse_string_set(value: Option<&Json>, keyword: &str) -> (r: Result<Vec<String>, String>)
    ensures
        match r {
            Ok(names) => listed_names(value::opt_json(value), keyword@) == Ok::<Set<Seq<char>>, Seq<char>>(
                model::name_set(names@),
            ) && model::names_ordered(text::views(names@)),
            Err(e) => listed_names(value::opt_json(value), keyword@) == Err::<Set<Seq<char>>, Seq<char>>(e@),
        },
{
    let mut names: Vec<String> = Vec::new();
    assert(model::name_set(names@) =~= Set::empty());
    match value {
        None => Ok(names),
        Some(v) => match &v.shape {
            JsonShape::Array(items) => {
                let ghost all = json::jviews(items@);
                proof {
                    json::lemma_jviews(items@);
                    assert(all.take(0) =~= Seq::empty());
                }
                let mut i: usize = 0;
                while i < items.len()
                    invariant
                        i <= items@.len(),
                        all == json::jviews(items@),
                        all.len() == items@.len(),
                        forall|k: int| 0 <= k < items@.len() ==> #[trigger] all[k] == json::jview(items@[k]),
                        value == Some(v),
                        v@.shape == JShape::Array(all),
                        model::names_ordered(text::views(names@)),
                        names_in(all.take(i as int), keyword@) == Ok::<Set<Seq<char>>, Seq<char>>(
                            model::name_set(names@),
                        ),
                    decreases items@.len() - i,
                {
                    proof {
                        assert(all.take(i + 1).drop_last() =~= all.take(i as int));
                        assert(all.take(i + 1).last() == json::jview(items@[i as int]));
                    }
                    match &items[i].shape {
                        JsonShape::Str(name) => {
                            model::insert_name(&mut names, name.clone());
                        },
                        _ => {
                            proof {
                                lemma_names_error_stays(all, keyword@, i + 1);
                            }
                            let mut message = "JSON Schema ".to_string();
                            message.push_str(keyword);
                            message.push_str(" values must be strings");
                            return Err(message);
                        },
                    }
                    i = i + 1;
                }
                assert(all.take(all.len() as int) =~= all);
                Ok(names)
            },
            _ => {
                let mut message = "JSON Schema ".to_string();
                message.push_str(keyword);
                message.push_str(" must be an array");
                Err(message)
            },
        },
    }
}

/// What is read of a schema so far: its nodes, and the references under which
/// the first of them are known.
pub struct Parser {
    pub nodes: Vec<SchemaNode>,
    pub references: Vec<String>,
}

/// What the parser has read.
pub open spec fn read_nodes(p: Parser) -> Seq<SNode> {
    model::node_views(p.nodes@)
}

/// The references that the parser knows.
pub open spec fn known(p: Parser) -> Seq<Seq<char>> {
    text::views(p.references@)
}

proof fn lemma_views_push(nodes: Seq<SchemaNode>, node: SchemaNode)
    ensures
        model::node_views(nodes.push(node)) == model::node_views(nodes).push(model::node_view(node)),
{
    assert(model::node_views(nodes.push(node)) =~= model::node_views(nodes).push(model::node_view(node)));
}

proof fn lemma_properties_error_stays(references: Seq<Seq<char>>, entries: Seq<JField>, nodes: Seq<SNode>, n: int)
    requires
        0 <= n <= entries.len(),
        properties_of(references, entries.take(n), nodes) is Err,
    ensures
        properties_of(references, entries, nodes) == properties_of(references, entries.take(n), nodes),
    decreases entries.len(),
{
    if n < entries.len() {
        assert(entries.drop_last().take(n) =~= entries.take(n));
        lemma_properties_error_stays(references, entries.drop_last(), nodes, n);
    } else {
        assert(entries.take(n) =~= entries);
    }
}

impl Parser {
    fn parse_reference(&self, value: &Json) -> (r: Result<SchemaNode, String>)
        ensures
            match r {
                Ok(node) => reference_node(known(*self), value@) == Ok::<SNode, Seq<char>>(model::node_view(node))
                    && model::node_wf(node),
                Err(e) => reference_node(known(*self), value@) == Err::<SNode, Seq<char>>(e@),
            },
    {
        match &value.shape {
            JsonShape::Str(name) => match find_name(&self.references, name.as_str()) {
                Some(i) => Ok(SchemaNode::Reference(SchemaId(i))),
                None => {
                    let mut message = "unsupported or missing JSON Schema reference ".to_string();
                    message.push_str(name.as_str());
                    Err(message)
                },
            },
            _ => Err("JSON Schema $ref must be a string".to_string()),
        }
    }

    /// Reads a schema into a node and adds it to the nodes.
    pub fn parse_schema(&mut self, value: &Json) -> (r: Result<SchemaId, String>)
        requires
            model::nodes_wf(old(self).nodes@),
        ensures
            final(self).references@ == old(self).references@,
            model::nodes_wf(final(self).nodes@),
            match r {
                Ok(id) => schema_of(known(*old(self)), value@, read_nodes(*old(self))) == Ok::<
                    (SchemaId, Seq<SNode>),
                    Seq<char>,
                >((id, read_nodes(*final(self)))),
                Err(e) => schema_of(known(*old(self)), value@, read_nodes(*old(self))) == Err::<
                    (SchemaId, Seq<SNode>),
                    Seq<char>,
                >(e@),
            },
        decreases *value, 1int,
    {
        match self.parse_node(value) {
            Ok(node) => {
                let id = SchemaId(self.nodes.len());
                proof {
                    lemma_views_push(self.nodes@, node);
                }
                self.nodes.push(node);
                Ok(id)
            },
            Err(e) => Err(e),
        }
    }

    /// Reads a schema into a node.
    pub fn parse_node(&mut self, value: &Json) -> (r: Result<SchemaNode, String>)
        requires
            model::nodes_wf(old(self).nodes@),
        ensures
            final(self).references@ == old(self).references@,
            model::nodes_wf(final(self).nodes@),
            match r {
                Ok(node) => node_of(known(*old(self)), value@, read_nodes(*old(self))) == Ok::<
                    (SNode, Seq<SNode>),
                    Seq<char>,
                >((model::node_view(node), read_nodes(*final(self)))) && model::node_wf(node),
                Err(e) => node_of(known(*old(self)), value@, read_nodes(*old(self))) == Err::<
                    (SNode, Seq<SNode>),
                    Seq<char>,
                >(e@),
            },
        decreases *value, 0int,
    {
        match &value.shape {
            JsonShape::Bool(b) => if *b {
                Ok(SchemaNode::Any)
            } else {
                Ok(SchemaNode::Never)
            },
            JsonShape::Object(object) => {
                proof {
                    assert(decreases_to!(*value => value.shape));
                    assert(decreases_to!(value.shape => value.shape->Object_0));
                    assert(decreases_to!(*object => object@));
                }
                if let Some(reference) = json::get_field(object, "$ref") {
                    return self.parse_reference(reference);
                }
                match single_all_of(object) {
                    Err(e) => {
                        return Err(e);
                    },
                    Ok(Some(alias)) => {
                        return match self.parse_schema(alias) {
                            Ok(id) => Ok(SchemaNode::Reference(id)),
                            Err(e) => Err(e),
                        };
                    },
                    Ok(None) => {},
                }
                if json::get_field(object, "allOf").is_some() {
                    return Err("only single-branch JSON Schema allOf aliases are supported".to_string());
                }
                let types = match TypeSet::parse(json::get_field(object, "type")) {
                    Ok(types) => types,
                    Err(e) => {
                        return Err(e);
                    },
                };
                let values = match ValueSet::parse(object) {
                    Ok(values) => values,
                    Err(e) => {
                        return Err(e);
                    },
                };
                match self.parse_object(object, &types) {
                    Ok(rules) => Ok(SchemaNode::Rules(Box::new(SchemaRules { types, values, object: rules }))),
                    Err(e) => Err(e),
                }
            },
            _ => Err("JSON Schema must be a boolean or object".to_string()),
        }
    }

    fn parse_object(&mut self, object: &Vec<JsonField>, types: &Option<TypeSet>) -> (r: Result<
        Option<ObjectSchema>,
        String,
    >)
        requires
            model::nodes_wf(old(self).nodes@),
        ensures
            final(self).references@ == old(self).references@,
            model::nodes_wf(final(self).nodes@),
            match r {
                Ok(rules) => object_of(known(*old(self)), json::jfields(object@), value::opt_types(*types), read_nodes(*old(self)))
                    == Ok::<(Option<SObject>, Seq<SNode>), Seq<char>>(
                    (model::opt_object(rules), read_nodes(*final(self))),
                ),
                Err(e) => object_of(known(*old(self)), json::jfields(object@), value::opt_types(*types), read_nodes(*old(self)))
                    == Err::<(Option<SObject>, Seq<SNode>), Seq<char>>(e@),
            },
            r matches Ok(Some(rules)) ==> model::object_wf(rules),
        decreases object@, 2int,
    {
        let declared = json::get_field(object, "properties");
        if let Some(v) = declared {
            match &v.shape {
                JsonShape::Object(_) => {},
                _ => {
                    return Err("JSON Schema properties must be an object".to_string());
                },
            }
        }
        let listed = json::get_field(object, "required");
        let required = match parse_string_set(listed, "required") {
            Ok(required) => required,
            Err(e) => {
                return Err(e);
            },
        };
        let others = json::get_field(object, "additionalProperties");
        let is_object = match types {
            Some(types) => types.declares(JsonType::Object),
            None => false,
        };
        if declared.is_none() && listed.is_none() && others.is_none() && !is_object {
            return Ok(None);
        }
        let properties = match declared {
            None => {
                let none: Vec<(String, Property)> = Vec::new();
                assert(model::property_views(none@) =~= Seq::empty());
                assert(model::names_ordered(model::property_names(model::property_views(none@))));
                none
            },
            Some(v) => match &v.shape {
                JsonShape::Object(fields) => {
                    proof {
                        let n = choose|n: int| 0 <= n < object@.len() && (#[trigger] object@[n]).value == *v;
                        assert(decreases_to!(object@ => object@[n]));
                        assert(decreases_to!(object@[n] => object@[n].value));
                        assert(decreases_to!(*v => v.shape));
                        assert(decreases_to!(v.shape => v.shape->Object_0));
                        assert(decreases_to!(*fields => fields@));
                    }
                    match self.parse_properties(fields) {
                        Ok(properties) => properties,
                        Err(e) => {
                            return Err(e);
                        },
                    }
                },
                _ => {
                    return Err("JSON Schema properties must be an object".to_string());
                },
            },
        };
        let additional_properties = match others {
            None => AdditionalProperties::Any,
            Some(v) => match &v.shape {
                JsonShape::Bool(b) => if *b {
                    AdditionalProperties::Any
                } else {
                    AdditionalProperties::Forbidden
                },
                JsonShape::Object(_) => {
                    proof {
                        let n = choose|n: int| 0 <= n < object@.len() && (#[trigger] object@[n]).value == *v;
                        assert(decreases_to!(object@ => object@[n]));
                        assert(decreases_to!(object@[n] => object@[n].value));
                    }
                    match self.parse_schema(v) {
                        Ok(id) => AdditionalProperties::Schema(id),
                        Err(e) => {
                            return Err(e);
                        },
                    }
                },
                _ => {
                    return Err("JSON Schema additionalProperties must be a boolean or object".to_string());
                },
            },
        };
        Ok(Some(ObjectSchema { properties, required, additional_properties }))
    }

    fn parse_properties(&mut self, fields: &Vec<JsonField>) -> (r: Result<Vec<(String, Property)>, String>)
        requires
            model::nodes_wf(old(self).nodes@),
        ensures
            final(self).references@ == old(self).references@,
            model::nodes_wf(final(self).nodes@),
            match r {
                Ok(properties) => properties_of(known(*old(self)), json::jfields(fields@), read_nodes(*old(self)))
                    == Ok::<(Seq<(Seq<char>, SchemaId)>, Seq<SNode>), Seq<char>>(
                    (model::property_views(properties@), read_nodes(*final(self))),
                ) && model::names_ordered(model::property_names(model::property_views(properties@))),
                Err(e) => properties_of(known(*old(self)), json::jfields(fields@), read_nodes(*old(self))) == Err::<
                    (Seq<(Seq<char>, SchemaId)>, Seq<SNode>),
                    Seq<char>,
                >(e@),
            },
        decreases fields@, 1int,
    {
        let ghost all = json::jfields(fields@);
        let ghost refs = known(*self);
        let ghost start = read_nodes(*self);
        let mut out: Vec<(String, Property)> = Vec::new();
        let mut i: usize = 0;
        proof {
            json::lemma_jfields(fields@);
            assert(all.take(0) =~= Seq::empty());
            assert(model::property_views(out@) =~= Seq::empty());
        }
        while i < fields.len()
            invariant
                i <= fields@.len(),
                all == json::jfields(fields@),
                all.len() == fields@.len(),
                forall|k: int|
                    0 <= k < fields@.len() ==> (#[trigger] all[k]).name == fields@[k].name@ && all[k].value
                        == json::jview(fields@[k].value),
                self.references@ == old(self).references@,
                model::nodes_wf(self.nodes@),
                model::names_ordered(model::property_names(model::property_views(out@))),
                refs == known(*old(self)),
                start == read_nodes(*old(self)),
                properties_of(refs, all.take(i as int), start) == Ok::<
                    (Seq<(Seq<char>, SchemaId)>, Seq<SNode>),
                    Seq<char>,
                >((model::property_views(out@), read_nodes(*self))),
            decreases fields@.len() - i,
        {
            proof {
                assert(all.take(i + 1).drop_last() =~= all.take(i as int));
                assert(all.take(i + 1).last() == all[i as int]);
                assert(decreases_to!(fields@ => fields@[i as int]));
                assert(decreases_to!(fields@[i as int] => fields@[i as int].value));
            }
            match self.parse_schema(&fields[i].value) {
                Ok(schema) => {
                    model::insert_property(&mut out, fields[i].name.clone(), schema);
                },
                Err(e) => {
                    proof {
                        lemma_properties_error_stays(refs, all, start, i + 1);
                    }
                    return Err(e);
                },
            }
            i = i + 1;
        }
        assert(all.take(all.len() as int) =~= all);
        Ok(out)
    }
}

/// What is wrong with a schema is told in words, with the reference or the
/// keyword that is wrong.
pub proof fn law_schema_faults_in_words(
    references: Seq<Seq<char>>,
    fields: Seq<JField>,
    text: Seq<char>,
    nodes: Seq<SNode>,
    value: JView,
    keyword: Seq<char>,
    items: Seq<JView>,
)
    ensures
        json::field_of(fields, "$ref"@) == Some(value) ==> {
            let read = node_of(references, JView { text, shape: JShape::Object(fields) }, nodes);
            &&& !(value.shape is Str) ==> read == Err::<(SNode, Seq<SNode>), Seq<char>>(
                "JSON Schema $ref must be a string"@,
            )
            &&& value.shape matches JShape::Str(name) ==> !references.contains(name) ==> read == Err::<
                (SNode, Seq<SNode>),
                Seq<char>,
            >("unsupported or missing JSON Schema reference "@ + name)
        },
        json::field_of(fields, "allOf"@) == Some(value) && !(value.shape is Array) ==> alias_of(fields) == Err::<
            Option<JView>,
            Seq<char>,
        >("JSON Schema allOf must be an array"@),
        !(value.shape is Array) ==> listed_names(Some(value), keyword) == Err::<Set<Seq<char>>, Seq<char>>(
            "JSON Schema "@ + keyword + " must be an array"@,
        ),
        names_in(items, keyword) is Ok && !(value.shape is Str) ==> names_in(items.push(value), keyword) == Err::<
            Set<Seq<char>>,
            Seq<char>,
        >("JSON Schema "@ + keyword + " values must be strings"@),
        names_in(items, keyword) is Err ==> names_in(items.push(value), keyword) == names_in(items, keyword),
{
    assert(items.push(value).drop_last() =~= items);
    if let JShape::Str(name) = value.shape {
        lemma_place(references, name);
    }
}

} // verus!
