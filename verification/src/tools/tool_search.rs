//! How tools that are loaded on demand are found.

use vstd::prelude::*;

use crate::json::Json;
use crate::json::JsonField;
use crate::text;

verus! {

// ---------------------------------------------------------------------
// Tools
// ---------------------------------------------------------------------

/// The schema of a value that a tool takes.
pub struct JsonSchema {
    pub description: Option<String>,
    pub properties: Option<Vec<SchemaProperty>>,
    pub items: Option<Box<JsonSchema>>,
    pub any_of: Option<Vec<JsonSchema>>,
    /// The keywords that are not searched.
    pub keywords: Vec<JsonField>,
}

/// A property of an object that a tool takes.
pub struct SchemaProperty {
    pub name: String,
    pub schema: JsonSchema,
}

/// A function that a model may call.
pub struct ResponsesApiTool {
    pub name: String,
    pub description: String,
    pub strict: bool,
    pub defer_loading: Option<bool>,
    pub parameters: JsonSchema,
    pub output_schema: Option<Json>,
}

/// Functions that stand in one namespace.
pub struct ResponsesApiNamespace {
    pub name: String,
    pub description: String,
    pub tools: Vec<ResponsesApiTool>,
}

/// A tool that takes free text.
pub struct FreeformTool {
    pub name: String,
    pub description: String,
    pub syntax: String,
}

/// A tool that a model may call.
pub enum ToolSpec {
    Function(ResponsesApiTool),
    Namespace(ResponsesApiNamespace),
    ToolSearch { description: String },
    ImageGeneration,
    WebSearch,
    Freeform(FreeformTool),
}

/// A tool that can be loaded on demand.
pub enum LoadableToolSpec {
    Function(ResponsesApiTool),
    Namespace(ResponsesApiNamespace),
}

/// Where a tool comes from.
pub struct ToolSearchSourceInfo {
    pub name: String,
    pub description: Option<String>,
}

/// The names under which a tool can be asked for.
#[derive(Debug, PartialEq)]
pub struct ToolSearchIdentity {
    pub canonical_aliases: Vec<String>,
    pub tool_aliases: Vec<String>,
    pub source_aliases: Vec<String>,
}

/// The names under which a tool can be asked for, in characters.
#[verifier::ext_equal]
pub struct IdentityView {
    pub canonical_aliases: Seq<Seq<char>>,
    pub tool_aliases: Seq<Seq<char>>,
    pub source_aliases: Seq<Seq<char>>,
}

impl View for ToolSearchIdentity {
    type V = IdentityView;

    open spec fn view(&self) -> IdentityView {
        IdentityView {
            canonical_aliases: text::views(self.canonical_aliases@),
            tool_aliases: text::views(self.tool_aliases@),
            source_aliases: text::views(self.source_aliases@),
        }
    }
}

impl Default for ToolSearchIdentity {
    fn default() -> (r: Self)
        ensures
            r@ == no_identity(),
    {
        let r = ToolSearchIdentity {
            canonical_aliases: Vec::new(),
            tool_aliases: Vec::new(),
            source_aliases: Vec::new(),
        };
        assert(r@ =~= no_identity());
        r
    }
}

/// No names.
pub open spec fn no_identity() -> IdentityView {
    IdentityView { canonical_aliases: Seq::empty(), tool_aliases: Seq::empty(), source_aliases: Seq::empty() }
}

/// A tool with the text that it is found by and the names that it goes by.
pub struct ToolSearchEntry {
    pub search_text: String,
    pub identity: ToolSearchIdentity,
    pub output: LoadableToolSpec,
}

/// A tool that can be found, with where it comes from.
pub struct ToolSearchInfo {
    pub entry: ToolSearchEntry,
    pub source_info: Option<ToolSearchSourceInfo>,
}

// ---------------------------------------------------------------------
// The text that a tool is found by
// ---------------------------------------------------------------------

/// The parts with one more, but for spaces around it and where nothing is left.
pub open spec fn with_part(parts: Seq<Seq<char>>, part: Seq<char>) -> Seq<Seq<char>> {
    if text::trimmed(part).len() == 0 {
        parts
    } else {
        parts.push(text::trimmed(part))
    }
}

/// The parts with those of a schema: of its properties, each with its name
/// first, of its items and of its variants.
pub open spec fn with_schema(parts: Seq<Seq<char>>, schema: JsonSchema) -> Seq<Seq<char>>
    decreases schema,
{
    let after_properties = match schema.properties {
        Some(properties) => with_properties(parts, properties@),
        None => parts,
    };
    let after_items = match schema.items {
        Some(items) => with_schema(after_properties, *items),
        None => after_properties,
    };
    match schema.any_of {
        Some(variants) => with_schemas(after_items, variants@),
        None => after_items,
    }
}

/// The parts with those of the properties.
pub open spec fn with_properties(parts: Seq<Seq<char>>, properties: Seq<SchemaProperty>) -> Seq<Seq<char>>
    decreases properties,
{
    if properties.len() == 0 {
        parts
    } else {
        let before = with_properties(parts, properties.drop_last());
        with_schema(with_part(before, properties.last().name@), properties.last().schema)
    }
}

/// The parts with those of the schemas.
pub open spec fn with_schemas(parts: Seq<Seq<char>>, schemas: Seq<JsonSchema>) -> Seq<Seq<char>>
    decreases schemas,
{
    if schemas.len() == 0 {
        parts
    } else {
        with_schema(with_schemas(parts, schemas.drop_last()), schemas.last())
    }
}

/// The parts with those of a function: its description, and what its schema
/// holds.
pub open spec fn with_function(parts: Seq<Seq<char>>, tool: ResponsesApiTool) -> Seq<Seq<char>> {
    with_schema(with_part(parts, tool.description@), tool.parameters)
}

/// The parts with those of the functions.
pub open spec fn with_functions(parts: Seq<Seq<char>>, tools: Seq<ResponsesApiTool>) -> Seq<Seq<char>>
    decreases tools.len(),
{
    if tools.len() == 0 {
        parts
    } else {
        with_function(with_functions(parts, tools.drop_last()), tools.last())
    }
}

/// The parts of the text that a tool is found by.
pub open spec fn search_parts(spec_: ToolSpec) -> Seq<Seq<char>> {
    match spec_ {
        ToolSpec::Function(tool) => with_function(Seq::empty(), tool),
        ToolSpec::Namespace(namespace) => with_functions(
            with_part(Seq::empty(), namespace.description@),
            namespace.tools@,
        ),
        ToolSpec::ToolSearch { description } => with_part(Seq::empty(), description@),
        ToolSpec::ImageGeneration => with_part(Seq::empty(), "image generation"@),
        ToolSpec::WebSearch => with_part(Seq::empty(), "web search"@),
        ToolSpec::Freeform(tool) => with_part(
            with_part(with_part(Seq::empty(), tool.name@), tool.description@),
            tool.syntax@,
        ),
    }
}

/// The text that a tool is found by.
pub open spec fn search_text_of(spec_: ToolSpec) -> Seq<char> {
    text::joined(search_parts(spec_), " "@)
}

fn push_search_part(parts: &mut Vec<String>, part: &str)
    ensures
        text::views(final(parts)@) == with_part(text::views(old(parts)@), part@),
{
    let part = text::trim(part);
    if text::char_vec(part.as_str()).len() > 0 {
        let ghost held = parts@;
        let ghost said = part@;
        parts.push(part);
        assert(text::views(parts@) =~= text::views(held).push(said));
    }
}

fn append_schema_search_text(schema: &JsonSchema, parts: &mut Vec<String>)
    ensures
        text::views(final(parts)@) == with_schema(text::views(old(parts)@), *schema),
    decreases *schema,
{
    let ghost start = text::views(parts@);
    if let Some(properties) = &schema.properties {
        let mut i: usize = 0;
        assert(properties@.take(0) =~= Seq::empty());
        while i < properties.len()
            invariant
                i <= properties@.len(),
                schema.properties == Some(*properties),
                text::views(parts@) == with_properties(start, properties@.take(i as int)),
            decreases properties@.len() - i,
        {
            proof {
                assert(properties@.take(i + 1).drop_last() =~= properties@.take(i as int));
                assert(properties@.take(i + 1).last() == properties@[i as int]);
                assert(decreases_to!(*schema => schema.properties));
                assert(decreases_to!(schema.properties => schema.properties->Some_0));
                assert(decreases_to!(*properties => properties@));
                assert(decreases_to!(properties@ => properties@[i as int]));
                assert(decreases_to!(properties@[i as int] => properties@[i as int].schema));
            }
            push_search_part(parts, properties[i].name.as_str());
            append_schema_search_text(&properties[i].schema, parts);
            i = i + 1;
        }
        assert(properties@.take(properties@.len() as int) =~= properties@);
    }
    if let Some(items) = &schema.items {
        proof {
            assert(decreases_to!(*schema => schema.items));
            assert(decreases_to!(schema.items => schema.items->Some_0));
        }
        append_schema_search_text(items, parts);
    }
    let ghost middle = text::views(parts@);
    if let Some(variants) = &schema.any_of {
        let mut i: usize = 0;
        assert(variants@.take(0) =~= Seq::empty());
        while i < variants.len()
            invariant
                i <= variants@.len(),
                schema.any_of == Some(*variants),
                text::views(parts@) == with_schemas(middle, variants@.take(i as int)),
            decreases variants@.len() - i,
        {
            proof {
                assert(variants@.take(i + 1).drop_last() =~= variants@.take(i as int));
                assert(variants@.take(i + 1).last() == variants@[i as int]);
                assert(decreases_to!(*schema => schema.any_of));
                assert(decreases_to!(schema.any_of => schema.any_of->Some_0));
                assert(decreases_to!(*variants => variants@));
                assert(decreases_to!(variants@ => variants@[i as int]));
            }
            append_schema_search_text(&variants[i], parts);
            i = i + 1;
        }
        assert(variants@.take(variants@.len() as int) =~= variants@);
    }
}

fn append_function_search_text(tool: &ResponsesApiTool, parts: &mut Vec<String>)
    ensures
        text::views(final(parts)@) == with_function(text::views(old(parts)@), *tool),
{
    push_search_part(parts, tool.description.as_str());
    append_schema_search_text(&tool.parameters, parts);
}

/// The text that a tool is found by: descriptions and the names of parameters.
pub fn default_tool_search_text(spec_: &ToolSpec) -> (r: String)
    ensures
        r@ == search_text_of(*spec_),
{
    let mut parts: Vec<String> = Vec::new();
    assert(text::views(parts@) =~= Seq::empty());
    match spec_ {
        ToolSpec::Function(tool) => {
            append_function_search_text(tool, &mut parts);
        },
        ToolSpec::Namespace(namespace) => {
            push_search_part(&mut parts, namespace.description.as_str());
            let ghost start = text::views(parts@);
            let mut i: usize = 0;
            assert(namespace.tools@.take(0) =~= Seq::empty());
            while i < namespace.tools.len()
                invariant
                    i <= namespace.tools@.len(),
                    text::views(parts@) == with_functions(start, namespace.tools@.take(i as int)),
                decreases namespace.tools@.len() - i,
            {
                assert(namespace.tools@.take(i + 1).drop_last() =~= namespace.tools@.take(i as int));
                append_function_search_text(&namespace.tools[i], &mut parts);
                i = i + 1;
            }
            assert(namespace.tools@.take(namespace.tools@.len() as int) =~= namespace.tools@);
        },
        ToolSpec::ToolSearch { description } => {
            push_search_part(&mut parts, description.as_str());
        },
        ToolSpec::ImageGeneration => {
            push_search_part(&mut parts, "image generation");
        },
        ToolSpec::WebSearch => {
            push_search_part(&mut parts, "web search");
        },
        ToolSpec::Freeform(tool) => {
            push_search_part(&mut parts, tool.name.as_str());
            push_search_part(&mut parts, tool.description.as_str());
            push_search_part(&mut parts, tool.syntax.as_str());
        },
    }
    text::join(&parts, " ")
}

// ---------------------------------------------------------------------
// The names that a tool goes by
// ---------------------------------------------------------------------

/// The aliases with one more, but for spaces around it and where nothing is
/// left or it is there already.
pub open spec fn with_alias(aliases: Seq<Seq<char>>, alias: Seq<char>) -> Seq<Seq<char>> {
    if text::trimmed(alias).len() == 0 || aliases.contains(text::trimmed(alias)) {
        aliases
    } else {
        aliases.push(text::trimmed(alias))
    }
}

/// The aliases with the three ways to join a namespace and a name.
pub open spec fn with_namespaced(aliases: Seq<Seq<char>>, namespace: Seq<char>, name: Seq<char>) -> Seq<Seq<char>> {
    with_alias(
        with_alias(with_alias(aliases, namespace + "."@ + name), namespace + "__"@ + name),
        namespace + name,
    )
}

/// The names with those of the functions in a namespace.
pub open spec fn with_tools(identity: IdentityView, namespace: Seq<char>, tools: Seq<Seq<char>>) -> IdentityView
    decreases tools.len(),
{
    if tools.len() == 0 {
        identity
    } else {
        let before = with_tools(identity, namespace, tools.drop_last());
        IdentityView {
            canonical_aliases: with_namespaced(before.canonical_aliases, namespace, tools.last()),
            tool_aliases: with_alias(before.tool_aliases, tools.last()),
            source_aliases: before.source_aliases,
        }
    }
}

/// The names of the functions.
pub open spec fn tool_names(tools: Seq<ResponsesApiTool>) -> Seq<Seq<char>> {
    tools.map_values(|t: ResponsesApiTool| t.name@)
}

/// The names under which a tool of a source can be asked for, beside those
/// given.
pub open spec fn identity_of(
    output: LoadableToolSpec,
    source: Option<Seq<char>>,
    identity: IdentityView,
) -> IdentityView {
    let own = match output {
        LoadableToolSpec::Function(tool) => IdentityView {
            canonical_aliases: with_alias(identity.canonical_aliases, tool.name@),
            tool_aliases: with_alias(identity.tool_aliases, tool.name@),
            source_aliases: identity.source_aliases,
        },
        LoadableToolSpec::Namespace(namespace) => with_tools(
            IdentityView {
                canonical_aliases: identity.canonical_aliases,
                tool_aliases: identity.tool_aliases,
                source_aliases: with_alias(identity.source_aliases, namespace.name@),
            },
            namespace.name@,
            tool_names(namespace.tools@),
        ),
    };
    match source {
        Some(name) => IdentityView {
            canonical_aliases: own.canonical_aliases,
            tool_aliases: own.tool_aliases,
            source_aliases: with_alias(own.source_aliases, name),
        },
        None => own,
    }
}

fn push_unique_alias(aliases: &mut Vec<String>, alias: &str)
    ensures
        text::views(final(aliases)@) == with_alias(text::views(old(aliases)@), alias@),
{
    let alias = text::trim(alias);
    if text::char_vec(alias.as_str()).len() > 0 && !text::contains_string(aliases, alias.as_str()) {
        let ghost held = aliases@;
        let ghost said = alias@;
        aliases.push(alias);
        assert(text::views(aliases@) =~= text::views(held).push(said));
    }
}

fn push_namespaced_aliases(aliases: &mut Vec<String>, namespace: &str, name: &str)
    ensures
        text::views(final(aliases)@) == with_namespaced(text::views(old(aliases)@), namespace@, name@),
{
    let mut dotted = namespace.to_string();
    dotted.push_str(".");
    dotted.push_str(name);
    push_unique_alias(aliases, dotted.as_str());
    let mut underscored = namespace.to_string();
    underscored.push_str("__");
    underscored.push_str(name);
    push_unique_alias(aliases, underscored.as_str());
    let mut joined = namespace.to_string();
    joined.push_str(name);
    push_unique_alias(aliases, joined.as_str());
}

fn build_identity(
    output: &LoadableToolSpec,
    source_info: &Option<ToolSearchSourceInfo>,
    identity: ToolSearchIdentity,
) -> (r: ToolSearchIdentity)
    ensures
        r@ == identity_of(*output, source_name(*source_info), identity@),
{
    let mut identity = identity;
    match output {
        LoadableToolSpec::Function(tool) => {
            push_unique_alias(&mut identity.canonical_aliases, tool.name.as_str());
            push_unique_alias(&mut identity.tool_aliases, tool.name.as_str());
        },
        LoadableToolSpec::Namespace(namespace) => {
            push_unique_alias(&mut identity.source_aliases, namespace.name.as_str());
            let ghost start = identity@;
            let ghost names = tool_names(namespace.tools@);
            let mut i: usize = 0;
            assert(names.take(0) =~= Seq::empty());
            while i < namespace.tools.len()
                invariant
                    i <= namespace.tools@.len(),
                    names == tool_names(namespace.tools@),
                    identity@ == with_tools(start, namespace.name@, names.take(i as int)),
                decreases namespace.tools@.len() - i,
            {
                proof {
                    assert(names.take(i + 1).drop_last() =~= names.take(i as int));
                    assert(names.take(i + 1).last() == namespace.tools@[i as int].name@);
                }
                push_namespaced_aliases(
                    &mut identity.canonical_aliases,
                    namespace.name.as_str(),
                    namespace.tools[i].name.as_str(),
                );
                push_unique_alias(&mut identity.tool_aliases, namespace.tools[i].name.as_str());
                i = i + 1;
            }
            assert(names.take(names.len() as int) =~= names);
        },
    }
    if let Some(source) = source_info {
        push_unique_alias(&mut identity.source_aliases, source.name.as_str());
    }
    identity
}

/// The name of the source.
pub open spec fn source_name(source: Option<ToolSearchSourceInfo>) -> Option<Seq<char>> {
    match source {
        Some(source) => Some(source.name@),
        None => None,
    }
}

/// Whether no alias occurs twice.
pub open spec fn distinct(identity: IdentityView) -> bool {
    identity.canonical_aliases.no_duplicates() && identity.tool_aliases.no_duplicates()
        && identity.source_aliases.no_duplicates()
}

proof fn lemma_with_alias_distinct(aliases: Seq<Seq<char>>, alias: Seq<char>)
    requires
        aliases.no_duplicates(),
    ensures
        with_alias(aliases, alias).no_duplicates(),
{
}

proof fn lemma_with_tools_distinct(identity: IdentityView, namespace: Seq<char>, tools: Seq<Seq<char>>)
    requires
        distinct(identity),
    ensures
        distinct(with_tools(identity, namespace, tools)),
    decreases tools.len(),
{
    if tools.len() > 0 {
        lemma_with_tools_distinct(identity, namespace, tools.drop_last());
        let before = with_tools(identity, namespace, tools.drop_last());
        let name = tools.last();
        let one = with_alias(before.canonical_aliases, namespace + "."@ + name);
        let two = with_alias(one, namespace + "__"@ + name);
        lemma_with_alias_distinct(before.canonical_aliases, namespace + "."@ + name);
        lemma_with_alias_distinct(one, namespace + "__"@ + name);
        lemma_with_alias_distinct(two, namespace + name);
        lemma_with_alias_distinct(before.tool_aliases, name);
    }
}

/// A tool goes by no name twice, where none was given twice.
pub proof fn law_aliases_are_distinct(
    output: LoadableToolSpec,
    source: Option<Seq<char>>,
    identity: IdentityView,
)
    requires
        distinct(identity),
    ensures
        distinct(identity_of(output, source, identity)),
{
    if let LoadableToolSpec::Namespace(namespace) = output {
        let start = IdentityView {
            canonical_aliases: identity.canonical_aliases,
            tool_aliases: identity.tool_aliases,
            source_aliases: with_alias(identity.source_aliases, namespace.name@),
        };
        lemma_with_alias_distinct(identity.source_aliases, namespace.name@);
        lemma_with_tools_distinct(start, namespace.name@, tool_names(namespace.tools@));
    }
}

// ---------------------------------------------------------------------
// Entries
// ---------------------------------------------------------------------

/// The description of a namespace that has none.
pub open spec fn namespace_description(name: Seq<char>) -> Seq<char> {
    "Tools in the "@ + name + " namespace."@
}

/// The description of a namespace that has none.
pub fn default_namespace_description(name: &str) -> (r: String)
    ensures
        r@ == namespace_description(name@),
{
    let mut description = "Tools in the ".to_string();
    description.push_str(name);
    description.push_str(" namespace.");
    description
}

/// Whether the function is the other, but that it is loaded on demand and its
/// output has no schema.
pub open spec fn is_deferred(tool: ResponsesApiTool, of: ResponsesApiTool) -> bool {
    &&& tool.name@ == of.name@
    &&& tool.description@ == of.description@
    &&& tool.strict == of.strict
    &&& tool.defer_loading == Some(true)
    &&& tool.parameters == of.parameters
    &&& tool.output_schema is None
}

/// Whether the tool is the other as it is loaded on demand.
pub open spec fn is_loadable(output: LoadableToolSpec, of: ToolSpec) -> bool {
    match (output, of) {
        (LoadableToolSpec::Function(tool), ToolSpec::Function(given)) => is_deferred(tool, given),
        (LoadableToolSpec::Namespace(namespace), ToolSpec::Namespace(given)) => {
            &&& namespace.name@ == given.name@
            &&& namespace.description@ == (if text::trimmed(given.description@).len() == 0 {
                namespace_description(given.name@)
            } else {
                given.description@
            })
            &&& namespace.tools@.len() == given.tools@.len()
            &&& forall|i: int|
                0 <= i < given.tools@.len() ==> is_deferred(#[trigger] namespace.tools@[i], given.tools@[i])
        },
        _ => false,
    }
}

fn defer(tool: ResponsesApiTool) -> (r: ResponsesApiTool)
    ensures
        is_deferred(r, tool),
{
    ResponsesApiTool {
        name: tool.name,
        description: tool.description,
        strict: tool.strict,
        defer_loading: Some(true),
        parameters: tool.parameters,
        output_schema: None,
    }
}

fn defer_all(tools: Vec<ResponsesApiTool>) -> (r: Vec<ResponsesApiTool>)
    ensures
        r@.len() == tools@.len(),
        forall|i: int| 0 <= i < tools@.len() ==> is_deferred(#[trigger] r@[i], tools@[i]),
{
    let ghost all = tools@;
    let mut rest = tools;
    let mut out: Vec<ResponsesApiTool> = Vec::new();
    assert(rest@ =~= all.skip(0));
    while rest.len() > 0
        invariant
            out@.len() <= all.len(),
            rest@ == all.skip(out@.len() as int),
            forall|i: int| 0 <= i < out@.len() ==> is_deferred(#[trigger] out@[i], all[i]),
        decreases rest@.len(),
    {
        let ghost n = out@.len() as int;
        let ghost before = rest@;
        let tool = rest.remove(0);
        proof {
            assert(before.len() == all.len() - n);
            assert(before[0] == all[n]);
            assert(rest@ =~= all.skip(n + 1));
        }
        out.push(defer(tool));
    }
    out
}

impl ToolSearchInfo {
    /// Whether the info is the one of the tool with the text and the names.
    pub open spec fn describes(
        self,
        search_text: Seq<char>,
        spec_: ToolSpec,
        source_info: Option<ToolSearchSourceInfo>,
        identity: IdentityView,
    ) -> bool {
        &&& self.entry.search_text@ == search_text
        &&& is_loadable(self.entry.output, spec_)
        &&& self.entry.identity@ == identity_of(self.entry.output, source_name(source_info), identity)
        &&& self.source_info == source_info
    }

    /// The tool as it is found by its default text. Only functions and
    /// namespaces can be found.
    pub fn from_tool_spec(spec_: ToolSpec, source_info: Option<ToolSearchSourceInfo>) -> (r: Option<Self>)
        ensures
            r is Some <==> (spec_ is Function || spec_ is Namespace),
            r matches Some(info) ==> info.describes(search_text_of(spec_), spec_, source_info, no_identity()),
    {
        let search_text = default_tool_search_text(&spec_);
        Self::from_spec(search_text, spec_, source_info)
    }

    /// The tool as it is found by the text.
    pub fn from_spec(search_text: String, spec_: ToolSpec, source_info: Option<ToolSearchSourceInfo>) -> (r: Option<
        Self,
    >)
        ensures
            r is Some <==> (spec_ is Function || spec_ is Namespace),
            r matches Some(info) ==> info.describes(search_text@, spec_, source_info, no_identity()),
    {
        Self::from_spec_with_identity(search_text, spec_, source_info, ToolSearchIdentity::default())
    }

    /// The tool as it is found by the text and goes by the names, among others.
    pub fn from_spec_with_identity(
        search_text: String,
        spec_: ToolSpec,
        source_info: Option<ToolSearchSourceInfo>,
        identity: ToolSearchIdentity,
    ) -> (r: Option<Self>)
        ensures
            r is Some <==> (spec_ is Function || spec_ is Namespace),
            r matches Some(info) ==> info.describes(search_text@, spec_, source_info, identity@),
    {
        let output = match spec_ {
            ToolSpec::Function(tool) => LoadableToolSpec::Function(defer(tool)),
            ToolSpec::Namespace(namespace) => {
                let blank = text::char_vec(text::trim(namespace.description.as_str()).as_str()).len() == 0;
                let description = if blank {
                    default_namespace_description(namespace.name.as_str())
                } else {
                    namespace.description
                };
                LoadableToolSpec::Namespace(
                    ResponsesApiNamespace { name: namespace.name, description, tools: defer_all(namespace.tools) },
                )
            },
            _ => {
                return None;
            },
        };
        let identity = build_identity(&output, &source_info, identity);
        Some(ToolSearchInfo { entry: ToolSearchEntry { search_text, identity, output }, source_info })
    }
}

proof fn lemma_schema_appends(parts: Seq<Seq<char>>, schema: JsonSchema)
    ensures
        with_schema(parts, schema) == parts + with_schema(Seq::empty(), schema),
    decreases schema,
{
    let none = Seq::<Seq<char>>::empty();
    let a = match schema.properties {
        Some(properties) => with_properties(parts, properties@),
        None => parts,
    };
    let a0 = match schema.properties {
        Some(properties) => with_properties(none, properties@),
        None => none,
    };
    if let Some(properties) = schema.properties {
        lemma_properties_append(parts, properties@);
    }
    assert(a =~= parts + a0);
    let b = match schema.items {
        Some(items) => with_schema(a, *items),
        None => a,
    };
    let b0 = match schema.items {
        Some(items) => with_schema(a0, *items),
        None => a0,
    };
    if let Some(items) = schema.items {
        lemma_schema_appends(a, *items);
        lemma_schema_appends(a0, *items);
    }
    assert(b =~= parts + b0);
    if let Some(variants) = schema.any_of {
        lemma_schemas_append(b, variants@);
        lemma_schemas_append(b0, variants@);
    }
    assert(with_schema(parts, schema) =~= parts + with_schema(none, schema));
}

proof fn lemma_properties_append(parts: Seq<Seq<char>>, properties: Seq<SchemaProperty>)
    ensures
        with_properties(parts, properties) == parts + with_properties(Seq::empty(), properties),
    decreases properties,
{
    let none = Seq::<Seq<char>>::empty();
    if properties.len() == 0 {
        assert(parts + none =~= parts);
    } else {
        let p = properties.last();
        lemma_properties_append(parts, properties.drop_last());
        let before = with_properties(parts, properties.drop_last());
        let before0 = with_properties(none, properties.drop_last());
        lemma_schema_appends(with_part(before, p.name@), p.schema);
        lemma_schema_appends(with_part(before0, p.name@), p.schema);
        assert(with_part(before, p.name@) =~= parts + with_part(before0, p.name@));
        assert(with_properties(parts, properties) =~= parts + with_properties(none, properties));
    }
}

proof fn lemma_schemas_append(parts: Seq<Seq<char>>, schemas: Seq<JsonSchema>)
    ensures
        with_schemas(parts, schemas) == parts + with_schemas(Seq::empty(), schemas),
    decreases schemas,
{
    let none = Seq::<Seq<char>>::empty();
    if schemas.len() == 0 {
        assert(parts + none =~= parts);
    } else {
        lemma_schemas_append(parts, schemas.drop_last());
        lemma_schema_appends(with_schemas(parts, schemas.drop_last()), schemas.last());
        lemma_schema_appends(with_schemas(none, schemas.drop_last()), schemas.last());
        assert(with_schemas(parts, schemas) =~= parts + with_schemas(none, schemas));
    }
}

/// What a schema adds to a search text does not depend on what stands before it:
/// the words of its properties, then those of its items, then those of its
/// alternatives, and none of its own description.
pub proof fn law_words_of_a_schema(parts: Seq<Seq<char>>, schema: JsonSchema)
    ensures
        with_schema(parts, schema) == parts + (match schema.properties {
            Some(properties) => with_properties(Seq::empty(), properties@),
            None => Seq::empty(),
        }) + (match schema.items {
            Some(items) => with_schema(Seq::empty(), *items),
            None => Seq::empty(),
        }) + (match schema.any_of {
            Some(variants) => with_schemas(Seq::empty(), variants@),
            None => Seq::empty(),
        }),
        with_schema(parts, JsonSchema { description: None, ..schema }) == with_schema(parts, schema),
{
    let none = Seq::<Seq<char>>::empty();
    let a = match schema.properties {
        Some(properties) => with_properties(parts, properties@),
        None => parts,
    };
    if let Some(properties) = schema.properties {
        lemma_properties_append(parts, properties@);
    }
    let b = match schema.items {
        Some(items) => with_schema(a, *items),
        None => a,
    };
    if let Some(items) = schema.items {
        lemma_schema_appends(a, *items);
    }
    if let Some(variants) = schema.any_of {
        lemma_schemas_append(b, variants@);
    }
    assert(with_schema(parts, schema) =~= parts + (match schema.properties {
        Some(properties) => with_properties(none, properties@),
        None => none,
    }) + (match schema.items {
        Some(items) => with_schema(none, *items),
        None => none,
    }) + (match schema.any_of {
        Some(variants) => with_schemas(none, variants@),
        None => none,
    }));
}

/// The words of properties are, for each in order, its name, where that is not
/// blank, and then the words of its schema; alternatives follow each other.
pub proof fn law_words_of_properties(
    properties: Seq<SchemaProperty>,
    property: SchemaProperty,
    schemas: Seq<JsonSchema>,
    schema: JsonSchema,
)
    ensures
        with_properties(Seq::empty(), properties.push(property)) == with_properties(Seq::empty(), properties) + (
        if text::trimmed(property.name@).len() > 0 {
            seq![text::trimmed(property.name@)]
        } else {
            Seq::empty()
        }) + with_schema(Seq::empty(), property.schema),
        with_schemas(Seq::empty(), schemas.push(schema)) == with_schemas(Seq::empty(), schemas) + with_schema(
            Seq::empty(),
            schema,
        ),
{
    let none = Seq::<Seq<char>>::empty();
    assert(properties.push(property).drop_last() =~= properties);
    assert(schemas.push(schema).drop_last() =~= schemas);
    let before = with_properties(none, properties);
    lemma_schema_appends(with_part(before, property.name@), property.schema);
    lemma_schema_appends(with_schemas(none, schemas), schema);
    assert(with_part(before, property.name@) =~= before + (if text::trimmed(property.name@).len() > 0 {
        seq![text::trimmed(property.name@)]
    } else {
        none
    }));
}

/// A function is searched by its description and its parameters and not by its
/// name; a namespace by its description and its functions; a tool of free form by
/// its name, description and syntax; the others by what they are.
pub proof fn law_words_of_a_tool(tool: ResponsesApiTool, namespace: ResponsesApiNamespace, freeform: FreeformTool)
    requires
        text::trimmed(freeform.name@).len() > 0,
        text::trimmed(freeform.description@).len() > 0,
        text::trimmed(freeform.syntax@).len() > 0,
        text::trimmed(tool.description@).len() > 0,
        text::trimmed(namespace.description@).len() > 0,
    ensures
        search_parts(ToolSpec::Function(tool)) == seq![text::trimmed(tool.description@)] + with_schema(
            Seq::empty(),
            tool.parameters,
        ),
        search_parts(ToolSpec::Freeform(freeform)) == seq![
            text::trimmed(freeform.name@),
            text::trimmed(freeform.description@),
            text::trimmed(freeform.syntax@),
        ],
        namespace.tools@ == seq![tool] ==> search_parts(ToolSpec::Namespace(namespace)) == seq![
            text::trimmed(namespace.description@),
        ] + search_parts(ToolSpec::Function(tool)),
        search_parts(ToolSpec::WebSearch) == seq!["web search"@],
        search_parts(ToolSpec::ImageGeneration) == seq!["image generation"@],
{
    let none = Seq::<Seq<char>>::empty();
    let described = with_part(none, tool.description@);
    assert(described =~= seq![text::trimmed(tool.description@)]);
    lemma_schema_appends(described, tool.parameters);
    assert(search_parts(ToolSpec::Freeform(freeform)) =~= seq![
        text::trimmed(freeform.name@),
        text::trimmed(freeform.description@),
        text::trimmed(freeform.syntax@),
    ]);
    reveal_strlit("web search");
    reveal_strlit("image generation");
    text::lemma_trimmed_plain("web search"@);
    text::lemma_trimmed_plain("image generation"@);
    assert(with_part(none, "web search"@) =~= seq!["web search"@]);
    assert(with_part(none, "image generation"@) =~= seq!["image generation"@]);
    if namespace.tools@ == seq![tool] {
        reveal_with_fuel(with_functions, 2);
        let named = with_part(none, namespace.description@);
        assert(named =~= seq![text::trimmed(namespace.description@)]);
        assert(seq![tool].drop_last() =~= Seq::<ResponsesApiTool>::empty());
        assert(with_functions(named, seq![tool]) == with_function(named, tool));
        let both = with_part(named, tool.description@);
        assert(both =~= named + described);
        lemma_schema_appends(both, tool.parameters);
        assert(search_parts(ToolSpec::Namespace(namespace)) =~= named + search_parts(ToolSpec::Function(tool)));
    }
}

proof fn lemma_with_alias(aliases: Seq<Seq<char>>, alias: Seq<char>, other: Seq<char>)
    ensures
        with_alias(aliases, alias).contains(other) <==> aliases.contains(other) || (text::trimmed(alias).len() > 0
            && other == text::trimmed(alias)),
{
    let out = with_alias(aliases, alias);
    if out.len() > aliases.len() {
        assert(out[aliases.len() as int] == text::trimmed(alias));
        if aliases.contains(other) {
            let k = choose|k: int| 0 <= k < aliases.len() && aliases[k] == other;
            assert(out[k] == other);
        }
        if out.contains(other) {
            let k = choose|k: int| 0 <= k < out.len() && out[k] == other;
            if k < aliases.len() {
                assert(aliases[k] == other);
            }
        }
    }
}

/// An alias is added, without the white space around it, where it is not blank
/// and not there yet; the ones before it stay where they are.
pub proof fn law_alias_is_added_once(aliases: Seq<Seq<char>>, alias: Seq<char>, other: Seq<char>)
    ensures
        with_alias(aliases, alias).contains(other) <==> aliases.contains(other) || (text::trimmed(alias).len() > 0
            && other == text::trimmed(alias)),
        with_alias(aliases, alias).take(aliases.len() as int) == aliases,
        with_alias(aliases, alias).len() <= aliases.len() + 1,
        aliases.contains(text::trimmed(alias)) ==> with_alias(aliases, alias) == aliases,
{
    lemma_with_alias(aliases, alias, other);
    assert(with_alias(aliases, alias).take(aliases.len() as int) =~= aliases);
}

/// A tool of a namespace is known by the two names joined with a dot, with two
/// underscores, and with nothing, and by nothing else that was not there before.
pub proof fn law_namespaced_aliases(aliases: Seq<Seq<char>>, namespace: Seq<char>, name: Seq<char>, other: Seq<char>)
    ensures
        with_namespaced(aliases, namespace, name).contains(other) <==> aliases.contains(other) || (other.len() > 0 && (
        other == text::trimmed(namespace + "."@ + name) || other == text::trimmed(namespace + "__"@ + name) || other
            == text::trimmed(namespace + name))),
{
    let a = with_alias(aliases, namespace + "."@ + name);
    let b = with_alias(a, namespace + "__"@ + name);
    lemma_with_alias(aliases, namespace + "."@ + name, other);
    lemma_with_alias(a, namespace + "__"@ + name, other);
    lemma_with_alias(b, namespace + name, other);
}

/// A function is known by its name, as a tool and as such; a namespace is known as
/// a source, and each of its tools by its own name as a tool; a source that is
/// told is known as one too. What was known before stays known.
pub proof fn law_identity_of_a_tool(
    output: LoadableToolSpec,
    source: Option<Seq<char>>,
    identity: IdentityView,
    other: Seq<char>,
)
    ensures
        output matches LoadableToolSpec::Function(tool) ==> {
            let own = identity_of(output, source, identity);
            &&& own.canonical_aliases.contains(other) <==> identity.canonical_aliases.contains(other) || (other.len()
                > 0 && other == text::trimmed(tool.name@))
            &&& own.tool_aliases.contains(other) <==> identity.tool_aliases.contains(other) || (other.len() > 0 && other
                == text::trimmed(tool.name@))
            &&& own.source_aliases.contains(other) <==> identity.source_aliases.contains(other) || (source is Some
                && other.len() > 0 && other == text::trimmed(source->0))
        },
        output matches LoadableToolSpec::Namespace(namespace) ==> {
            let own = identity_of(output, source, identity);
            &&& own.source_aliases.contains(other) <==> identity.source_aliases.contains(other) || (other.len() > 0 && (
            other == text::trimmed(namespace.name@) || (source is Some && other == text::trimmed(source->0))))
            &&& own.tool_aliases.contains(other) <==> identity.tool_aliases.contains(other) || (other.len() > 0
                && exists|i: int|
                0 <= i < namespace.tools@.len() && other == text::trimmed((#[trigger] namespace.tools@[i]).name@))
        },
{
    match output {
        LoadableToolSpec::Function(tool) => {
            lemma_with_alias(identity.canonical_aliases, tool.name@, other);
            lemma_with_alias(identity.tool_aliases, tool.name@, other);
            if let Some(name) = source {
                lemma_with_alias(identity.source_aliases, name, other);
            }
        },
        LoadableToolSpec::Namespace(namespace) => {
            let sources = with_alias(identity.source_aliases, namespace.name@);
            lemma_with_alias(identity.source_aliases, namespace.name@, other);
            if let Some(name) = source {
                lemma_with_alias(sources, name, other);
            }
            let begun = IdentityView {
                canonical_aliases: identity.canonical_aliases,
                tool_aliases: identity.tool_aliases,
                source_aliases: sources,
            };
            let names = tool_names(namespace.tools@);
            lemma_with_tools(begun, namespace.name@, names, other);
            if exists|i: int| 0 <= i < names.len() && other == text::trimmed(#[trigger] names[i]) {
                let i = choose|i: int| 0 <= i < names.len() && other == text::trimmed(#[trigger] names[i]);
                assert(names[i] == namespace.tools@[i].name@);
            }
            assert forall|i: int|
                0 <= i < namespace.tools@.len() && other == text::trimmed((#[trigger] namespace.tools@[i]).name@) implies exists|
                k: int,
            | 0 <= k < names.len() && other == text::trimmed(#[trigger] names[k]) by {
                assert(names[i] == namespace.tools@[i].name@);
            }
        },
    }
}

proof fn lemma_with_tools(identity: IdentityView, namespace: Seq<char>, tools: Seq<Seq<char>>, other: Seq<char>)
    ensures
        with_tools(identity, namespace, tools).source_aliases == identity.source_aliases,
        with_tools(identity, namespace, tools).tool_aliases.contains(other) <==> identity.tool_aliases.contains(other)
            || (other.len() > 0 && exists|i: int| 0 <= i < tools.len() && other == text::trimmed(#[trigger] tools[i])),
    decreases tools.len(),
{
    if tools.len() > 0 {
        let front = tools.drop_last();
        lemma_with_tools(identity, namespace, front, other);
        let before = with_tools(identity, namespace, front);
        lemma_with_alias(before.tool_aliases, tools.last(), other);
        if exists|i: int| 0 <= i < front.len() && other == text::trimmed(#[trigger] front[i]) {
            let i = choose|i: int| 0 <= i < front.len() && other == text::trimmed(#[trigger] front[i]);
            assert(tools[i] == front[i]);
        }
        assert(tools[tools.len() - 1] == tools.last());
        assert forall|i: int| 0 <= i < tools.len() && other == text::trimmed(#[trigger] tools[i]) implies other
            == text::trimmed(tools.last()) || exists|k: int|
            0 <= k < front.len() && other == text::trimmed(#[trigger] front[k]) by {
            if i < front.len() {
                assert(front[i] == tools[i]);
            }
        }
    }
}

/// A tool that is loaded later is the tool that was given, marked so and without
/// what it puts out; a namespace without a description gets one that names it.
pub proof fn law_loadable_tool_is_the_given_one(output: LoadableToolSpec, of: ToolSpec)
    requires
        is_loadable(output, of),
    ensures
        of matches ToolSpec::Function(given) ==> (output matches LoadableToolSpec::Function(tool) && tool.name@
            == given.name@ && tool.description@ == given.description@ && tool.strict == given.strict
            && tool.defer_loading == Some(true) && tool.output_schema is None && tool.parameters == given.parameters),
        of matches ToolSpec::Namespace(given) ==> (output matches LoadableToolSpec::Namespace(namespace)
            && namespace.name@ == given.name@ && namespace.tools@.len() == given.tools@.len() && namespace.description@
            == (if text::trimmed(given.description@).len() > 0 {
            given.description@
        } else {
            "Tools in the "@ + given.name@ + " namespace."@
        })),
        of is Function || of is Namespace,
{
}

} // verus!
