//! Texts in JSON.

use vstd::prelude::*;

use crate::text;

verus! {

/// What a JSON text says as a list of strings, or the message of the error.
pub uninterp spec fn json_strings(s: Seq<char>) -> Result<Seq<Seq<char>>, Seq<char>>;

/// What a JSON text says as a list of paths, or the message of the error.
pub uninterp spec fn json_paths(s: Seq<char>) -> Result<Seq<Seq<char>>, Seq<char>>;

/// The JSON text of a list of strings.
pub uninterp spec fn json_list_text(items: Seq<Seq<char>>) -> Seq<char>;

/// The characters of the outcome of reading a list of strings.
pub open spec fn outcome_view(r: Result<Vec<String>, String>) -> Result<Seq<Seq<char>>, Seq<char>> {
    match r {
        Ok(v) => Ok(text::views(v@)),
        Err(e) => Err(e@),
    }
}

/// The outcome of reading a list of strings that is there.
pub open spec fn read_as(items: Seq<Seq<char>>) -> Result<Seq<Seq<char>>, Seq<char>> {
    Ok(items)
}

/// `serde_json::from_str` to a list of strings: what it reads, or the message
/// of its error, is a function of the characters, named `json_strings`.
#[verifier::external_body]
pub(crate) fn parse_json_strings(s: &str) -> (r: Result<Vec<String>, String>)
    ensures
        outcome_view(r) == json_strings(s@),
{
    serde_json::from_str::<Vec<String>>(s).map_err(|err| err.to_string())
}

/// `serde_json::from_str` to a list of paths: what it reads, or the message of
/// its error, is a function of the characters, named `json_paths`.
#[verifier::external_body]
pub(crate) fn parse_json_paths(s: &str) -> (r: Result<Vec<String>, String>)
    ensures
        outcome_view(r) == json_paths(s@),
{
    serde_json::from_str::<Vec<std::path::PathBuf>>(s)
        .map(|paths| paths.into_iter().map(|path| path.to_string_lossy().into_owned()).collect())
        .map_err(|err| err.to_string())
}

/// `serde_json::to_string` of a list of strings: the text is a function of the
/// strings, named `json_list_text`, and is read back as the same list, of strings or of
/// paths.
#[verifier::external_body]
pub(crate) fn format_json_strings(items: &Vec<String>) -> (r: String)
    ensures
        r@ == json_list_text(text::views(items@)),
        json_strings(r@) == read_as(text::views(items@)),
        json_paths(r@) == read_as(text::views(items@)),
{
    serde_json::to_string(items).unwrap_or_default()
}

// ---------------------------------------------------------------------
// Values
// ---------------------------------------------------------------------

/// A JSON value together with its compact text.
#[derive(Debug, PartialEq)]
pub struct Json {
    pub text: String,
    pub shape: JsonShape,
}

/// What kind of value a JSON value is. A number is kept by its text.
#[derive(Debug, PartialEq)]
pub enum JsonShape {
    Null,
    Bool(bool),
    Number(String),
    Str(String),
    Array(Vec<Json>),
    Object(Vec<JsonField>),
}

/// One entry of a JSON object.
#[derive(Debug, PartialEq)]
pub struct JsonField {
    pub name: String,
    pub value: Json,
}

/// The characters of a JSON value.
#[verifier::ext_equal]
pub struct JView {
    pub text: Seq<char>,
    pub shape: JShape,
}

/// The characters of a JSON value by its kind.
#[verifier::ext_equal]
pub enum JShape {
    Null,
    Bool(bool),
    Number(Seq<char>),
    Str(Seq<char>),
    Array(Seq<JView>),
    Object(Seq<JField>),
}

/// The characters of an entry of a JSON object.
#[verifier::ext_equal]
pub struct JField {
    pub name: Seq<char>,
    pub value: JView,
}

/// The characters of a JSON value.
pub open spec fn jview(j: Json) -> JView
    decreases j,
{
    JView {
        text: j.text@,
        shape: match j.shape {
            JsonShape::Null => JShape::Null,
            JsonShape::Bool(b) => JShape::Bool(b),
            JsonShape::Number(n) => JShape::Number(n@),
            JsonShape::Str(s) => JShape::Str(s@),
            JsonShape::Array(items) => JShape::Array(jviews(items@)),
            JsonShape::Object(fields) => JShape::Object(jfields(fields@)),
        },
    }
}

/// The characters of JSON values.
pub open spec fn jviews(items: Seq<Json>) -> Seq<JView>
    decreases items,
{
    if items.len() == 0 {
        Seq::empty()
    } else {
        jviews(items.drop_last()).push(jview(items.last()))
    }
}

/// The characters of the entries of a JSON object.
pub open spec fn jfields(fields: Seq<JsonField>) -> Seq<JField>
    decreases fields,
{
    if fields.len() == 0 {
        Seq::empty()
    } else {
        jfields(fields.drop_last()).push(JField { name: fields.last().name@, value: jview(fields.last().value) })
    }
}

impl View for Json {
    type V = JView;

    open spec fn view(&self) -> JView {
        jview(*self)
    }
}

/// The items of an array are viewed one by one.
pub proof fn lemma_jviews(items: Seq<Json>)
    ensures
        jviews(items).len() == items.len(),
        forall|i: int| 0 <= i < items.len() ==> #[trigger] jviews(items)[i] == jview(items[i]),
    decreases items.len(),
{
    if items.len() > 0 {
        lemma_jviews(items.drop_last());
        assert forall|i: int| 0 <= i < items.len() implies #[trigger] jviews(items)[i] == jview(items[i]) by {
            if i < items.len() - 1 {
                assert(items.drop_last()[i] == items[i]);
            }
        }
    }
}

/// The entries of an object are viewed one by one.
pub proof fn lemma_jfields(fields: Seq<JsonField>)
    ensures
        jfields(fields).len() == fields.len(),
        forall|i: int|
            0 <= i < fields.len() ==> (#[trigger] jfields(fields)[i]).name == fields[i].name@ && jfields(fields)[i].value
                == jview(fields[i].value),
    decreases fields.len(),
{
    if fields.len() > 0 {
        lemma_jfields(fields.drop_last());
        assert forall|i: int| 0 <= i < fields.len() implies (#[trigger] jfields(fields)[i]).name == fields[i].name@
            && jfields(fields)[i].value == jview(fields[i].value) by {
            if i < fields.len() - 1 {
                assert(fields.drop_last()[i] == fields[i]);
            }
        }
    }
}

/// A JSON value of `serde_json`.
#[verifier::external_type_specification]
#[verifier::external_body]
pub struct ExValue(serde_json::Value);

/// What a JSON value of `serde_json` holds.
pub uninterp spec fn value_view(v: serde_json::Value) -> JView;

/// The JSON value that a text writes, or the message of the error.
pub uninterp spec fn json_value(s: Seq<char>) -> Result<JView, Seq<char>>;

/// What the values hold.
pub open spec fn value_views(items: Seq<serde_json::Value>) -> Seq<JView> {
    items.map_values(|v: serde_json::Value| value_view(v))
}

/// What the entries hold.
pub open spec fn entry_views(entries: Seq<(String, serde_json::Value)>) -> Seq<JField> {
    entries.map_values(|e: (String, serde_json::Value)| JField { name: e.0@, value: value_view(e.1) })
}

/// The outermost layer of a JSON value of `serde_json`.
pub enum ValueLayer {
    Null,
    Bool(bool),
    Number(String),
    Str(String),
    Array(Vec<serde_json::Value>),
    Object(Vec<(String, serde_json::Value)>),
}

/// The kind of value that a layer is of.
pub open spec fn layer_shape(l: ValueLayer) -> JShape {
    match l {
        ValueLayer::Null => JShape::Null,
        ValueLayer::Bool(b) => JShape::Bool(b),
        ValueLayer::Number(n) => JShape::Number(n@),
        ValueLayer::Str(s) => JShape::Str(s@),
        ValueLayer::Array(items) => JShape::Array(value_views(items@)),
        ValueLayer::Object(entries) => JShape::Object(entry_views(entries@)),
    }
}

/// The characters of the outcome of reading a value.
pub open spec fn value_outcome(r: Result<serde_json::Value, String>) -> Result<JView, Seq<char>> {
    match r {
        Ok(v) => Ok(value_view(v)),
        Err(e) => Err(e@),
    }
}

/// `serde_json::from_str` to a value: what the value holds, or the message of
/// the error, is a function of the characters, named `json_value`.
#[verifier::external_body]
fn parse_value(s: &str) -> (r: Result<serde_json::Value, String>)
    ensures
        value_outcome(r) == json_value(s@),
{
    serde_json::from_str::<serde_json::Value>(s).map_err(|err| err.to_string())
}

/// `serde_json::to_string` of a value: the compact text that `value_view`
/// speaks of.
#[verifier::external_body]
fn value_text(v: &serde_json::Value) -> (r: String)
    ensures
        r@ == value_view(*v).text,
{
    serde_json::to_string(v).unwrap_or_default()
}

/// The variants of `serde_json::Value`, told apart. The items of an array and
/// the entries of an object come in the order in which the crate iterates over
/// them, and a number by its `Display` text.
#[verifier::external_body]
fn open_value(v: serde_json::Value) -> (r: ValueLayer)
    ensures
        layer_shape(r) == value_view(v).shape,
{
    match v {
        serde_json::Value::Null => ValueLayer::Null,
        serde_json::Value::Bool(b) => ValueLayer::Bool(b),
        serde_json::Value::Number(n) => ValueLayer::Number(n.to_string()),
        serde_json::Value::String(s) => ValueLayer::Str(s),
        serde_json::Value::Array(items) => ValueLayer::Array(items),
        serde_json::Value::Object(map) => ValueLayer::Object(map.into_iter().collect()),
    }
}

/// The library's own form of a value.
fn to_json(v: serde_json::Value) -> (r: Json)
    ensures
        r@ == value_view(v),
    decreases value_view(v),
{
    let text = value_text(&v);
    let ghost whole = value_view(v);
    let shape = match open_value(v) {
        ValueLayer::Null => JsonShape::Null,
        ValueLayer::Bool(b) => JsonShape::Bool(b),
        ValueLayer::Number(n) => JsonShape::Number(n),
        ValueLayer::Str(s) => JsonShape::Str(s),
        ValueLayer::Array(items) => {
            let ghost all = value_views(items@);
            assert(whole.shape == JShape::Array(all));
            let mut rest = items;
            let mut out: Vec<Json> = Vec::new();
            assert(jviews(out@) =~= all.take(0));
            assert(value_views(rest@) =~= all.skip(0));
            while rest.len() > 0
                invariant
                    whole.shape == JShape::Array(all),
                    whole == value_view(v),
                    out@.len() <= all.len(),
                    value_views(rest@) == all.skip(out@.len() as int),
                    jviews(out@) == all.take(out@.len() as int),
                decreases rest.len(),
            {
                let ghost n = out@.len() as int;
                let ghost before = rest@;
                let item = rest.remove(0);
                proof {
                    assert(value_views(before).len() == before.len());
                    assert(all.skip(n).len() == all.len() - n);
                    assert(value_views(before)[0] == value_view(item));
                    assert(all.skip(n)[0] == all[n]);
                    assert(value_views(rest@) =~= value_views(before).skip(1));
                    assert(all.skip(n).skip(1) =~= all.skip(n + 1));
                    assert(decreases_to!(whole => whole.shape));
                    assert(decreases_to!(whole.shape => whole.shape->Array_0));
                    assert(decreases_to!(all => all[n]));
                }
                let converted = to_json(item);
                let ghost held = out@;
                out.push(converted);
                proof {
                    assert(out@.drop_last() =~= held);
                    assert(jviews(out@) =~= all.take(n + 1));
                }
            }
            assert(all.take(all.len() as int) =~= all);
            JsonShape::Array(out)
        },
        ValueLayer::Object(entries) => {
            let ghost all = entry_views(entries@);
            assert(whole.shape == JShape::Object(all));
            let mut rest = entries;
            let mut out: Vec<JsonField> = Vec::new();
            assert(jfields(out@) =~= all.take(0));
            assert(entry_views(rest@) =~= all.skip(0));
            while rest.len() > 0
                invariant
                    whole.shape == JShape::Object(all),
                    whole == value_view(v),
                    out@.len() <= all.len(),
                    entry_views(rest@) == all.skip(out@.len() as int),
                    jfields(out@) == all.take(out@.len() as int),
                decreases rest.len(),
            {
                let ghost n = out@.len() as int;
                let ghost before = rest@;
                let entry = rest.remove(0);
                proof {
                    assert(entry_views(before).len() == before.len());
                    assert(all.skip(n).len() == all.len() - n);
                    assert(entry_views(before)[0] == JField { name: entry.0@, value: value_view(entry.1) });
                    assert(all.skip(n)[0] == all[n]);
                    assert(entry_views(rest@) =~= entry_views(before).skip(1));
                    assert(all.skip(n).skip(1) =~= all.skip(n + 1));
                    assert(decreases_to!(whole => whole.shape));
                    assert(decreases_to!(whole.shape => whole.shape->Object_0));
                    assert(decreases_to!(all => all[n]));
                    assert(decreases_to!(all[n] => all[n].value));
                }
                let value = to_json(entry.1);
                let ghost held = out@;
                out.push(JsonField { name: entry.0, value });
                proof {
                    assert(out@.drop_last() =~= held);
                    assert(jfields(out@) =~= all.take(n + 1));
                }
            }
            assert(all.take(all.len() as int) =~= all);
            JsonShape::Object(out)
        },
    };
    Json { text, shape }
}

impl Json {
    /// Reads a JSON text.
    pub fn parse(s: &str) -> (r: Result<Json, String>)
        ensures
            match r {
                Ok(j) => json_value(s@) is Ok && j@ == json_value(s@)->Ok_0,
                Err(e) => json_value(s@) is Err && e@ == json_value(s@)->Err_0,
            },
    {
        match parse_value(s) {
            Ok(v) => Ok(to_json(v)),
            Err(e) => Err(e),
        }
    }
}

// ---------------------------------------------------------------------
// Entries and equality
// ---------------------------------------------------------------------

/// The value of the first entry with the name.
pub open spec fn field_of(fields: Seq<JField>, name: Seq<char>) -> Option<JView>
    decreases fields.len(),
{
    if fields.len() == 0 {
        None
    } else if fields[0].name == name {
        Some(fields[0].value)
    } else {
        field_of(fields.skip(1), name)
    }
}

/// What is found under a name is the value of the first entry of that name, and
/// nothing is found exactly where no entry has it. An entry that is added behind the
/// others is found where no other has its name, and hides no other.
pub proof fn law_field_is_the_first_of_its_name(fields: Seq<JField>, name: Seq<char>, more: JField)
    ensures
        match field_of(fields, name) {
            Some(v) => exists|i: int|
                0 <= i < fields.len() && (#[trigger] fields[i]).name == name && fields[i].value == v && forall|j: int|
                    0 <= j < i ==> (#[trigger] fields[j]).name != name,
            None => forall|i: int| 0 <= i < fields.len() ==> (#[trigger] fields[i]).name != name,
        },
        field_of(fields, name) is Some ==> field_of(fields.push(more), name) == field_of(fields, name),
        field_of(fields, name) is None && more.name == name ==> field_of(fields.push(more), name) == Some(more.value),
        more.name != name ==> field_of(fields.push(more), name) == field_of(fields, name),
    decreases fields.len(),
{
    let pushed = fields.push(more);
    if fields.len() == 0 {
        assert(pushed.skip(1) =~= Seq::empty());
        assert(pushed[0] == more);
        assert(field_of(pushed.skip(1), name) is None);
    } else {
        let rest = fields.skip(1);
        law_field_is_the_first_of_its_name(rest, name, more);
        assert(pushed.skip(1) =~= rest.push(more));
        assert(pushed[0] == fields[0]);
        assert forall|i: int| 0 < i < fields.len() implies #[trigger] fields[i] == rest[i - 1] by {}
        if fields[0].name == name {
            assert(fields[0].value == field_of(fields, name)->0);
        } else if let Some(v) = field_of(rest, name) {
            let i = choose|i: int|
                0 <= i < rest.len() && (#[trigger] rest[i]).name == name && rest[i].value == v && forall|j: int|
                    0 <= j < i ==> (#[trigger] rest[j]).name != name;
            assert(fields[i + 1].name == name && fields[i + 1].value == v);
            assert forall|j: int| 0 <= j < i + 1 implies (#[trigger] fields[j]).name != name by {
                if j > 0 {
                    assert(rest[j - 1].name != name);
                }
            }
        }
    }
}

/// The value of the first entry with the name.
pub fn get_field<'a>(fields: &'a Vec<JsonField>, name: &str) -> (r: Option<&'a Json>)
    ensures
        match r {
            Some(v) => field_of(jfields(fields@), name@) == Some(v@),
            None => field_of(jfields(fields@), name@) is None,
        },
        r matches Some(v) ==> exists|i: int| 0 <= i < fields@.len() && (#[trigger] fields@[i]).value == *v,
{
    let ghost all = jfields(fields@);
    let mut i: usize = 0;
    proof {
        lemma_jfields(fields@);
        assert(all.skip(0) =~= all);
    }
    while i < fields.len()
        invariant
            i <= fields.len(),
            all == jfields(fields@),
            all.len() == fields@.len(),
            forall|k: int|
                0 <= k < fields@.len() ==> (#[trigger] all[k]).name == fields@[k].name@ && all[k].value == jview(
                    fields@[k].value,
                ),
            field_of(all, name@) == field_of(all.skip(i as int), name@),
        decreases fields.len() - i,
    {
        assert(all.skip(i as int)[0] == all[i as int]);
        assert(all.skip(i as int).skip(1) =~= all.skip(i + 1));
        if text::str_eq(fields[i].name.as_str(), name) {
            return Some(&fields[i].value);
        }
        i = i + 1;
    }
    None
}

/// Whether the text is that of a zero with a fraction, of either sign.
pub open spec fn is_zero_text(n: Seq<char>) -> bool {
    n == "0.0"@ || n == "-0.0"@
}

/// Whether the two values are the same. Zeros with a fraction are the same
/// whatever their sign.
pub open spec fn same(a: JView, b: JView) -> bool
    decreases a,
{
    match (a.shape, b.shape) {
        (JShape::Null, JShape::Null) => true,
        (JShape::Bool(x), JShape::Bool(y)) => x == y,
        (JShape::Number(x), JShape::Number(y)) => x == y || (is_zero_text(x) && is_zero_text(y)),
        (JShape::Str(x), JShape::Str(y)) => x == y,
        (JShape::Array(x), JShape::Array(y)) => same_items(x, y),
        (JShape::Object(x), JShape::Object(y)) => same_fields(x, y),
        _ => false,
    }
}

/// Whether the items are the same, one by one.
pub open spec fn same_items(a: Seq<JView>, b: Seq<JView>) -> bool
    decreases a,
{
    if a.len() != b.len() {
        false
    } else if a.len() == 0 {
        true
    } else {
        same_items(a.drop_last(), b.drop_last()) && same(a.last(), b.last())
    }
}

/// Whether the entries are the same, one by one.
pub open spec fn same_fields(a: Seq<JField>, b: Seq<JField>) -> bool
    decreases a,
{
    if a.len() != b.len() {
        false
    } else if a.len() == 0 {
        true
    } else {
        same_fields(a.drop_last(), b.drop_last()) && a.last().name == b.last().name && same(a.last().value, b.last().value)
    }
}

/// Whether the two values are the same.
pub fn same_json(a: &Json, b: &Json) -> (r: bool)
    ensures
        r == same(a@, b@),
    decreases *a,
{
    match (&a.shape, &b.shape) {
        (JsonShape::Null, JsonShape::Null) => true,
        (JsonShape::Bool(x), JsonShape::Bool(y)) => *x == *y,
        (JsonShape::Number(x), JsonShape::Number(y)) => text::str_eq(x.as_str(), y.as_str()) || ((text::str_eq(
            x.as_str(),
            "0.0",
        ) || text::str_eq(x.as_str(), "-0.0")) && (text::str_eq(y.as_str(), "0.0") || text::str_eq(
            y.as_str(),
            "-0.0",
        ))),
        (JsonShape::Str(x), JsonShape::Str(y)) => text::str_eq(x.as_str(), y.as_str()),
        (JsonShape::Array(x), JsonShape::Array(y)) => {
            proof {
                lemma_jviews(x@);
                lemma_jviews(y@);
            }
            if x.len() != y.len() {
                return false;
            }
            let ghost p = jviews(x@);
            let ghost q = jviews(y@);
            let mut i: usize = 0;
            assert(p.take(0) =~= Seq::empty());
            assert(q.take(0) =~= Seq::empty());
            while i < x.len()
                invariant
                    i <= x.len(),
                    x.len() == y.len(),
                    a.shape == JsonShape::Array(*x),
                    p == jviews(x@),
                    q == jviews(y@),
                    p.len() == x@.len(),
                    q.len() == y@.len(),
                    forall|k: int| 0 <= k < x@.len() ==> #[trigger] p[k] == jview(x@[k]),
                    forall|k: int| 0 <= k < y@.len() ==> #[trigger] q[k] == jview(y@[k]),
                    same_items(p.take(i as int), q.take(i as int)),
                    same(a@, b@) == same_items(p, q),
                decreases x.len() - i,
            {
                proof {
                    assert(p.take(i + 1).drop_last() =~= p.take(i as int));
                    assert(q.take(i + 1).drop_last() =~= q.take(i as int));
                    assert(decreases_to!(*a => a.shape));
                    assert(decreases_to!(a.shape => a.shape->Array_0));
                    assert(decreases_to!(*x => x@));
                    assert(decreases_to!(x@ => x@[i as int]));
                }
                if !same_json(&x[i], &y[i]) {
                    proof {
                        lemma_items_differ(p, q, i + 1);
                    }
                    return false;
                }
                i = i + 1;
            }
            assert(p.take(p.len() as int) =~= p);
            assert(q.take(q.len() as int) =~= q);
            true
        },
        (JsonShape::Object(x), JsonShape::Object(y)) => {
            proof {
                lemma_jfields(x@);
                lemma_jfields(y@);
            }
            if x.len() != y.len() {
                return false;
            }
            let ghost p = jfields(x@);
            let ghost q = jfields(y@);
            let mut i: usize = 0;
            assert(p.take(0) =~= Seq::empty());
            assert(q.take(0) =~= Seq::empty());
            while i < x.len()
                invariant
                    i <= x.len(),
                    x.len() == y.len(),
                    a.shape == JsonShape::Object(*x),
                    p == jfields(x@),
                    q == jfields(y@),
                    p.len() == x@.len(),
                    q.len() == y@.len(),
                    forall|k: int|
                        0 <= k < x@.len() ==> (#[trigger] p[k]).name == x@[k].name@ && p[k].value == jview(x@[k].value),
                    forall|k: int|
                        0 <= k < y@.len() ==> (#[trigger] q[k]).name == y@[k].name@ && q[k].value == jview(y@[k].value),
                    same_fields(p.take(i as int), q.take(i as int)),
                    same(a@, b@) == same_fields(p, q),
                decreases x.len() - i,
            {
                proof {
                    assert(p.take(i + 1).drop_last() =~= p.take(i as int));
                    assert(q.take(i + 1).drop_last() =~= q.take(i as int));
                    assert(decreases_to!(*a => a.shape));
                    assert(decreases_to!(a.shape => a.shape->Object_0));
                    assert(decreases_to!(*x => x@));
                    assert(decreases_to!(x@ => x@[i as int]));
                    assert(decreases_to!(x@[i as int] => x@[i as int].value));
                }
                if !text::str_eq(x[i].name.as_str(), y[i].name.as_str()) || !same_json(&x[i].value, &y[i].value) {
                    proof {
                        lemma_fields_differ(p, q, i + 1);
                    }
                    return false;
                }
                i = i + 1;
            }
            assert(p.take(p.len() as int) =~= p);
            assert(q.take(q.len() as int) =~= q);
            true
        },
        _ => false,
    }
}

/// A value is the same as itself. Values of different kinds are not the same, and
/// lists are the same exactly where they are as long and the same item by item.
pub proof fn law_same_values(a: JView, x: Seq<JView>, y: Seq<JView>)
    ensures
        same(a, a),
        same_items(x, y) <==> x.len() == y.len() && forall|i: int| 0 <= i < x.len() ==> same(#[trigger] x[i], y[i]),
        forall|b: JView| #[trigger] same(a, b) ==> {
            &&& a.shape is Null <==> b.shape is Null
            &&& a.shape matches JShape::Bool(p) ==> b.shape == JShape::Bool(p)
            &&& a.shape matches JShape::Str(p) ==> b.shape == JShape::Str(p)
            &&& a.shape is Number <==> b.shape is Number
            &&& a.shape is Array <==> b.shape is Array
            &&& a.shape is Object <==> b.shape is Object
        },
    decreases x.len(),
{
    lemma_same_self(a);
    if x.len() == y.len() && x.len() > 0 {
        law_same_values(a, x.drop_last(), y.drop_last());
        if same_items(x, y) {
            assert forall|i: int| 0 <= i < x.len() implies same(#[trigger] x[i], y[i]) by {
                if i < x.len() - 1 {
                    assert(same(x.drop_last()[i], y.drop_last()[i]));
                }
            }
        }
        if forall|i: int| 0 <= i < x.len() ==> same(#[trigger] x[i], y[i]) {
            assert forall|i: int| 0 <= i < x.len() - 1 implies same(#[trigger] x.drop_last()[i], y.drop_last()[i]) by {
                assert(same(x[i], y[i]));
            }
            assert(same(x[x.len() - 1], y[x.len() - 1]));
        }
    }
}

/// A value is the same as itself.
pub proof fn lemma_same_self(a: JView)
    ensures
        same(a, a),
    decreases a,
{
    match a.shape {
        JShape::Array(x) => {
            assert(decreases_to!(a => a.shape));
            assert(decreases_to!(a.shape => a.shape->Array_0));
            lemma_same_items_self(x);
        },
        JShape::Object(x) => {
            assert(decreases_to!(a => a.shape));
            assert(decreases_to!(a.shape => a.shape->Object_0));
            lemma_same_fields_self(x);
        },
        _ => {},
    }
}

proof fn lemma_same_items_self(x: Seq<JView>)
    ensures
        same_items(x, x),
    decreases x,
{
    if x.len() > 0 {
        assert(decreases_to!(x => x[x.len() - 1]));
        lemma_same_self(x.last());
        lemma_same_items_self(x.drop_last());
    }
}

proof fn lemma_same_fields_self(x: Seq<JField>)
    ensures
        same_fields(x, x),
    decreases x,
{
    if x.len() > 0 {
        assert(decreases_to!(x => x[x.len() - 1]));
        assert(decreases_to!(x[x.len() - 1] => x[x.len() - 1].value));
        lemma_same_self(x.last().value);
        lemma_same_fields_self(x.drop_last());
    }
}

proof fn lemma_items_differ(a: Seq<JView>, b: Seq<JView>, n: int)
    requires
        a.len() == b.len(),
        0 <= n <= a.len(),
        !same_items(a.take(n), b.take(n)),
    ensures
        !same_items(a, b),
    decreases a.len(),
{
    if n < a.len() {
        assert(a.drop_last().take(n) =~= a.take(n));
        assert(b.drop_last().take(n) =~= b.take(n));
        lemma_items_differ(a.drop_last(), b.drop_last(), n);
    } else {
        assert(a.take(n) =~= a);
        assert(b.take(n) =~= b);
    }
}

proof fn lemma_fields_differ(a: Seq<JField>, b: Seq<JField>, n: int)
    requires
        a.len() == b.len(),
        0 <= n <= a.len(),
        !same_fields(a.take(n), b.take(n)),
    ensures
        !same_fields(a, b),
    decreases a.len(),
{
    if n < a.len() {
        assert(a.drop_last().take(n) =~= a.take(n));
        assert(b.drop_last().take(n) =~= b.take(n));
        lemma_fields_differ(a.drop_last(), b.drop_last(), n);
    } else {
        assert(a.take(n) =~= a);
        assert(b.take(n) =~= b);
    }
}

/// A copy of the value.
pub fn clone_json(j: &Json) -> (r: Json)
    ensures
        r@ == j@,
    decreases *j,
{
    let shape = match &j.shape {
        JsonShape::Null => JsonShape::Null,
        JsonShape::Bool(b) => JsonShape::Bool(*b),
        JsonShape::Number(n) => JsonShape::Number(n.clone()),
        JsonShape::Str(s) => JsonShape::Str(s.clone()),
        JsonShape::Array(items) => {
            let mut out: Vec<Json> = Vec::new();
            let mut i: usize = 0;
            assert(items@.take(0) =~= out@);
            while i < items.len()
                invariant
                    i <= items@.len(),
                    j.shape == JsonShape::Array(*items),
                    jviews(out@) == jviews(items@.take(i as int)),
                decreases items@.len() - i,
            {
                proof {
                    assert(items@.take(i + 1).drop_last() =~= items@.take(i as int));
                    assert(decreases_to!(*j => j.shape));
                    assert(decreases_to!(j.shape => j.shape->Array_0));
                    assert(decreases_to!(*items => items@));
                    assert(decreases_to!(items@ => items@[i as int]));
                }
                let copy = clone_json(&items[i]);
                let ghost held = out@;
                out.push(copy);
                assert(out@.drop_last() =~= held);
                i = i + 1;
            }
            assert(items@.take(items@.len() as int) =~= items@);
            JsonShape::Array(out)
        },
        JsonShape::Object(fields) => {
            let mut out: Vec<JsonField> = Vec::new();
            let mut i: usize = 0;
            assert(fields@.take(0) =~= out@);
            while i < fields.len()
                invariant
                    i <= fields@.len(),
                    j.shape == JsonShape::Object(*fields),
                    jfields(out@) == jfields(fields@.take(i as int)),
                decreases fields@.len() - i,
            {
                proof {
                    assert(fields@.take(i + 1).drop_last() =~= fields@.take(i as int));
                    assert(decreases_to!(*j => j.shape));
                    assert(decreases_to!(j.shape => j.shape->Object_0));
                    assert(decreases_to!(*fields => fields@));
                    assert(decreases_to!(fields@ => fields@[i as int]));
                    assert(decreases_to!(fields@[i as int] => fields@[i as int].value));
                }
                let value = clone_json(&fields[i].value);
                let ghost held = out@;
                out.push(JsonField { name: fields[i].name.clone(), value });
                assert(out@.drop_last() =~= held);
                i = i + 1;
            }
            assert(fields@.take(fields@.len() as int) =~= fields@);
            JsonShape::Object(out)
        },
    };
    Json { text: j.text.clone(), shape }
}

/// The value of an entry is a part of the entries.
pub proof fn lemma_field_is_part(fields: Seq<JField>, name: Seq<char>)
    ensures
        field_of(fields, name) matches Some(v) ==> decreases_to!(fields => v),
    decreases fields.len(),
{
    if fields.len() > 0 {
        if fields[0].name == name {
            assert(decreases_to!(fields => fields[0]));
            assert(decreases_to!(fields[0] => fields[0].value));
        } else {
            lemma_field_is_part(fields.skip(1), name);
            assert(decreases_to!(fields => fields.skip(1)));
        }
    }
}

} // verus!
