//! The types and the values that a schema accepts.

use vstd::prelude::*;

use crate::json;
use crate::json::JField;
use crate::json::JShape;
use crate::json::JView;
use crate::json::Json;
use crate::json::JsonField;
use crate::json::JsonShape;
use crate::text;

verus! {

/// A type of JSON values.
#[derive(Clone, Copy, Debug, PartialEq, Eq, Structural)]
pub enum JsonType {
    Array,
    Boolean,
    Integer,
    Null,
    Number,
    Object,
    String,
}

impl JsonType {
    /// The place of the type among all types.
    pub open spec fn place(self) -> int {
        match self {
            JsonType::Array => 0,
            JsonType::Boolean => 1,
            JsonType::Integer => 2,
            JsonType::Null => 3,
            JsonType::Number => 4,
            JsonType::Object => 5,
            JsonType::String => 6,
        }
    }

    fn rank(self) -> (r: u8)
        ensures
            r == self.place(),
    {
        match self {
            JsonType::Array => 0,
            JsonType::Boolean => 1,
            JsonType::Integer => 2,
            JsonType::Null => 3,
            JsonType::Number => 4,
            JsonType::Object => 5,
            JsonType::String => 6,
        }
    }

    /// The name of the type in a schema.
    pub open spec fn name(self) -> Seq<char> {
        match self {
            JsonType::Array => "array"@,
            JsonType::Boolean => "boolean"@,
            JsonType::Integer => "integer"@,
            JsonType::Null => "null"@,
            JsonType::Number => "number"@,
            JsonType::Object => "object"@,
            JsonType::String => "string"@,
        }
    }

    /// The type with the name.
    pub fn parse(value: &str) -> (r: Result<JsonType, String>)
        ensures
            match r {
                Ok(t) => type_of(value@) == Ok::<JsonType, Seq<char>>(t),
                Err(e) => type_of(value@) == Err::<JsonType, Seq<char>>(e@),
            },
            match r {
                Ok(t) => t.name() == value@,
                Err(_) => forall|t: JsonType| #[trigger] t.name() != value@,
            },
    {
        proof {
            lemma_type_names();
        }
        let found = if text::str_eq(value, "array") {
            JsonType::Array
        } else if text::str_eq(value, "boolean") {
            JsonType::Boolean
        } else if text::str_eq(value, "integer") {
            JsonType::Integer
        } else if text::str_eq(value, "null") {
            JsonType::Null
        } else if text::str_eq(value, "number") {
            JsonType::Number
        } else if text::str_eq(value, "object") {
            JsonType::Object
        } else if text::str_eq(value, "string") {
            JsonType::String
        } else {
            let mut message = "unsupported JSON Schema type ".to_string();
            message.push_str(value);
            return Err(message);
        };
        assert(found.name() == value@);
        Ok(found)
    }
}

/// The type with the name.
pub open spec fn type_of(value: Seq<char>) -> Result<JsonType, Seq<char>> {
    if exists|t: JsonType| #[trigger] t.name() == value {
        Ok(choose|t: JsonType| #[trigger] t.name() == value)
    } else {
        Err("unsupported JSON Schema type "@ + value)
    }
}

proof fn lemma_type_names()
    ensures
        forall|a: JsonType, b: JsonType| #[trigger] a.name() == #[trigger] b.name() ==> a == b,
{
    reveal_strlit("array");
    reveal_strlit("boolean");
    reveal_strlit("integer");
    reveal_strlit("null");
    reveal_strlit("number");
    reveal_strlit("object");
    reveal_strlit("string");
    assert forall|a: JsonType, b: JsonType| #[trigger] a.name() == #[trigger] b.name() implies a == b by {
        assert(a.name().len() == b.name().len());
        assert(a.name()[0] == b.name()[0]);
        assert(a.name()[1] == b.name()[1]);
        assert(a.name()[2] == b.name()[2]);
    }
}

/// The types that a schema declares, in order.
pub struct TypeSet {
    pub declared: Vec<JsonType>,
}

/// Whether the types are in order, with none twice.
pub open spec fn types_ordered(types: Seq<JsonType>) -> bool {
    forall|i: int, j: int| 0 <= i < j < types.len() ==> (#[trigger] types[i]).place() < (#[trigger] types[j]).place()
}

fn insert_type(types: &mut Vec<JsonType>, t: JsonType)
    requires
        types_ordered(old(types)@),
    ensures
        types_ordered(final(types)@),
        final(types)@.to_set() == old(types)@.to_set().insert(t),
{
    let mut i: usize = 0;
    while i < types.len() && types[i].rank() < t.rank()
        invariant
            i <= types@.len(),
            types@ == old(types)@,
            types_ordered(types@),
            forall|k: int| 0 <= k < i ==> (#[trigger] types@[k]).place() < t.place(),
        decreases types@.len() - i,
    {
        i = i + 1;
    }
    if i < types.len() && types[i].rank() == t.rank() {
        assert(types@[i as int] == t);
        assert(types@.to_set().insert(t) =~= types@.to_set());
        return;
    }
    types.insert(i, t);
    proof {
        let before = old(types)@;
        let after = types@;
        assert(after =~= before.insert(i as int, t));
        assert forall|x: JsonType| after.to_set().contains(x) == before.to_set().insert(t).contains(x) by {
            if after.contains(x) {
                let k = choose|k: int| 0 <= k < after.len() && after[k] == x;
                if k < i {
                    assert(before[k] == x);
                } else if k > i {
                    assert(before[k - 1] == x);
                }
            }
            if before.contains(x) {
                let k = choose|k: int| 0 <= k < before.len() && before[k] == x;
                if k < i {
                    assert(after[k] == x);
                } else {
                    assert(after[k + 1] == x);
                }
            }
            assert(after[i as int] == t);
        }
        assert(after.to_set() =~= before.to_set().insert(t));
    }
}

/// The types that the names stand for, or what is said of the first that stands
/// for none.
pub open spec fn types_of_names(items: Seq<JView>) -> Result<Set<JsonType>, Seq<char>>
    decreases items.len(),
{
    if items.len() == 0 {
        Ok(Set::empty())
    } else {
        match types_of_names(items.drop_last()) {
            Err(e) => Err(e),
            Ok(before) => match items.last().shape {
                JShape::Str(name) => match type_of(name) {
                    Ok(t) => Ok(before.insert(t)),
                    Err(e) => Err(e),
                },
                _ => Err("JSON Schema types must be strings"@),
            },
        }
    }
}

/// The types that a schema declares: one by name, or several in an array.
pub open spec fn types_of(value: Option<JView>) -> Result<Option<Set<JsonType>>, Seq<char>> {
    match value {
        None => Ok(None),
        Some(v) => match v.shape {
            JShape::Str(name) => match type_of(name) {
                Ok(t) => Ok(Some(Set::empty().insert(t))),
                Err(e) => Err(e),
            },
            JShape::Array(items) => match types_of_names(items) {
                Ok(types) => Ok(Some(types)),
                Err(e) => Err(e),
            },
            _ => Err("JSON Schema type must be a string or array"@),
        },
    }
}

proof fn lemma_types_error_stays(items: Seq<JView>, n: int)
    requires
        0 <= n <= items.len(),
        types_of_names(items.take(n)) is Err,
    ensures
        types_of_names(items) == types_of_names(items.take(n)),
    decreases items.len(),
{
    if n < items.len() {
        assert(items.drop_last().take(n) =~= items.take(n));
        lemma_types_error_stays(items.drop_last(), n);
    } else {
        assert(items.take(n) =~= items);
    }
}

impl TypeSet {
    /// The types that are declared.
    pub open spec fn set(self) -> Set<JsonType> {
        self.declared@.to_set()
    }

    /// Whether the types are in order, with none twice.
    pub open spec fn wf(self) -> bool {
        types_ordered(self.declared@)
    }

    /// The types that a schema declares.
    pub fn parse(value: Option<&Json>) -> (r: Result<Option<TypeSet>, String>)
        ensures
            match r {
                Ok(types) => types_of(opt_json(value)) == Ok::<Option<Set<JsonType>>, Seq<char>>(opt_types(types)),
                Err(e) => types_of(opt_json(value)) == Err::<Option<Set<JsonType>>, Seq<char>>(e@),
            },
            r matches Ok(Some(types)) ==> types.wf(),
    {
        match value {
            None => Ok(None),
            Some(v) => {
                let mut declared: Vec<JsonType> = Vec::new();
                assert(declared@.to_set() =~= Set::empty());
                match &v.shape {
                    JsonShape::Str(name) => match JsonType::parse(name.as_str()) {
                        Ok(t) => {
                            insert_type(&mut declared, t);
                            Ok(Some(TypeSet { declared }))
                        },
                        Err(e) => Err(e),
                    },
                    JsonShape::Array(items) => {
                        let ghost all = json::jviews(items@);
                        proof {
                            json::lemma_jviews(items@);
                            assert(all.take(0) =~= Seq::empty());
                        }
                        let mut i: usize = 0;
                        while i < items.len()
                            invariant
                                i <= items@.len(),
                                all == json::jviews(items@),
                                all.len() == items@.len(),
                                forall|k: int| 0 <= k < items@.len() ==> #[trigger] all[k] == json::jview(items@[k]),
                                types_ordered(declared@),
                                types_of_names(all.take(i as int)) == Ok::<Set<JsonType>, Seq<char>>(
                                    declared@.to_set(),
                                ),
                                value == Some(v),
                                v@.shape == JShape::Array(all),
                            decreases items@.len() - i,
                        {
                            proof {
                                assert(all.take(i + 1).drop_last() =~= all.take(i as int));
                                assert(all.take(i + 1).last() == json::jview(items@[i as int]));
                            }
                            match &items[i].shape {
                                JsonShape::Str(name) => match JsonType::parse(name.as_str()) {
                                    Ok(t) => {
                                        insert_type(&mut declared, t);
                                    },
                                    Err(e) => {
                                        proof {
                                            lemma_types_error_stays(all, i + 1);
                                        }
                                        return Err(e);
                                    },
                                },
                                _ => {
                                    proof {
                                        lemma_types_error_stays(all, i + 1);
                                    }
                                    return Err("JSON Schema types must be strings".to_string());
                                },
                            }
                            i = i + 1;
                        }
                        assert(all.take(all.len() as int) =~= all);
                        Ok(Some(TypeSet { declared }))
                    },
                    _ => Err("JSON Schema type must be a string or array".to_string()),
                }
            },
        }
    }

    /// The types that are accepted: every integer is a number.
    pub open spec fn accepted(types: Set<JsonType>) -> Set<JsonType> {
        if types.contains(JsonType::Number) {
            types.insert(JsonType::Integer)
        } else {
            types
        }
    }

    /// Whether values of the type are among those that are declared.
    pub fn declares(&self, t: JsonType) -> (r: bool)
        ensures
            r == self.set().contains(t),
    {
        let mut i: usize = 0;
        while i < self.declared.len()
            invariant
                i <= self.declared@.len(),
                forall|k: int| 0 <= k < i ==> self.declared@[k] != t,
            decreases self.declared@.len() - i,
        {
            if self.declared[i] == t {
                assert(self.declared@[i as int] == t);
                return true;
            }
            i = i + 1;
        }
        false
    }

    /// The types that are accepted.
    pub fn accepted_types(&self) -> (r: TypeSet)
        requires
            self.wf(),
        ensures
            r.set() == TypeSet::accepted(self.set()),
            r.wf(),
    {
        let mut declared: Vec<JsonType> = Vec::new();
        let mut i: usize = 0;
        while i < self.declared.len()
            invariant
                i <= self.declared@.len(),
                declared@ == self.declared@.take(i as int),
            decreases self.declared@.len() - i,
        {
            declared.push(self.declared[i]);
            assert(declared@ =~= self.declared@.take(i + 1));
            i = i + 1;
        }
        assert(declared@ =~= self.declared@);
        if self.declares(JsonType::Number) {
            insert_type(&mut declared, JsonType::Integer);
        }
        TypeSet { declared }
    }
}

/// What the value holds.
pub open spec fn opt_json(value: Option<&Json>) -> Option<JView> {
    match value {
        Some(v) => Some(v@),
        None => None,
    }
}

/// The types that are declared, where any are.
pub open spec fn opt_types(types: Option<TypeSet>) -> Option<Set<JsonType>> {
    match types {
        Some(t) => Some(t.set()),
        None => None,
    }
}

/// Each type is known by its own name.
pub proof fn law_type_names()
    ensures
        type_of("array"@) == Ok::<JsonType, Seq<char>>(JsonType::Array),
        type_of("boolean"@) == Ok::<JsonType, Seq<char>>(JsonType::Boolean),
        type_of("integer"@) == Ok::<JsonType, Seq<char>>(JsonType::Integer),
        type_of("null"@) == Ok::<JsonType, Seq<char>>(JsonType::Null),
        type_of("number"@) == Ok::<JsonType, Seq<char>>(JsonType::Number),
        type_of("object"@) == Ok::<JsonType, Seq<char>>(JsonType::Object),
        type_of("string"@) == Ok::<JsonType, Seq<char>>(JsonType::String),
        forall|name: Seq<char>| #[trigger] type_of(name) is Ok ==> {
            ||| name == "array"@
            ||| name == "boolean"@
            ||| name == "integer"@
            ||| name == "null"@
            ||| name == "number"@
            ||| name == "object"@
            ||| name == "string"@
        },
{
    lemma_type_names();
    assert(JsonType::Array.name() == "array"@);
    assert(JsonType::Boolean.name() == "boolean"@);
    assert(JsonType::Integer.name() == "integer"@);
    assert(JsonType::Null.name() == "null"@);
    assert(JsonType::Number.name() == "number"@);
    assert(JsonType::Object.name() == "object"@);
    assert(JsonType::String.name() == "string"@);
}

/// A schema declares exactly the types that are named under `type`, one by itself
/// or several in an array, and accepts besides them only integers where it declares
/// numbers.
pub proof fn law_declared_types(v: JView, t: JsonType)
    ensures
        types_of(None) == Ok::<Option<Set<JsonType>>, Seq<char>>(None),
        types_of(Some(v)) matches Ok(declared) ==> declared is Some,
        types_of(Some(v)) matches Ok(Some(types)) ==> {
            &&& types.contains(t) <==> (match v.shape {
                JShape::Str(name) => type_of(name) == Ok::<JsonType, Seq<char>>(t),
                JShape::Array(items) => exists|i: int|
                    0 <= i < items.len() && (#[trigger] items[i]).shape is Str && type_of(items[i].shape->Str_0) == Ok::<
                        JsonType,
                        Seq<char>,
                    >(t),
                _ => false,
            })
            &&& TypeSet::accepted(types).contains(t) <==> types.contains(t) || (t == JsonType::Integer
                && types.contains(JsonType::Number))
        },
        !(v.shape is Str) && !(v.shape is Array) ==> types_of(Some(v)) is Err,
{
    if let JShape::Array(items) = v.shape {
        lemma_types_of_names(items, t);
    }
}

proof fn lemma_types_of_names(items: Seq<JView>, t: JsonType)
    ensures
        types_of_names(items) matches Ok(types) ==> (types.contains(t) <==> names_type(items, t)),
    decreases items.len(),
{
    if items.len() > 0 {
        let front = items.drop_last();
        let n = items.len() - 1;
        lemma_types_of_names(front, t);
        assert(items[n] == items.last());
        if names_type(front, t) {
            let i = choose|i: int|
                0 <= i < front.len() && (#[trigger] front[i]).shape is Str && type_of(front[i].shape->Str_0) == Ok::<
                    JsonType,
                    Seq<char>,
                >(t);
            assert(items[i] == front[i]);
        }
        if names_type(items, t) {
            let i = choose|i: int|
                0 <= i < items.len() && (#[trigger] items[i]).shape is Str && type_of(items[i].shape->Str_0) == Ok::<
                    JsonType,
                    Seq<char>,
                >(t);
            if i < n {
                assert(front[i] == items[i]);
            }
        }
    }
}

/// Whether one of the items names the type.
pub open spec fn names_type(items: Seq<JView>, t: JsonType) -> bool {
    exists|i: int|
        0 <= i < items.len() && (#[trigger] items[i]).shape is Str && type_of(items[i].shape->Str_0) == Ok::<
            JsonType,
            Seq<char>,
        >(t)
}

// ---------------------------------------------------------------------
// Values
// ---------------------------------------------------------------------

/// The only values that a schema accepts, in the order of their texts.
pub struct ValueSet {
    pub values: Vec<Json>,
}

/// The values with one more, which stands behind those whose text does not come
/// after its own.
pub open spec fn insert_by_text(values: Seq<JView>, v: JView) -> Seq<JView>
    decreases values.len(),
{
    if values.len() == 0 || !text::before(v.text, values.last().text) {
        values.push(v)
    } else {
        insert_by_text(values.drop_last(), v).push(values.last())
    }
}

/// The values in the order of their texts; those of one text stay as they were.
pub open spec fn sorted_by_text(values: Seq<JView>) -> Seq<JView>
    decreases values.len(),
{
    if values.len() == 0 {
        values
    } else {
        insert_by_text(sorted_by_text(values.drop_last()), values.last())
    }
}

/// The values without those that are the same as the one before.
pub open spec fn deduped(values: Seq<JView>) -> Seq<JView>
    decreases values.len(),
{
    if values.len() == 0 {
        values
    } else {
        let before = deduped(values.drop_last());
        if before.len() > 0 && json::same(values.last(), before.last()) {
            before
        } else {
            before.push(values.last())
        }
    }
}

/// Whether no value stands behind one whose text comes after its own.
pub open spec fn text_ordered(values: Seq<JView>) -> bool {
    forall|i: int, j: int|
        0 <= i < j < values.len() ==> !text::before((#[trigger] values[j]).text, (#[trigger] values[i]).text)
}

proof fn lemma_insert_by_text(values: Seq<JView>, v: JView)
    requires
        text_ordered(values),
    ensures
        text_ordered(insert_by_text(values, v)),
        insert_by_text(values, v).to_multiset() == values.to_multiset().insert(v),
        insert_by_text(values, v).len() == values.len() + 1,
        forall|i: int|
            0 <= i < insert_by_text(values, v).len() ==> insert_by_text(values, v)[i] == v || values.contains(
                #[trigger] insert_by_text(values, v)[i],
            ),
    decreases values.len(),
{
    broadcast use vstd::seq_lib::group_to_multiset_ensures;

    if values.len() == 0 || !text::before(v.text, values.last().text) {
        let after = values.push(v);
        assert forall|i: int, j: int| 0 <= i < j < after.len() implies !text::before(
            (#[trigger] after[j]).text,
            (#[trigger] after[i]).text,
        ) by {
            if j == values.len() {
                lemma_not_after(values, i, v);
            }
        }
        assert forall|i: int| 0 <= i < after.len() implies after[i] == v || values.contains(#[trigger] after[i]) by {
            if i < values.len() {
                assert(values[i] == after[i]);
            }
        }
    } else {
        let front = values.drop_last();
        let inner = insert_by_text(front, v);
        lemma_insert_by_text(front, v);
        let after = inner.push(values.last());
        assert forall|i: int, j: int| 0 <= i < j < after.len() implies !text::before(
            (#[trigger] after[j]).text,
            (#[trigger] after[i]).text,
        ) by {
            if j == inner.len() {
                assert(after[i] == inner[i]);
                if inner[i] == v {
                    text::lemma_before_total(v.text, values.last().text);
                } else {
                    let k = choose|k: int| 0 <= k < front.len() && front[k] == inner[i];
                    assert(values[k] == inner[i]);
                    assert(values[values.len() - 1] == after[j]);
                }
            } else {
                assert(after[i] == inner[i]);
                assert(after[j] == inner[j]);
            }
        }
        assert forall|i: int| 0 <= i < after.len() implies after[i] == v || values.contains(#[trigger] after[i]) by {
            if i < inner.len() {
                assert(after[i] == inner[i]);
                if inner[i] != v {
                    let k = choose|k: int| 0 <= k < front.len() && front[k] == inner[i];
                    assert(values[k] == inner[i]);
                }
            } else {
                assert(values[values.len() - 1] == after[i]);
            }
        }
        assert(values =~= front.push(values.last()));
        assert(after.to_multiset() =~= values.to_multiset().insert(v));
    }
}

proof fn lemma_not_after(values: Seq<JView>, i: int, v: JView)
    requires
        text_ordered(values),
        0 <= i < values.len(),
        !text::before(v.text, values.last().text),
    ensures
        !text::before(v.text, values[i].text),
{
    if text::before(v.text, values[i].text) {
        let last = values.last();
        assert(last == values[values.len() - 1]);
        if i < values.len() - 1 {
            assert(!text::before(last.text, values[i].text));
            text::lemma_before_total(last.text, values[i].text);
            if last.text != values[i].text {
                text::lemma_before_transitive(v.text, values[i].text, last.text);
            }
        }
    }
}

/// Sorting orders the values by their texts and keeps each of them.
pub proof fn law_values_are_sorted(values: Seq<JView>)
    ensures
        text_ordered(sorted_by_text(values)),
        sorted_by_text(values).to_multiset() == values.to_multiset(),
    decreases values.len(),
{
    broadcast use vstd::seq_lib::group_to_multiset_ensures;

    if values.len() > 0 {
        law_values_are_sorted(values.drop_last());
        lemma_insert_by_text(sorted_by_text(values.drop_last()), values.last());
        assert(values =~= values.drop_last().push(values.last()));
    }
}

fn insert_value(values: &mut Vec<Json>, v: Json)
    ensures
        json::jviews(final(values)@) == insert_by_text(json::jviews(old(values)@), v@),
{
    let mut i: usize = values.len();
    let ghost all = json::jviews(values@);
    proof {
        json::lemma_jviews(values@);
        assert(all.take(all.len() as int) =~= all);
    }
    let ghost mut tail = Seq::<JView>::empty();
    assert(insert_by_text(all, v@) =~= insert_by_text(all.take(i as int), v@) + tail);
    while i > 0 && text::str_before(v.text.as_str(), values[i - 1].text.as_str())
        invariant
            i <= values@.len(),
            values@ == old(values)@,
            all == json::jviews(values@),
            all.len() == values@.len(),
            forall|k: int| 0 <= k < values@.len() ==> #[trigger] all[k] == json::jview(values@[k]),
            tail == all.skip(i as int),
            insert_by_text(all, v@) == insert_by_text(all.take(i as int), v@) + tail,
        decreases i,
    {
        proof {
            let part = all.take(i as int);
            assert(part.last() == all[i - 1]);
            assert(part.drop_last() =~= all.take(i - 1));
            assert(insert_by_text(part, v@) == insert_by_text(all.take(i - 1), v@).push(part.last()));
            tail = all.skip(i - 1);
            assert(insert_by_text(all.take(i - 1), v@).push(part.last()) + all.skip(i as int) =~= insert_by_text(
                all.take(i - 1),
                v@,
            ) + tail);
        }
        i = i - 1;
    }
    proof {
        let part = all.take(i as int);
        if i > 0 {
            assert(part.last() == all[i - 1]);
        }
        assert(insert_by_text(part, v@) == part.push(v@));
    }
    let ghost said = v@;
    values.insert(i, v);
    proof {
        json::lemma_jviews(values@);
        assert(json::jviews(values@) =~= all.take(i as int).push(said) + all.skip(i as int));
    }
}

fn sort_by_text(values: &Vec<Json>) -> (r: Vec<Json>)
    ensures
        json::jviews(r@) == sorted_by_text(json::jviews(values@)),
{
    let mut out: Vec<Json> = Vec::new();
    let mut i: usize = 0;
    let ghost all = json::jviews(values@);
    proof {
        json::lemma_jviews(values@);
        assert(all.take(0) =~= Seq::empty());
    }
    while i < values.len()
        invariant
            i <= values@.len(),
            all == json::jviews(values@),
            all.len() == values@.len(),
            forall|k: int| 0 <= k < values@.len() ==> #[trigger] all[k] == json::jview(values@[k]),
            json::jviews(out@) == sorted_by_text(all.take(i as int)),
        decreases values@.len() - i,
    {
        assert(all.take(i + 1).drop_last() =~= all.take(i as int));
        insert_value(&mut out, json::clone_json(&values[i]));
        i = i + 1;
    }
    assert(all.take(all.len() as int) =~= all);
    out
}

fn dedup(values: &Vec<Json>) -> (r: Vec<Json>)
    ensures
        json::jviews(r@) == deduped(json::jviews(values@)),
{
    let mut out: Vec<Json> = Vec::new();
    let mut i: usize = 0;
    let ghost all = json::jviews(values@);
    proof {
        json::lemma_jviews(values@);
        assert(all.take(0) =~= Seq::empty());
    }
    while i < values.len()
        invariant
            i <= values@.len(),
            all == json::jviews(values@),
            all.len() == values@.len(),
            forall|k: int| 0 <= k < values@.len() ==> #[trigger] all[k] == json::jview(values@[k]),
            json::jviews(out@) == deduped(all.take(i as int)),
        decreases values@.len() - i,
    {
        proof {
            assert(all.take(i + 1).drop_last() =~= all.take(i as int));
            json::lemma_jviews(out@);
        }
        if out.len() == 0 || !json::same_json(&values[i], &out[out.len() - 1]) {
            let ghost held = out@;
            out.push(json::clone_json(&values[i]));
            assert(out@.drop_last() =~= held);
        }
        i = i + 1;
    }
    assert(all.take(all.len() as int) =~= all);
    out
}

/// The values that are the same as the constant.
pub open spec fn same_as(values: Seq<JView>, constant: JView) -> Seq<JView> {
    values.filter(|v: JView| json::same(v, constant))
}

fn retain_same(values: &Vec<Json>, constant: &Json) -> (r: Vec<Json>)
    ensures
        json::jviews(r@) == same_as(json::jviews(values@), constant@),
{
    let mut out: Vec<Json> = Vec::new();
    let mut i: usize = 0;
    let ghost all = json::jviews(values@);
    let ghost keep = |v: JView| json::same(v, constant@);
    proof {
        json::lemma_jviews(values@);
        reveal(Seq::filter);
        assert(all.take(0) =~= Seq::empty());
    }
    while i < values.len()
        invariant
            i <= values@.len(),
            all == json::jviews(values@),
            all.len() == values@.len(),
            keep == (|v: JView| json::same(v, constant@)),
            forall|k: int| 0 <= k < values@.len() ==> #[trigger] all[k] == json::jview(values@[k]),
            json::jviews(out@) == all.take(i as int).filter(keep),
        decreases values@.len() - i,
    {
        proof {
            reveal(Seq::filter);
            assert(all.take(i + 1).drop_last() =~= all.take(i as int));
        }
        if json::same_json(&values[i], constant) {
            let ghost held = out@;
            out.push(json::clone_json(&values[i]));
            assert(out@.drop_last() =~= held);
        }
        i = i + 1;
    }
    assert(all.take(all.len() as int) =~= all);
    out
}

/// The values that a schema names, before they are put in order: those of its
/// `enum`, its `const`, or the former as far as they are the same as the latter.
pub open spec fn named_values(fields: Seq<JField>) -> Result<Option<Seq<JView>>, Seq<char>> {
    match (json::field_of(fields, "enum"@), json::field_of(fields, "const"@)) {
        (None, None) => Ok(None),
        (None, Some(constant)) => Ok(Some(seq![constant])),
        (Some(listed), constant) => match listed.shape {
            JShape::Array(values) => match constant {
                None => Ok(Some(values)),
                Some(c) => Ok(Some(same_as(values, c))),
            },
            _ => Err("JSON Schema enum must be an array"@),
        },
    }
}

/// The only values that a schema accepts.
pub open spec fn values_of(fields: Seq<JField>) -> Result<Option<Seq<JView>>, Seq<char>> {
    match named_values(fields) {
        Ok(Some(values)) => Ok(Some(deduped(sorted_by_text(values)))),
        Ok(None) => Ok(None),
        Err(e) => Err(e),
    }
}

/// Whether one of the values is the same as the given one.
pub open spec fn has_same(values: Seq<JView>, v: JView) -> bool {
    exists|j: int| 0 <= j < values.len() && json::same(v, #[trigger] values[j])
}

/// Whether no two neighbours are the same.
pub open spec fn parted(values: Seq<JView>) -> bool {
    forall|j: int| 0 < j < values.len() ==> !#[trigger] same_neighbours(values, j)
}

/// Whether the value at the place is the same as the one before.
pub open spec fn same_neighbours(values: Seq<JView>, j: int) -> bool {
    json::same(values[j], values[j - 1])
}

proof fn lemma_deduped_is_from(values: Seq<JView>, i: int)
    requires
        0 <= i < deduped(values).len(),
    ensures
        values.contains(deduped(values)[i]),
    decreases values.len(),
{
    if values.len() > 0 {
        let front = values.drop_last();
        let before = deduped(front);
        assert(values[values.len() - 1] == values.last());
        if i < before.len() {
            assert(deduped(values)[i] == before[i]);
            lemma_deduped_is_from(front, i);
            let k = choose|k: int| 0 <= k < front.len() && front[k] == before[i];
            assert(values[k] == before[i]);
        } else {
            assert(deduped(values)[i] == values.last());
        }
    }
}

proof fn lemma_deduped_covers(values: Seq<JView>, v: JView)
    requires
        values.contains(v),
    ensures
        has_same(deduped(values), v),
    decreases values.len(),
{
    let k = choose|k: int| 0 <= k < values.len() && values[k] == v;
    let front = values.drop_last();
    let before = deduped(front);
    let after = deduped(values);
    if k < values.len() - 1 {
        assert(front[k] == v);
        lemma_deduped_covers(front, v);
        let j = choose|j: int| 0 <= j < before.len() && json::same(v, #[trigger] before[j]);
        assert(after[j] == before[j]);
    } else if before.len() > 0 && json::same(values.last(), before.last()) {
        assert(after[before.len() - 1] == before.last());
    } else {
        json::lemma_same_self(v);
        assert(after[before.len() as int] == v);
    }
}

proof fn lemma_deduped_is_parted(values: Seq<JView>)
    ensures
        parted(deduped(values)),
    decreases values.len(),
{
    if values.len() > 0 {
        let before = deduped(values.drop_last());
        let after = deduped(values);
        lemma_deduped_is_parted(values.drop_last());
        assert forall|j: int| 0 < j < after.len() implies !#[trigger] same_neighbours(after, j) by {
            if j < before.len() {
                assert(!same_neighbours(before, j));
                assert(after[j] == before[j] && after[j - 1] == before[j - 1]);
            }
        }
    }
}

/// A schema with `enum` or `const` accepts exactly the values that these name, as
/// far as they agree; without either it names none. Each value that is kept is one
/// that is named, each that is named is the same as one that is kept, and no two
/// neighbours are the same.
pub proof fn law_accepted_values(fields: Seq<JField>)
    ensures
        ({
            let listed = json::field_of(fields, "enum"@);
            let constant = json::field_of(fields, "const"@);
            &&& values_of(fields) == Ok::<Option<Seq<JView>>, Seq<char>>(None) <==> listed is None && constant is None
            &&& values_of(fields) is Err <==> (listed matches Some(v) && !(v.shape is Array))
            &&& values_of(fields) matches Ok(Some(kept)) ==> {
                &&& forall|i: int| 0 <= i < kept.len() ==> is_named_value(fields, #[trigger] kept[i])
                &&& forall|v: JView| #[trigger] is_named_value(fields, v) ==> has_same(kept, v)
                &&& parted(kept)
            }
        }),
{
    if let Ok(Some(values)) = named_values(fields) {
        let sorted = sorted_by_text(values);
        let kept = deduped(sorted);
        lemma_deduped_is_parted(sorted);
        assert forall|i: int| 0 <= i < kept.len() implies is_named_value(fields, #[trigger] kept[i]) by {
            lemma_deduped_is_from(sorted, i);
            lemma_sorted_contains(values, kept[i]);
            lemma_named_value(fields, kept[i]);
        }
        assert forall|v: JView| #[trigger] is_named_value(fields, v) implies has_same(kept, v) by {
            lemma_named_value(fields, v);
            lemma_sorted_contains(values, v);
            lemma_deduped_covers(sorted, v);
        }
    }
}

proof fn lemma_sorted_contains(values: Seq<JView>, v: JView)
    ensures
        sorted_by_text(values).contains(v) <==> values.contains(v),
{
    broadcast use vstd::seq_lib::group_to_multiset_ensures;

    law_values_are_sorted(values);
    let sorted = sorted_by_text(values);
    assert(sorted.contains(v) <==> sorted.to_multiset().count(v) > 0);
    assert(values.contains(v) <==> values.to_multiset().count(v) > 0);
}

proof fn lemma_same_as(values: Seq<JView>, c: JView, v: JView)
    ensures
        same_as(values, c).contains(v) <==> values.contains(v) && json::same(v, c),
    decreases values.len(),
{
    reveal(Seq::filter);
    if values.len() > 0 {
        let front = values.drop_last();
        let kept = same_as(front, c);
        lemma_same_as(front, c, v);
        assert(values =~= front.push(values.last()));
        assert(front.push(values.last()).contains(v) <==> front.contains(v) || v == values.last()) by {
            lemma_push_contains(front, values.last(), v);
        }
        if json::same(values.last(), c) {
            assert(same_as(values, c) =~= kept.push(values.last()));
            lemma_push_contains(kept, values.last(), v);
        } else {
            assert(same_as(values, c) =~= kept);
        }
    } else {
        assert(same_as(values, c) =~= Seq::empty());
    }
}

proof fn lemma_push_contains(s: Seq<JView>, x: JView, v: JView)
    ensures
        s.push(x).contains(v) <==> s.contains(v) || v == x,
{
    let t = s.push(x);
    assert(t[s.len() as int] == x);
    if s.contains(v) {
        let i = choose|i: int| 0 <= i < s.len() && s[i] == v;
        assert(t[i] == v);
    }
    if t.contains(v) {
        let i = choose|i: int| 0 <= i < t.len() && t[i] == v;
        if i < s.len() {
            assert(s[i] == v);
        }
    }
}

proof fn lemma_named_value(fields: Seq<JField>, v: JView)
    requires
        named_values(fields) matches Ok(Some(_)),
    ensures
        named_values(fields)->Ok_0->0.contains(v) <==> is_named_value(fields, v),
{
    match (json::field_of(fields, "enum"@), json::field_of(fields, "const"@)) {
        (Some(listed), Some(c)) => {
            lemma_same_as(listed.shape->Array_0, c, v);
        },
        (None, Some(c)) => {
            lemma_push_contains(Seq::empty(), c, v);
            assert(seq![c] =~= Seq::<JView>::empty().push(c));
        },
        _ => {},
    }
}

/// Whether `enum` lists the value and `const` is the same, as far as these stand.
pub open spec fn is_named_value(fields: Seq<JField>, v: JView) -> bool {
    match (json::field_of(fields, "enum"@), json::field_of(fields, "const"@)) {
        (None, None) => false,
        (None, Some(c)) => v == c,
        (Some(listed), None) => listed.shape is Array && listed.shape->Array_0.contains(v),
        (Some(listed), Some(c)) => listed.shape is Array && listed.shape->Array_0.contains(v) && json::same(v, c),
    }
}

/// The values that are accepted, where any are named.
pub open spec fn opt_values(values: Option<ValueSet>) -> Option<Seq<JView>> {
    match values {
        Some(v) => Some(json::jviews(v.values@)),
        None => None,
    }
}

impl ValueSet {
    /// The only values that a schema accepts.
    pub fn parse(object: &Vec<JsonField>) -> (r: Result<Option<ValueSet>, String>)
        ensures
            match r {
                Ok(values) => values_of(json::jfields(object@)) == Ok::<Option<Seq<JView>>, Seq<char>>(
                    opt_values(values),
                ),
                Err(e) => values_of(json::jfields(object@)) == Err::<Option<Seq<JView>>, Seq<char>>(e@),
            },
    {
        let listed = json::get_field(object, "enum");
        let constant = json::get_field(object, "const");
        match listed {
            None => match constant {
                None => Ok(None),
                Some(c) => {
                    let mut one: Vec<Json> = Vec::new();
                    one.push(json::clone_json(c));
                    proof {
                        json::lemma_jviews(one@);
                        assert(json::jviews(one@) =~= seq![c@]);
                    }
                    Ok(Some(ValueSet { values: dedup(&sort_by_text(&one)) }))
                },
            },
            Some(list) => match &list.shape {
                JsonShape::Array(values) => match constant {
                    None => Ok(Some(ValueSet { values: dedup(&sort_by_text(values)) })),
                    Some(c) => Ok(Some(ValueSet { values: dedup(&sort_by_text(&retain_same(values, c))) })),
                },
                _ => Err("JSON Schema enum must be an array".to_string()),
            },
        }
    }
}

/// What is wrong with a declared type is told in words; the first wrong name is
/// the one that is told.
pub proof fn law_type_faults_in_words(value: JView, items: Seq<JView>, name: Seq<char>)
    ensures
        !(value.shape is Str) && !(value.shape is Array) ==> types_of(Some(value)) == Err::<
            Option<Set<JsonType>>,
            Seq<char>,
        >("JSON Schema type must be a string or array"@),
        (forall|t: JsonType| #[trigger] t.name() != name) ==> type_of(name) == Err::<JsonType, Seq<char>>(
            "unsupported JSON Schema type "@ + name,
        ),
        types_of_names(items) is Ok && !(value.shape is Str) ==> types_of_names(items.push(value)) == Err::<
            Set<JsonType>,
            Seq<char>,
        >("JSON Schema types must be strings"@),
        types_of_names(items) is Err ==> types_of_names(items.push(value)) == types_of_names(items),
{
    assert(items.push(value).drop_last() =~= items);
}

} // verus!
