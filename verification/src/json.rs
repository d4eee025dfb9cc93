//! JSON values, as far as the agent's protocol reads and writes them.
use serde_json::{Number, Value};
use vstd::prelude::*;
use vstd::string::*;

use crate::text;

verus! {

/// `serde_json::Number`, a JSON number.
#[verifier::external_type_specification]
#[verifier::external_body]
pub struct ExNumber(Number);

/// `serde_json::Value`, a JSON value.
#[verifier::external_type_specification]
#[verifier::external_body]
pub struct ExValue(Value);

/// A JSON value. The keys of an object differ from one another.
#[derive(Debug)]
pub enum Json {
    Null,
    Bool(bool),
    /// A whole number that is not negative.
    UInt(u64),
    /// A negative whole number.
    NegInt(i64),
    /// Any other number; its value is never read.
    OtherNumber(Number),
    Str(String),
    Array(Vec<Json>),
    Object(Vec<(String, Json)>),
}

/// A JSON value as plain values.
pub enum JsonTree {
    Null,
    Bool(bool),
    UInt(nat),
    NegInt(int),
    OtherNumber(Number),
    Str(Seq<char>),
    Array(Seq<JsonTree>),
    Object(Seq<(Seq<char>, JsonTree)>),
}

/// What a JSON value stands for.
pub open spec fn tree_of(j: Json) -> JsonTree
    decreases j,
{
    match j {
        Json::Null => JsonTree::Null,
        Json::Bool(b) => JsonTree::Bool(b),
        Json::UInt(n) => JsonTree::UInt(n as nat),
        Json::NegInt(n) => JsonTree::NegInt(n as int),
        Json::OtherNumber(n) => JsonTree::OtherNumber(n),
        Json::Str(s) => JsonTree::Str(s@),
        Json::Array(v) => JsonTree::Array(
            Seq::new(
                v@.len(),
                |i: int|
                    if 0 <= i < v@.len() {
                        tree_of(v@[i])
                    } else {
                        JsonTree::Null
                    },
            ),
        ),
        Json::Object(v) => JsonTree::Object(
            Seq::new(
                v@.len(),
                |i: int|
                    if 0 <= i < v@.len() {
                        (v@[i].0@, tree_of(v@[i].1))
                    } else {
                        (Seq::empty(), JsonTree::Null)
                    },
            ),
        ),
    }
}

impl View for Json {
    type V = JsonTree;

    open spec fn view(&self) -> JsonTree {
        tree_of(*self)
    }
}

/// What an optional JSON value stands for.
pub open spec fn tree_in(j: Option<Json>) -> Option<JsonTree> {
    match j {
        Some(j) => Some(j@),
        None => None,
    }
}

/// What a borrowed optional JSON value stands for.
pub open spec fn tree_at(j: Option<&Json>) -> Option<JsonTree> {
    match j {
        Some(j) => Some(j@),
        None => None,
    }
}

/// What stands first under a key in some fields.
pub open spec fn lookup(fields: Seq<(Seq<char>, JsonTree)>, key: Seq<char>) -> Option<JsonTree>
    decreases fields.len(),
{
    if fields.len() == 0 {
        None
    } else if fields[0].0 == key {
        Some(fields[0].1)
    } else {
        lookup(fields.skip(1), key)
    }
}

/// What stands under a key in an object; nothing in anything else.
pub open spec fn field_of(t: Option<JsonTree>, key: Seq<char>) -> Option<JsonTree> {
    match t {
        Some(JsonTree::Object(fields)) => lookup(fields, key),
        _ => None,
    }
}

/// The text of a string; nothing for anything else.
pub open spec fn str_of(t: Option<JsonTree>) -> Option<Seq<char>> {
    match t {
        Some(JsonTree::Str(s)) => Some(s),
        _ => None,
    }
}

/// The items of an array; nothing for anything else.
pub open spec fn items_of(t: Option<JsonTree>) -> Option<Seq<JsonTree>> {
    match t {
        Some(JsonTree::Array(items)) => Some(items),
        _ => None,
    }
}

/// A whole number that is not negative; nothing for anything else.
pub open spec fn uint_of(t: Option<JsonTree>) -> Option<nat> {
    match t {
        Some(JsonTree::UInt(n)) => Some(n),
        _ => None,
    }
}

/// An optional text, or a text in its place.
pub open spec fn text_or(s: Option<Seq<char>>, other: Seq<char>) -> Seq<char> {
    match s {
        Some(s) => s,
        None => other,
    }
}

/// What stands under a key in an object.
pub fn field<'a>(j: Option<&'a Json>, key: &str) -> (r: Option<&'a Json>)
    ensures
        tree_at(r) == field_of(tree_at(j), key@),
{
    match j {
        Some(Json::Object(fields)) => {
            let n: usize = fields.len();
            let ghost all = j.unwrap()@->Object_0;
            let mut i: usize = 0;
            assert(all.skip(0) =~= all);
            while i < n
                invariant
                    i <= n,
                    n == fields@.len(),
                    all.len() == n,
                    forall|k: int|
                        0 <= k < n ==> #[trigger] all[k] == (fields@[k].0@, tree_of(fields@[k].1)),
                    tree_at(j) == Some(JsonTree::Object(all)),
                    lookup(all, key@) == lookup(all.skip(i as int), key@),
                decreases n - i,
            {
                assert(all.skip(i as int)[0] == all[i as int]);
                if text::same_text(fields[i].0.as_str(), key) {
                    return Some(&fields[i].1);
                }
                assert(all.skip(i as int).skip(1) =~= all.skip(i + 1));
                i += 1;
            }
            None
        },
        _ => None,
    }
}

/// The text of a string.
pub fn as_str<'a>(j: Option<&'a Json>) -> (r: Option<&'a str>)
    ensures
        r is Some == str_of(tree_at(j)) is Some,
        r matches Some(s) ==> str_of(tree_at(j)) == Some(s@),
{
    match j {
        Some(Json::Str(s)) => Some(s.as_str()),
        _ => None,
    }
}

/// The items of an array.
pub fn as_array<'a>(j: Option<&'a Json>) -> (r: Option<&'a Vec<Json>>)
    ensures
        r is Some == items_of(tree_at(j)) is Some,
        r matches Some(v) ==> items_of(tree_at(j)) == Some(trees(v@)),
{
    match j {
        Some(Json::Array(v)) => {
            assert(j.unwrap()@->Array_0 =~= trees(v@));
            Some(v)
        },
        _ => None,
    }
}

/// A whole number that is not negative.
pub fn as_u64(j: Option<&Json>) -> (r: Option<u64>)
    ensures
        r is Some == uint_of(tree_at(j)) is Some,
        r matches Some(n) ==> uint_of(tree_at(j)) == Some(n as nat),
{
    match j {
        Some(Json::UInt(n)) => Some(*n),
        _ => None,
    }
}

/// The text of a string, or a text in its place.
pub fn str_or(j: Option<&Json>, other: &str) -> (r: String)
    ensures
        r@ == text_or(str_of(tree_at(j)), other@),
{
    match as_str(j) {
        Some(s) => s.to_owned(),
        None => other.to_owned(),
    }
}

/// What some JSON values stand for.
pub open spec fn trees(v: Seq<Json>) -> Seq<JsonTree> {
    Seq::new(v.len(), |i: int| v[i]@)
}

/// What the fields of an object stand for.
pub open spec fn pairs(v: Seq<(String, Json)>) -> Seq<(Seq<char>, JsonTree)> {
    Seq::new(v.len(), |i: int| (v[i].0@, v[i].1@))
}

/// A string.
pub fn string(s: &str) -> (r: Json)
    ensures
        r@ == JsonTree::Str(s@),
{
    Json::Str(s.to_owned())
}

/// A whole number.
pub open spec fn integer_tree(n: int) -> JsonTree {
    if n >= 0 {
        JsonTree::UInt(n as nat)
    } else {
        JsonTree::NegInt(n)
    }
}

/// A whole number.
pub fn integer(n: i64) -> (r: Json)
    ensures
        r@ == integer_tree(n as int),
{
    if n >= 0 {
        Json::UInt(n as u64)
    } else {
        Json::NegInt(n)
    }
}

/// An array.
pub fn array(items: Vec<Json>) -> (r: Json)
    ensures
        r@ == JsonTree::Array(trees(items@)),
{
    let ghost v = items@;
    let r = Json::Array(items);
    assert(r@->Array_0 =~= trees(v));
    r
}

/// An object without fields.
pub fn empty_object() -> (r: Json)
    ensures
        r@ == JsonTree::Object(Seq::empty()),
{
    let r = Json::Object(Vec::new());
    assert(r@->Object_0 =~= Seq::empty());
    r
}

/// An object with one more field, at its end.
pub fn with(object: Json, key: &str, value: Json) -> (r: Json)
    requires
        object@ is Object,
    ensures
        r@ == JsonTree::Object(object@->Object_0.push((key@, value@))),
{
    let ghost before = object@->Object_0;
    let ghost v = value@;
    let mut fields: Vec<(String, Json)> = match object {
        Json::Object(fields) => fields,
        _ => Vec::new(),
    };
    assert(pairs(fields@) =~= before);
    fields.push((key.to_owned(), value));
    let r = Json::Object(fields);
    assert(r@->Object_0 =~= before.push((key@, v)));
    r
}

/// The value of `serde_json` that stands for a JSON value.
pub uninterp spec fn value_for(t: JsonTree) -> Value;

/// The constructors of `serde_json::Value` make a value of the same kind and with the
/// same content, part by part. Only that it depends on nothing but the JSON value is
/// claimed of it.
#[verifier::external_body]
fn to_value(j: &Json) -> (r: Value)
    ensures
        r == value_for(j@),
{
    match j {
        Json::Null => Value::Null,
        Json::Bool(b) => Value::from(*b),
        Json::UInt(n) => Value::from(*n),
        Json::NegInt(n) => Value::from(*n),
        Json::OtherNumber(n) => Value::Number(n.clone()),
        Json::Str(s) => Value::from(s.as_str()),
        Json::Array(v) => Value::Array(v.iter().map(to_value).collect()),
        Json::Object(v) => {
            Value::Object(v.iter().map(|f| (f.0.clone(), to_value(&f.1))).collect())
        },
    }
}

/// The text that `serde_json` writes for a value.
pub uninterp spec fn text_for(v: Value) -> Seq<char>;

/// `serde_json::Value::to_string` writes a value as JSON text, without white space
/// between its parts. Only that the same value is always written in the same way is
/// claimed of the text.
#[verifier::external_body]
fn write_value(v: &Value) -> (r: String)
    ensures
        r@ == text_for(*v),
{
    v.to_string()
}

/// The JSON text of a value.
pub open spec fn written(t: JsonTree) -> Seq<char> {
    text_for(value_for(t))
}

/// Write a value as JSON text.
pub fn to_text(j: &Json) -> (r: String)
    ensures
        r@ == written(j@),
{
    write_value(&to_value(j))
}

/// Whether a JSON value is an object of texts and nulls. Its keys differ from one another,
/// and none begins with a dollar sign, as those do that `serde_json` keeps for itself.
pub open spec fn is_flat(t: JsonTree) -> bool {
    t matches JsonTree::Object(fields) && {
        &&& forall|i: int|
            0 <= i < fields.len() ==> (#[trigger] fields[i]).1 is Str || fields[i].1 is Null
        &&& forall|i: int|
            0 <= i < fields.len() && (#[trigger] fields[i]).0.len() > 0 ==> fields[i].0[0] != '$'
        &&& forall|i: int, j: int|
            0 <= i < j < fields.len() ==> (#[trigger] fields[i]).0 != (#[trigger] fields[j]).0
    }
}

/// Whether two JSON values are objects with the same fields, in whatever order.
pub open spec fn same_fields(a: JsonTree, b: JsonTree) -> bool {
    &&& a is Object
    &&& b is Object
    &&& forall|key: Seq<char>| #[trigger]
        lookup(a->Object_0, key) == lookup(b->Object_0, key)
}

/// The value that `serde_json` reads from a text, if it is JSON.
pub uninterp spec fn value_in(text: Seq<char>) -> Option<Value>;

/// `serde_json::from_str` reads a value from a text that is JSON. Of a text that was
/// written for an object of texts and nulls, as `is_flat` has it, it reads that object;
/// nothing else is claimed of it but that the same text is always read in the same way.
#[verifier::external_body]
fn read_value(text: &str) -> (r: Option<Value>)
    ensures
        r == value_in(text@),
        forall|t: JsonTree|
            is_flat(t) && text@ == #[trigger] text_for(value_for(t)) ==> r == Some(value_for(t)),
{
    serde_json::from_str(text).ok()
}

/// The JSON value that a value of `serde_json` stands for.
pub uninterp spec fn tree_for(v: Value) -> JsonTree;

/// The variants of `serde_json::Value` hold the parts of a value. Of a value that was
/// made for an object of texts and nulls they are the fields of that object, in
/// whatever order; nothing else is claimed of them but that they depend on nothing but
/// the value.
#[verifier::external_body]
fn from_value(v: Value) -> (r: Json)
    ensures
        r@ == tree_for(v),
        forall|t: JsonTree| is_flat(t) && v == #[trigger] value_for(t) ==> same_fields(r@, t),
{
    match v {
        Value::Null => Json::Null,
        Value::Bool(b) => Json::Bool(b),
        Value::Number(n) => match (n.as_u64(), n.as_i64()) {
            (Some(n), _) => Json::UInt(n),
            (None, Some(n)) => Json::NegInt(n),
            (None, None) => Json::OtherNumber(n),
        },
        Value::String(s) => Json::Str(s),
        Value::Array(v) => Json::Array(v.into_iter().map(from_value).collect()),
        Value::Object(m) => Json::Object(m.into_iter().map(|f| (f.0, from_value(f.1))).collect()),
    }
}

/// The JSON value in a text, if it is JSON.
pub open spec fn read_from(text: Seq<char>) -> Option<JsonTree> {
    match value_in(text) {
        Some(v) => Some(tree_for(v)),
        None => None,
    }
}

/// Read a JSON value from a text. What was written for an object of texts and nulls is
/// read as that object, its fields in whatever order.
pub fn from_text(text: &str) -> (r: Option<Json>)
    ensures
        tree_in(r) == read_from(text@),
        forall|t: JsonTree|
            is_flat(t) && text@ == #[trigger] written(t) ==> r is Some && same_fields(
                r.unwrap()@,
                t,
            ),
{
    match read_value(text) {
        Some(v) => Some(from_value(v)),
        None => None,
    }
}

/// A text, or null where there is none.
pub open spec fn optional_tree(s: Option<Seq<char>>) -> JsonTree {
    match s {
        Some(s) => JsonTree::Str(s),
        None => JsonTree::Null,
    }
}

/// A text, or null where there is none.
pub fn optional(s: Option<&str>) -> (r: Json)
    ensures
        r@ == optional_tree(text::optional(s)),
{
    match s {
        Some(s) => string(s),
        None => Json::Null,
    }
}

/// What stands under a key is the value of the first field with that key; where no field
/// has it, nothing does.
pub proof fn law_first_field_with_the_key_counts(
    fields: Seq<(Seq<char>, JsonTree)>,
    key: Seq<char>,
    i: int,
)
    requires
        0 <= i <= fields.len(),
        forall|j: int| 0 <= j < i ==> (#[trigger] fields[j]).0 != key,
        i < fields.len() ==> fields[i].0 == key,
    ensures
        i < fields.len() ==> field_of(Some(JsonTree::Object(fields)), key) == Some(fields[i].1),
        i == fields.len() ==> field_of(Some(JsonTree::Object(fields)), key) is None,
    decreases fields.len(),
{
    if fields.len() > 0 && i > 0 {
        assert(fields[0].0 != key);
        let rest = fields.skip(1);
        assert forall|j: int| 0 <= j < i - 1 implies (#[trigger] rest[j]).0 != key by {
            assert(rest[j] == fields[j + 1]);
        }
        law_first_field_with_the_key_counts(rest, key, i - 1);
        if i < fields.len() {
            assert(rest[i - 1] == fields[i]);
        }
    }
}

/// Only an object has fields, only a string a text, only an array items, and only a whole
/// number that is not negative counts as one.
pub proof fn law_values_are_read_for_what_they_are(
    s: Seq<char>,
    items: Seq<JsonTree>,
    n: nat,
    key: Seq<char>,
    other: Seq<char>,
)
    ensures
        str_of(Some(JsonTree::Str(s))) == Some(s),
        str_of(Some(JsonTree::Null)) is None,
        str_of(Some(JsonTree::UInt(n))) is None,
        str_of(Some(JsonTree::Array(items))) is None,
        str_of(None) is None,
        items_of(Some(JsonTree::Array(items))) == Some(items),
        items_of(Some(JsonTree::Str(s))) is None,
        items_of(None) is None,
        uint_of(Some(JsonTree::UInt(n))) == Some(n),
        uint_of(Some(JsonTree::Str(s))) is None,
        uint_of(None) is None,
        field_of(Some(JsonTree::Str(s)), key) is None,
        field_of(Some(JsonTree::Array(items)), key) is None,
        field_of(None, key) is None,
        text_or(Some(s), other) == s,
        text_or(None, other) == other,
        optional_tree(Some(s)) == JsonTree::Str(s),
        optional_tree(None) == JsonTree::Null,
        integer_tree(n as int) == JsonTree::UInt(n),
        n > 0 ==> integer_tree(-(n as int)) == JsonTree::NegInt(-(n as int)),
{
}

/// A value stands for what it holds, part by part.
pub proof fn law_value_stands_for_what_it_holds(j: Json, i: int)
    ensures
        j is Null ==> j@ == JsonTree::Null,
        j is Bool ==> j@ == JsonTree::Bool(j->Bool_0),
        j is UInt ==> j@ == JsonTree::UInt(j->UInt_0 as nat),
        j is NegInt ==> j@ == JsonTree::NegInt(j->NegInt_0 as int),
        j is Str ==> j@ == JsonTree::Str(j->Str_0@),
        j is Array ==> j@ is Array && j@->Array_0.len() == j->Array_0@.len(),
        j is Array && 0 <= i < j->Array_0@.len() ==> j@->Array_0[i] == j->Array_0@[i]@,
        j is Object ==> j@ is Object && j@->Object_0.len() == j->Object_0@.len(),
        j is Object && 0 <= i < j->Object_0@.len() ==> j@->Object_0[i] == (
            j->Object_0@[i].0@,
            j->Object_0@[i].1@,
        ),
{
}

/// A field is read by its key, and a value for what it is; what is not there reads as
/// nothing.
pub proof fn law_parts_are_read(
    j: Option<&Json>,
    key: &str,
    part: Option<&Json>,
    s: Option<&str>,
    n: Option<u64>,
    items: Option<&Vec<Json>>,
    i: int,
)
    requires
        call_ensures(field, (j, key), part),
        call_ensures(as_str, (j,), s),
        call_ensures(as_u64, (j,), n),
        call_ensures(as_array, (j,), items),
    ensures
        j is None ==> part is None && s is None && n is None && items is None,
        j is Some && *j->0 is Str ==> s is Some && s->0@ == (*j->0)->Str_0@,
        j is Some && !(*j->0 is Str) ==> s is None,
        j is Some && *j->0 is UInt ==> n == Some((*j->0)->UInt_0),
        j is Some && !(*j->0 is UInt) ==> n is None,
        j is Some && *j->0 is Array ==> items is Some && items->0@.len() == (*j->0)->Array_0@.len(),
        j is Some && !(*j->0 is Array) ==> items is None,
        j is Some && !(*j->0 is Object) ==> part is None,
        j is Some && *j->0 is Object && 0 <= i < (*j->0)->Object_0@.len() && (
        *j->0)->Object_0@[i].0@ == key@ && (forall|k: int|
            0 <= k < i ==> (#[trigger] (*j->0)->Object_0@[k]).0@ != key@) ==> part is Some
            && part->0@ == (*j->0)->Object_0@[i].1@,
{
    if j is Some {
        let v = *j->0;
        law_value_stands_for_what_it_holds(v, i);
        if v is Object && 0 <= i < v->Object_0@.len() && v->Object_0@[i].0@ == key@ && (forall|
            k: int,
        |
            0 <= k < i ==> (#[trigger] v->Object_0@[k]).0@ != key@) {
            let fields = v@->Object_0;
            assert forall|k: int| 0 <= k < i implies (#[trigger] fields[k]).0 != key@ by {
                assert(v->Object_0@[k].0@ != key@);
            }
            law_first_field_with_the_key_counts(fields, key@, i);
        }
        if v is Array {
            assert(trees(items->0@).len() == items->0@.len());
        }
    }
}

/// A field that is added to an object stands at its end, and those before it stay.
pub proof fn law_field_is_added(object: Json, key: &str, value: Json, r: Json, other: Seq<char>)
    requires
        call_ensures(with, (object, key, value), r),
        object@ is Object,
    ensures
        field_of(Some(object@), key@) is None ==> field_of(Some(r@), key@) == Some(value@),
        field_of(Some(object@), other) is Some ==> field_of(Some(r@), other) == field_of(
            Some(object@),
            other,
        ),
        other != key@ && field_of(Some(object@), other) is None ==> field_of(Some(r@), other)
            is None,
{
    lemma_lookup_push(object@->Object_0, key@, value@, key@);
    lemma_lookup_push(object@->Object_0, key@, value@, other);
}

proof fn lemma_lookup_push(
    fields: Seq<(Seq<char>, JsonTree)>,
    key: Seq<char>,
    value: JsonTree,
    other: Seq<char>,
)
    ensures
        lookup(fields.push((key, value)), other) == (if lookup(fields, other) is Some {
            lookup(fields, other)
        } else if other == key {
            Some(value)
        } else {
            None
        }),
    decreases fields.len(),
{
    let more = fields.push((key, value));
    if fields.len() == 0 {
        assert(more.skip(1) =~= Seq::empty());
        assert(lookup(more.skip(1), other) is None);
    } else {
        assert(more[0] == fields[0]);
        assert(more.skip(1) =~= fields.skip(1).push((key, value)));
        lemma_lookup_push(fields.skip(1), key, value, other);
    }
}

} // verus!
