//! JSON values as the compiler handles them.
//!
//! A [`Json`] is a tree of plain values. What it means is its view, a
//! [`JsonView`], in which the fields of an object are a map: the order in which
//! a `Json` holds them says nothing, and of two fields with one key the later
//! one counts.

use crate::text::same_text;
use vstd::prelude::*;

verus! {

/// `serde_json::Number`: carried from the parsed document to the written one,
/// and read through [`number_as_u64`] alone.
#[verifier::external_type_specification]
#[verifier::external_body]
pub struct ExNumber(serde_json::Number);

/// What a JSON number is.
pub enum NumberView {
    /// A whole number in the range of `u64`, written without fraction or exponent.
    Unsigned(u64),
    /// Any other number.
    Other(serde_json::Number),
}

/// What a JSON value is.
pub enum JsonView {
    Null,
    Bool(bool),
    Number(NumberView),
    String(Seq<char>),
    Array(Seq<JsonView>),
    Object(Map<Seq<char>, JsonView>),
}

impl JsonView {
    /// The field `key` of an object; nothing on any other value.
    pub open spec fn get(self, key: Seq<char>) -> Option<JsonView> {
        match self {
            JsonView::Object(fields) => if fields.contains_key(key) {
                Some(fields[key])
            } else {
                None
            },
            _ => None,
        }
    }

    /// The value as an unsigned number.
    pub open spec fn as_u64(self) -> Option<u64> {
        match self {
            JsonView::Number(NumberView::Unsigned(n)) => Some(n),
            _ => None,
        }
    }

    /// The value as text.
    pub open spec fn as_str(self) -> Option<Seq<char>> {
        match self {
            JsonView::String(s) => Some(s),
            _ => None,
        }
    }

    /// The value as an array.
    pub open spec fn as_array(self) -> Option<Seq<JsonView>> {
        match self {
            JsonView::Array(items) => Some(items),
            _ => None,
        }
    }

    /// The field `key` as an unsigned number.
    pub open spec fn u64_at(self, key: Seq<char>) -> Option<u64> {
        match self.get(key) {
            Some(v) => v.as_u64(),
            None => None,
        }
    }

    /// The field `key` as text.
    pub open spec fn str_at(self, key: Seq<char>) -> Option<Seq<char>> {
        match self.get(key) {
            Some(v) => v.as_str(),
            None => None,
        }
    }

    /// The field `key` as an array.
    pub open spec fn array_at(self, key: Seq<char>) -> Option<Seq<JsonView>> {
        match self.get(key) {
            Some(v) => v.as_array(),
            None => None,
        }
    }

    /// An object with the field `key` set to `value`; any other value unchanged.
    pub open spec fn with_field(self, key: Seq<char>, value: JsonView) -> JsonView {
        match self {
            JsonView::Object(fields) => JsonView::Object(fields.insert(key, value)),
            _ => self,
        }
    }

    /// An object without the field `key`; any other value unchanged.
    pub open spec fn without_field(self, key: Seq<char>) -> JsonView {
        match self {
            JsonView::Object(fields) => JsonView::Object(fields.remove(key)),
            _ => self,
        }
    }

    /// An object in which the field `key` is set to `value` unless it is there
    /// already; any other value unchanged.
    pub open spec fn with_field_if_absent(self, key: Seq<char>, value: JsonView) -> JsonView {
        if self.get(key) is Some {
            self
        } else {
            self.with_field(key, value)
        }
    }

    /// The JSON number `n`.
    pub open spec fn unsigned(n: u64) -> JsonView {
        JsonView::Number(NumberView::Unsigned(n))
    }
}

/// What a `serde_json::Number` stands for.
pub uninterp spec fn number_value(number: serde_json::Number) -> NumberView;

/// `serde_json::Number::as_u64`: the number, where it is one that a `u64` holds.
#[verifier::external_body]
fn number_as_u64(number: &serde_json::Number) -> (n: Option<u64>)
    ensures
        n == match number_value(*number) {
            NumberView::Unsigned(value) => Some(value),
            NumberView::Other(_) => None,
        },
{
    number.as_u64()
}

/// `serde_json::Number::from` on a `u64`: the number that stands for it.
#[verifier::external_body]
fn number_from_u64(n: u64) -> (number: serde_json::Number)
    ensures
        number_value(number) == NumberView::Unsigned(n),
{
    serde_json::Number::from(n)
}

/// A JSON value.
#[derive(Debug)]
pub enum Json {
    Null,
    Bool(bool),
    Number(serde_json::Number),
    String(String),
    Array(Vec<Json>),
    Object(Vec<Field>),
}

/// A field of a JSON object.
#[derive(Debug)]
pub struct Field {
    pub key: String,
    pub value: Json,
}

/// What a `Json` means.
pub open spec fn json_view(json: Json) -> JsonView
    decreases json,
{
    match json {
        Json::Null => JsonView::Null,
        Json::Bool(b) => JsonView::Bool(b),
        Json::Number(n) => JsonView::Number(number_value(n)),
        Json::String(s) => JsonView::String(s@),
        Json::Array(items) => JsonView::Array(items_view(items@)),
        Json::Object(fields) => JsonView::Object(fields_view(fields@)),
    }
}

/// What a sequence of values means, one by one.
pub open spec fn items_view(items: Seq<Json>) -> Seq<JsonView>
    decreases items,
{
    Seq::new(
        items.len(),
        |i: int|
            if 0 <= i < items.len() {
                json_view(items[i])
            } else {
                JsonView::Null
            },
    )
}

/// What the fields of an object mean: later fields replace earlier ones.
pub open spec fn fields_view(fields: Seq<Field>) -> Map<Seq<char>, JsonView>
    decreases fields,
{
    if fields.len() == 0 {
        Map::empty()
    } else {
        fields_view(fields.drop_last()).insert(
            fields.last().key@,
            json_view(fields.last().value),
        )
    }
}

impl View for Json {
    type V = JsonView;

    open spec fn view(&self) -> JsonView {
        json_view(*self)
    }
}

/// The view of an optional reference.
pub open spec fn option_view(value: Option<&Json>) -> Option<JsonView> {
    match value {
        Some(v) => Some(v@),
        None => None,
    }
}

/// `index` is where the field that counts for `key` stands.
spec fn counts_at(fields: Seq<Field>, key: Seq<char>, index: int) -> bool {
    &&& 0 <= index < fields.len()
    &&& fields[index].key@ == key
    &&& forall|k: int| index < k < fields.len() ==> (#[trigger] fields[k]).key@ != key
}

/// The last field with a key is the one that counts for it.
proof fn lemma_field_at(fields: Seq<Field>, key: Seq<char>, index: int)
    requires
        counts_at(fields, key, index),
    ensures
        fields_view(fields).contains_key(key),
        fields_view(fields)[key] == fields[index].value@,
    decreases fields.len(),
{
    if index < fields.len() - 1 {
        assert(fields.last() == fields[fields.len() - 1]);
        lemma_field_at(fields.drop_last(), key, index);
    }
}

/// A key that no field has is not in the view.
proof fn lemma_no_field(fields: Seq<Field>, key: Seq<char>)
    requires
        forall|k: int| 0 <= k < fields.len() ==> (#[trigger] fields[k]).key@ != key,
    ensures
        !fields_view(fields).contains_key(key),
    decreases fields.len(),
{
    if fields.len() > 0 {
        assert(fields.last() == fields[fields.len() - 1]);
        assert forall|k: int| 0 <= k < fields.drop_last().len() implies (
        #[trigger] fields.drop_last()[k]).key@ != key by {
            assert(fields.drop_last()[k] == fields[k]);
        }
        lemma_no_field(fields.drop_last(), key);
    }
}

/// Replacing the field that counts for a key replaces the value of that key.
proof fn lemma_replace_field(fields: Seq<Field>, key: Seq<char>, index: int, field: Field)
    requires
        counts_at(fields, key, index),
        field.key@ == key,
    ensures
        fields_view(fields.update(index, field)) == fields_view(fields).insert(key, field.value@),
    decreases fields.len(),
{
    let updated = fields.update(index, field);
    if index == fields.len() - 1 {
        assert(updated.drop_last() =~= fields.drop_last());
        assert(fields_view(updated) =~= fields_view(fields).insert(key, field.value@));
    } else {
        assert(fields.last() == fields[fields.len() - 1]);
        assert(updated.drop_last() =~= fields.drop_last().update(index, field));
        lemma_replace_field(fields.drop_last(), key, index, field);
        assert(fields_view(updated) =~= fields_view(fields).insert(key, field.value@));
    }
}

/// Dropping a field changes nothing but what its key stands for.
proof fn lemma_drop_field(fields: Seq<Field>, key: Seq<char>, index: int)
    requires
        0 <= index < fields.len(),
        fields[index].key@ == key,
    ensures
        fields_view(fields.remove(index)).remove(key) == fields_view(fields).remove(key),
    decreases fields.len(),
{
    let rest = fields.remove(index);
    if index == fields.len() - 1 {
        assert(rest =~= fields.drop_last());
        assert(fields_view(rest).remove(key) =~= fields_view(fields).remove(key));
    } else {
        lemma_drop_field(fields.drop_last(), key, index);
        assert(rest.drop_last() =~= fields.drop_last().remove(index));
        assert(rest.last() == fields.last());
        let before = fields_view(rest.drop_last());
        let after = fields_view(fields.drop_last());
        let last = fields.last();
        assert(before.insert(last.key@, last.value@).remove(key) =~= after.insert(
            last.key@,
            last.value@,
        ).remove(key)) by {
            assert(before.remove(key).dom() =~= after.remove(key).dom());
            assert forall|k: Seq<char>| k != key && before.contains_key(k) implies before[k]
                == after[k] by {
                assert(before.remove(key)[k] == before[k]);
                assert(after.remove(key)[k] == after[k]);
            }
            assert forall|k: Seq<char>| k != key implies before.contains_key(k)
                == after.contains_key(k) by {
                assert(before.remove(key).contains_key(k) == before.contains_key(k));
                assert(after.remove(key).contains_key(k) == after.contains_key(k));
            }
        }
    }
}

/// Where the field that counts for `key` stands.
fn find_field(fields: &Vec<Field>, key: &str) -> (found: Option<usize>)
    ensures
        match found {
            Some(index) => counts_at(fields@, key@, index as int),
            None => forall|k: int| 0 <= k < fields@.len() ==> (#[trigger] fields@[k]).key@ != key@,
        },
{
    let mut i: usize = fields.len();
    while i > 0
        invariant
            i <= fields@.len(),
            forall|k: int| i <= k < fields@.len() ==> (#[trigger] fields@[k]).key@ != key@,
        decreases i,
    {
        i -= 1;
        if same_text(fields[i].key.as_str(), key) {
            return Some(i);
        }
    }
    None
}

impl Json {
    /// The JSON number `n`.
    pub fn unsigned(n: u64) -> (json: Json)
        ensures
            json@ == JsonView::unsigned(n),
    {
        Json::Number(number_from_u64(n))
    }

    /// The JSON text `s`.
    pub fn text(s: &str) -> (json: Json)
        ensures
            json@ == JsonView::String(s@),
    {
        Json::String(s.to_owned())
    }

    /// The field `key` of an object; nothing on any other value.
    pub fn get(&self, key: &str) -> (value: Option<&Json>)
        ensures
            option_view(value) == self@.get(key@),
    {
        match self {
            Json::Object(fields) => match find_field(fields, key) {
                Some(index) => {
                    proof {
                        lemma_field_at(fields@, key@, index as int);
                    }
                    Some(&fields[index].value)
                },
                None => {
                    proof {
                        lemma_no_field(fields@, key@);
                    }
                    None
                },
            },
            _ => None,
        }
    }

    /// The value as an unsigned number.
    pub fn as_u64(&self) -> (n: Option<u64>)
        ensures
            n == self@.as_u64(),
    {
        match self {
            Json::Number(number) => number_as_u64(number),
            _ => None,
        }
    }

    /// The value as text.
    pub fn as_str(&self) -> (s: Option<&str>)
        ensures
            match s {
                Some(text) => self@.as_str() == Some(text@),
                None => self@.as_str() is None,
            },
    {
        match self {
            Json::String(s) => Some(s.as_str()),
            _ => None,
        }
    }

    /// The value as an array.
    pub fn as_array(&self) -> (items: Option<&Vec<Json>>)
        ensures
            match items {
                Some(list) => self@.as_array() == Some(items_view(list@)),
                None => self@.as_array() is None,
            },
    {
        match self {
            Json::Array(items) => Some(items),
            _ => None,
        }
    }

    /// Whether the value is an object.
    pub fn is_object(&self) -> (object: bool)
        ensures
            object == (self@ is Object),
    {
        match self {
            Json::Object(_) => true,
            _ => false,
        }
    }

    /// The field `key` as an unsigned number.
    pub fn u64_at(&self, key: &str) -> (n: Option<u64>)
        ensures
            n == self@.u64_at(key@),
    {
        match self.get(key) {
            Some(value) => value.as_u64(),
            None => None,
        }
    }

    /// Whether the field `key` is the text `expected`.
    pub fn str_at_is(&self, key: &str, expected: &str) -> (same: bool)
        ensures
            same == (self@.str_at(key@) == Some(expected@)),
    {
        match self.get(key) {
            Some(value) => match value.as_str() {
                Some(text) => same_text(text, expected),
                None => false,
            },
            None => false,
        }
    }

    /// Sets the field `key` of an object; leaves any other value as it is.
    pub fn set_field(&mut self, key: &str, value: Json)
        ensures
            final(self)@ == old(self)@.with_field(key@, value@),
    {
        match self {
            Json::Object(fields) => {
                let ghost before = fields@;
                match find_field(fields, key) {
                    Some(index) => {
                        let field = Field { key: key.to_owned(), value };
                        proof {
                            lemma_replace_field(before, key@, index as int, field);
                        }
                        fields[index] = field;
                    },
                    None => {
                        let field = Field { key: key.to_owned(), value };
                        fields.push(field);
                        assert(fields@.drop_last() =~= before);
                    },
                }
            },
            _ => {},
        }
    }

    /// Sets the field `key` of an object unless it is there; leaves any other
    /// value as it is.
    pub fn set_field_if_absent(&mut self, key: &str, value: Json)
        ensures
            final(self)@ == old(self)@.with_field_if_absent(key@, value@),
    {
        if self.get(key).is_none() {
            self.set_field(key, value);
        }
    }

    /// Takes the field `key` out of an object.
    pub fn take_field(&mut self, key: &str) -> (value: Option<Json>)
        ensures
            final(self)@ == old(self)@.without_field(key@),
            match value {
                Some(v) => old(self)@.get(key@) == Some(v@),
                None => old(self)@.get(key@) is None,
            },
    {
        match self {
            Json::Object(fields) => {
                let ghost before = fields@;
                let mut taken: Option<Json> = None;
                loop
                    invariant
                        fields_view(fields@).remove(key@) == fields_view(before).remove(key@),
                        match taken {
                            Some(v) => fields_view(before).contains_key(key@) && fields_view(
                                before,
                            )[key@] == v@,
                            None => fields@ == before,
                        },
                    ensures
                        fields_view(fields@) == fields_view(before).remove(key@),
                        match taken {
                            Some(v) => fields_view(before).contains_key(key@) && fields_view(
                                before,
                            )[key@] == v@,
                            None => !fields_view(before).contains_key(key@),
                        },
                    decreases fields@.len(),
                {
                    match find_field(fields, key) {
                        Some(index) => {
                            proof {
                                lemma_field_at(fields@, key@, index as int);
                                lemma_drop_field(fields@, key@, index as int);
                            }
                            let field = fields.remove(index);
                            if taken.is_none() {
                                taken = Some(field.value);
                            }
                        },
                        None => {
                            proof {
                                lemma_no_field(fields@, key@);
                                assert(fields_view(fields@) =~= fields_view(fields@).remove(key@));
                            }
                            break ;
                        },
                    }
                }
                taken
            },
            _ => None,
        }
    }
}

} // verus!
