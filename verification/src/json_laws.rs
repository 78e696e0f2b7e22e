//! What reading and changing the fields of JSON values means.

use crate::json::{fields_view, Field, JsonView, NumberView};
use vstd::prelude::*;

verus! {

/// A field is found exactly where an object holds it, and is what the object
/// holds.
pub proof fn fields_of_objects_are_read(fields: Map<Seq<char>, JsonView>, key: Seq<char>)
    ensures
        fields.contains_key(key) ==> JsonView::Object(fields).get(key) == Some(fields[key]),
        !fields.contains_key(key) ==> JsonView::Object(fields).get(key) is None,
{
}

/// What is no object has no fields.
pub proof fn only_objects_have_fields(value: JsonView, key: Seq<char>)
    requires
        !(value is Object),
    ensures
        value.get(key) is None,
        value.u64_at(key) is None,
        value.str_at(key) is None,
        value.array_at(key) is None,
{
}

/// A field is read as an unsigned number, as text or as an array exactly where
/// it is one; nothing is converted.
pub proof fn fields_are_read_as_what_they_are(
    value: JsonView,
    key: Seq<char>,
    number: u64,
    text: Seq<char>,
    items: Seq<JsonView>,
)
    ensures
        value.u64_at(key) == Some(number) <==> value.get(key) == Some(
            JsonView::Number(NumberView::Unsigned(number)),
        ),
        value.str_at(key) == Some(text) <==> value.get(key) == Some(JsonView::String(text)),
        value.array_at(key) == Some(items) <==> value.get(key) == Some(JsonView::Array(items)),
        JsonView::unsigned(number) == JsonView::Number(NumberView::Unsigned(number)),
{
}

/// A field that is set is there with its value, and nothing else is changed.
pub proof fn setting_a_field_changes_it_alone(
    fields: Map<Seq<char>, JsonView>,
    key: Seq<char>,
    value: JsonView,
    other: Seq<char>,
)
    requires
        other != key,
    ensures
        JsonView::Object(fields).with_field(key, value) is Object,
        JsonView::Object(fields).with_field(key, value).get(key) == Some(value),
        JsonView::Object(fields).with_field(key, value).get(other) == JsonView::Object(fields).get(
            other,
        ),
{
}

/// A field that is taken away is gone, and nothing else is changed.
pub proof fn taking_a_field_changes_it_alone(
    fields: Map<Seq<char>, JsonView>,
    key: Seq<char>,
    other: Seq<char>,
)
    requires
        other != key,
    ensures
        JsonView::Object(fields).without_field(key) is Object,
        JsonView::Object(fields).without_field(key).get(key) is None,
        JsonView::Object(fields).without_field(key).get(other) == JsonView::Object(fields).get(
            other,
        ),
{
}

/// A default never replaces a field that is there, whatever its value is, and
/// is set where the field is absent.
pub proof fn defaults_only_fill_gaps(
    fields: Map<Seq<char>, JsonView>,
    key: Seq<char>,
    value: JsonView,
)
    ensures
        fields.contains_key(key) ==> JsonView::Object(fields).with_field_if_absent(key, value)
            == JsonView::Object(fields),
        !fields.contains_key(key) ==> JsonView::Object(fields).with_field_if_absent(key, value)
            == JsonView::Object(fields.insert(key, value)),
{
}

/// Setting or taking fields leaves a value that is no object as it is.
pub proof fn what_is_no_object_is_not_changed(value: JsonView, key: Seq<char>, field: JsonView)
    requires
        !(value is Object),
    ensures
        value.with_field(key, field) == value,
        value.without_field(key) == value,
        value.with_field_if_absent(key, field) == value,
{
}

/// An object holds a key exactly where one of its fields has it, and the last
/// such field gives the value.
pub proof fn last_field_with_a_key_counts(fields: Seq<Field>, key: Seq<char>)
    ensures
        fields_view(fields).contains_key(key) <==> exists|i: int|
            0 <= i < fields.len() && (#[trigger] fields[i]).key@ == key,
        forall|i: int|
            0 <= i < fields.len() && (#[trigger] fields[i]).key@ == key && (forall|k: int|
                i < k < fields.len() ==> (#[trigger] fields[k]).key@ != key) ==> fields_view(
                fields,
            )[key] == fields[i].value@,
    decreases fields.len(),
{
    if fields.len() > 0 {
        let front = fields.drop_last();
        let last = fields.len() - 1;
        last_field_with_a_key_counts(front, key);
        assert(fields.last() == fields[last]);
        if fields_view(front).contains_key(key) {
            let i = choose|i: int| 0 <= i < front.len() && (#[trigger] front[i]).key@ == key;
            assert(fields[i].key@ == key);
        }
        assert forall|i: int|
            0 <= i < fields.len() && (#[trigger] fields[i]).key@ == key && (forall|k: int|
                i < k < fields.len() ==> (#[trigger] fields[k]).key@ != key) implies fields_view(
            fields,
        )[key] == fields[i].value@ by {
            if i < last {
                assert(fields[last].key@ != key);
                assert(front[i] == fields[i]);
                assert forall|k: int| i < k < front.len() implies (#[trigger] front[k]).key@
                    != key by {
                    assert(front[k] == fields[k]);
                }
            }
        }
        if exists|i: int| 0 <= i < fields.len() && (#[trigger] fields[i]).key@ == key {
            let i = choose|i: int| 0 <= i < fields.len() && (#[trigger] fields[i]).key@ == key;
            if i < last {
                assert(front[i].key@ == key);
            }
        }
    }
}

} // verus!
