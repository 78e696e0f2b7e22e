//! JSON text in, compressed JSON out.
//!
//! `serde_json` reads and writes the text, `flate2` compresses it. This module
//! turns the values that `serde_json` hands out into [`Json`] and back.

use crate::error::{CompileError, ErrorView};
use crate::json::{fields_view, items_view, number_value, Field, Json, JsonView};
use flate2::write::GzEncoder;
use flate2::Compression;
use std::io::Write;
use vstd::prelude::*;

verus! {

/// `serde_json::Value`, a JSON value as `serde_json` holds it.
#[verifier::external_type_specification]
#[verifier::external_body]
pub struct ExValue(serde_json::Value);

/// `serde_json::Map`, the fields of an object as `serde_json` holds them.
#[verifier::external_type_specification]
#[verifier::external_body]
#[verifier::reject_recursive_types(K)]
#[verifier::reject_recursive_types(V)]
pub struct ExMap<K, V>(serde_json::Map<K, V>);

/// What a `serde_json::Value` holds.
pub uninterp spec fn value_view(value: serde_json::Value) -> JsonView;

/// What a `serde_json::Map` holds.
pub uninterp spec fn map_view(
    map: serde_json::Map<String, serde_json::Value>,
) -> Map<Seq<char>, JsonView>;

/// What `serde_json::from_str` makes of a text.
pub uninterp spec fn parsed(text: Seq<char>) -> Result<JsonView, serde_json::Error>;

/// What `serde_json::to_vec` makes of a value.
pub uninterp spec fn serialized(value: JsonView) -> Result<Seq<u8>, serde_json::Error>;

/// Where compressing failed.
#[derive(Clone, Copy, Debug, PartialEq, Eq, Structural)]
pub enum GzipStep {
    /// When the bytes were written into the encoder.
    Write,
    /// When the encoder was finished.
    Finish,
}

/// What a gzip encoder at the default level of `flate2` makes of some bytes, or
/// where it fails.
pub uninterp spec fn gzipped(bytes: Seq<u8>) -> Result<Seq<u8>, GzipStep>;

/// The outermost layer of a `serde_json::Value`.
enum Layer {
    Null,
    Bool(bool),
    Number(serde_json::Number),
    String(String),
    Array(Vec<serde_json::Value>),
    Object(serde_json::Map<String, serde_json::Value>),
}

/// What a layer with all that lies under it holds.
spec fn layer_view(layer: Layer) -> JsonView {
    match layer {
        Layer::Null => JsonView::Null,
        Layer::Bool(b) => JsonView::Bool(b),
        Layer::Number(n) => JsonView::Number(number_value(n)),
        Layer::String(s) => JsonView::String(s@),
        Layer::Array(items) => JsonView::Array(
            items@.map_values(|v: serde_json::Value| value_view(v)),
        ),
        Layer::Object(map) => JsonView::Object(map_view(map)),
    }
}

/// Takes a `serde_json::Value` apart by its variant. The parts hold what the
/// value held.
#[verifier::external_body]
fn open_value(value: serde_json::Value) -> (layer: Layer)
    ensures
        layer_view(layer) == value_view(value),
{
    match value {
        serde_json::Value::Null => Layer::Null,
        serde_json::Value::Bool(b) => Layer::Bool(b),
        serde_json::Value::Number(n) => Layer::Number(n),
        serde_json::Value::String(s) => Layer::String(s),
        serde_json::Value::Array(items) => Layer::Array(items),
        serde_json::Value::Object(map) => Layer::Object(map),
    }
}

/// Puts a `serde_json::Value` together by its variant. It holds what the parts
/// held.
#[verifier::external_body]
fn close_value(layer: Layer) -> (value: serde_json::Value)
    ensures
        value_view(value) == layer_view(layer),
{
    match layer {
        Layer::Null => serde_json::Value::Null,
        Layer::Bool(b) => serde_json::Value::Bool(b),
        Layer::Number(n) => serde_json::Value::Number(n),
        Layer::String(s) => serde_json::Value::String(s),
        Layer::Array(items) => serde_json::Value::Array(items),
        Layer::Object(map) => serde_json::Value::Object(map),
    }
}

/// An object without fields.
spec fn no_fields() -> Map<Seq<char>, JsonView> {
    Map::empty()
}

/// `serde_json::Map::new`: a map without fields.
#[verifier::external_body]
fn new_map() -> (fresh: serde_json::Map<String, serde_json::Value>)
    ensures
        map_view(fresh) == no_fields(),
{
    serde_json::Map::new()
}

/// `serde_json::Map::insert`: sets a field, whether or not it was there.
#[verifier::external_body]
fn insert_entry(
    map: &mut serde_json::Map<String, serde_json::Value>,
    key: String,
    value: serde_json::Value,
)
    ensures
        map_view(*final(map)) == map_view(*old(map)).insert(key@, value_view(value)),
{
    map.insert(key, value);
}

/// `serde_json::Map::into_iter`: hands out every field once, and nothing else.
#[verifier::external_body]
fn map_entries(
    map: serde_json::Map<String, serde_json::Value>,
) -> (entries: Vec<(String, serde_json::Value)>)
    ensures
        forall|i: int|
            #![trigger entries@[i]]
            0 <= i < entries@.len() ==> map_view(map).contains_key(entries@[i].0@) && map_view(
                map,
            )[entries@[i].0@] == value_view(entries@[i].1),
        forall|k: Seq<char>| #[trigger]
            map_view(map).contains_key(k) ==> exists|i: int|
                0 <= i < entries@.len() && (#[trigger] entries@[i]).0@ == k,
        forall|i: int, j: int|
            #![trigger entries@[i], entries@[j]]
            0 <= i < j < entries@.len() ==> entries@[i].0@ != entries@[j].0@,
{
    map.into_iter().collect()
}

/// `serde_json::from_str`: the value that a text denotes, or what is wrong with
/// the text. Which of the two, and what it is, the text alone decides; the
/// grammar itself is not spelled out.
#[verifier::external_body]
fn parse_value(text: &str) -> (outcome: Result<serde_json::Value, serde_json::Error>)
    ensures
        match outcome {
            Ok(value) => parsed(text@) matches Ok(v) && v == value_view(value),
            Err(e) => parsed(text@) matches Err(cause) && cause == e,
        },
{
    serde_json::from_str(text)
}

/// `serde_json::to_vec`: the bytes of a value's text. The value alone decides
/// them; how the text is laid out is not spelled out.
#[verifier::external_body]
fn serialize_value(value: &serde_json::Value) -> (outcome: Result<Vec<u8>, serde_json::Error>)
    ensures
        match outcome {
            Ok(bytes) => serialized(value_view(*value)) matches Ok(b) && b == bytes@,
            Err(e) => serialized(value_view(*value)) matches Err(cause) && cause == e,
        },
{
    serde_json::to_vec(value)
}

/// `flate2::write::GzEncoder` at the default level, given all the bytes and
/// then finished: the compressed bytes, or where it failed. The bytes alone
/// decide this; the compression is not spelled out.
#[verifier::external_body]
fn gzip_bytes(bytes: &Vec<u8>) -> (outcome: Result<Vec<u8>, (GzipStep, std::io::Error)>)
    ensures
        match outcome {
            Ok(packed) => gzipped(bytes@) == Ok::<Seq<u8>, GzipStep>(packed@),
            Err((step, _)) => gzipped(bytes@) == Err::<Seq<u8>, GzipStep>(step),
        },
{
    let mut encoder = GzEncoder::new(Vec::new(), Compression::default());
    match encoder.write_all(bytes) {
        Ok(()) => match encoder.finish() {
            Ok(packed) => Ok(packed),
            Err(failure) => Err((GzipStep::Finish, failure)),
        },
        Err(failure) => Err((GzipStep::Write, failure)),
    }
}

/// Fields that agree with a map and cover it mean that map.
proof fn lemma_fields_mean(fields: Seq<Field>, map: Map<Seq<char>, JsonView>)
    requires
        forall|i: int|
            #![trigger fields[i]]
            0 <= i < fields.len() ==> map.contains_key(fields[i].key@) && map[fields[i].key@]
                == fields[i].value@,
    ensures
        forall|k: Seq<char>| #[trigger]
            fields_view(fields).contains_key(k) ==> map.contains_key(k) && map[k] == fields_view(
                fields,
            )[k],
        forall|i: int|
            #![trigger fields[i]]
            0 <= i < fields.len() ==> fields_view(fields).contains_key(fields[i].key@),
    decreases fields.len(),
{
    if fields.len() > 0 {
        let rest = fields.drop_last();
        assert forall|i: int| #![trigger rest[i]] 0 <= i < rest.len() implies map.contains_key(
            rest[i].key@,
        ) && map[rest[i].key@] == rest[i].value@ by {
            assert(rest[i] == fields[i]);
        }
        lemma_fields_mean(rest, map);
        assert(fields.last() == fields[fields.len() - 1]);
        assert forall|k: Seq<char>| #[trigger] fields_view(fields).contains_key(k) implies map.contains_key(k)
            && map[k] == fields_view(fields)[k] by {
            if k != fields.last().key@ {
                assert(fields_view(rest).contains_key(k));
            }
        }
        assert forall|i: int| #![trigger fields[i]] 0 <= i < fields.len() implies fields_view(
            fields,
        ).contains_key(fields[i].key@) by {
            if i < rest.len() {
                assert(rest[i] == fields[i]);
            }
        }
    }
}

/// A map all of whose keys are listed is finite.
proof fn lemma_listed_finite(
    map: Map<Seq<char>, JsonView>,
    entries: Seq<(String, serde_json::Value)>,
)
    requires
        forall|k: Seq<char>| #[trigger]
            map.contains_key(k) ==> exists|i: int|
                0 <= i < entries.len() && (#[trigger] entries[i]).0@ == k,
    ensures
        map.dom().finite(),
{
    let keys = entries.map_values(|e: (String, serde_json::Value)| e.0@);
    assert forall|k: Seq<char>| map.dom().contains(k) implies keys.to_set().contains(k) by {
        let i = choose|i: int| 0 <= i < entries.len() && (#[trigger] entries[i]).0@ == k;
        assert(keys[i] == k);
    }
    vstd::seq_lib::seq_to_set_is_finite(keys);
    vstd::set_lib::lemma_set_subset_finite(keys.to_set(), map.dom());
}

/// A `serde_json::Value` as a [`Json`].
fn decode(value: serde_json::Value) -> (json: Json)
    ensures
        json@ == value_view(value),
    decreases value_view(value),
{
    let ghost whole = value_view(value);
    match open_value(value) {
        Layer::Null => Json::Null,
        Layer::Bool(b) => Json::Bool(b),
        Layer::Number(n) => Json::Number(n),
        Layer::String(s) => Json::String(s),
        Layer::Array(items) => {
            let ghost views = items@.map_values(|v: serde_json::Value| value_view(v));
            let ghost all = items@;
            let mut done: Vec<Json> = Vec::new();
            for next in it: items
                invariant
                    whole == value_view(value),
                    whole == JsonView::Array(views),
                    views == all.map_values(|v: serde_json::Value| value_view(v)),
                    it.seq() == all,
                    done@.len() == it.index(),
                    items_view(done@) == views.take(it.index() as int),
            {
                let ghost k = done@.len() as int;
                assert(next == all[k]);
                assert(views[k] == value_view(next));
                assert(decreases_to!(whole => whole->Array_0));
                assert(decreases_to!(whole => views[k]));
                let json = decode(next);
                done.push(json);
                assert(items_view(done@) =~= views.take(k + 1));
            }
            assert(items_view(done@) =~= views);
            Json::Array(done)
        },
        Layer::Object(map) => {
            let ghost view = map_view(map);
            let entries = map_entries(map);
            let ghost all = entries@;
            proof {
                lemma_listed_finite(view, all);
            }
            let mut done: Vec<Field> = Vec::new();
            for next in it: entries
                invariant
                    whole == value_view(value),
                    whole == JsonView::Object(view),
                    view.dom().finite(),
                    it.seq() == all,
                    done@.len() == it.index(),
                    forall|i: int|
                        #![trigger all[i]]
                        0 <= i < all.len() ==> view.contains_key(all[i].0@) && view[all[i].0@]
                            == value_view(all[i].1),
                    forall|i: int|
                        #![trigger done@[i]]
                        0 <= i < done@.len() ==> done@[i].key@ == all[i].0@ && done@[i].value@
                            == value_view(all[i].1),
            {
                let ghost k = done@.len() as int;
                assert(next == all[k]);
                let (key, inner) = next;
                assert(decreases_to!(whole => whole->Object_0));
                assert(decreases_to!(view => view[key@]));
                let field = Field { key, value: decode(inner) };
                done.push(field);
            }
            proof {
                assert forall|i: int| #![trigger done@[i]] 0 <= i < done@.len() implies view.contains_key(
                    done@[i].key@,
                ) && view[done@[i].key@] == done@[i].value@ by {
                    assert(view.contains_key(all[i].0@));
                }
                lemma_fields_mean(done@, view);
                assert forall|k: Seq<char>| view.contains_key(k) implies fields_view(
                    done@,
                ).contains_key(k) by {
                    let i = choose|i: int| 0 <= i < all.len() && (#[trigger] all[i]).0@ == k;
                    assert(done@[i].key@ == k);
                }
                assert(fields_view(done@) =~= view);
            }
            Json::Object(done)
        },
    }
}

/// A [`Json`] as a `serde_json::Value`.
fn encode(json: Json) -> (value: serde_json::Value)
    ensures
        value_view(value) == json@,
    decreases json,
{
    match json {
        Json::Null => close_value(Layer::Null),
        Json::Bool(b) => close_value(Layer::Bool(b)),
        Json::Number(n) => close_value(Layer::Number(n)),
        Json::String(s) => close_value(Layer::String(s)),
        Json::Array(items) => {
            let ghost all = items@;
            assert(decreases_to!(json => items));
            assert(decreases_to!(items => all));
            let mut done: Vec<serde_json::Value> = Vec::new();
            for next in it: items
                invariant
                    decreases_to!(json => all),
                    it.seq() == all,
                    done@.len() == it.index(),
                    done@.map_values(|v: serde_json::Value| value_view(v)) == items_view(all).take(
                        it.index() as int,
                    ),
            {
                let ghost k = done@.len() as int;
                assert(next == all[k]);
                assert(decreases_to!(all => all[k]));
                let value = encode(next);
                done.push(value);
                assert(done@.map_values(|v: serde_json::Value| value_view(v)) =~= items_view(
                    all,
                ).take(k + 1));
            }
            assert(done@.map_values(|v: serde_json::Value| value_view(v)) =~= items_view(all));
            close_value(Layer::Array(done))
        },
        Json::Object(fields) => {
            let ghost all = fields@;
            assert(decreases_to!(json => fields));
            assert(decreases_to!(fields => all));
            let mut map = new_map();
            assert(all.take(0) =~= Seq::<Field>::empty());
            for next in it: fields
                invariant
                    decreases_to!(json => all),
                    it.seq() == all,
                    map_view(map) == fields_view(all.take(it.index() as int)),
            {
                let ghost k = it.index() as int;
                assert(next == all[k]);
                assert(decreases_to!(all => all[k]));
                assert(decreases_to!(next => next.value));
                let Field { key, value } = next;
                let encoded = encode(value);
                insert_entry(&mut map, key, encoded);
                assert(all.take(k + 1).drop_last() =~= all.take(k));
            }
            assert(all.take(all.len() as int) =~= all);
            close_value(Layer::Object(map))
        },
    }
}

/// The document in a text that was read at `path`, or the error that the text is
/// no JSON.
pub open spec fn document_in(text: Seq<char>, path: Seq<char>) -> Result<JsonView, ErrorView> {
    match parsed(text) {
        Ok(value) => Ok(value),
        Err(cause) => Err(ErrorView::Parse { path, cause }),
    }
}

/// Reads the JSON text of the file at `path`.
pub fn read_json(text: &str, path: &str) -> (outcome: Result<Json, CompileError>)
    ensures
        match document_in(text@, path@) {
            Ok(value) => outcome matches Ok(json) && json@ == value,
            Err(error) => outcome matches Err(e) && e@ == error,
        },
{
    match parse_value(text) {
        Ok(value) => Ok(decode(value)),
        Err(cause) => Err(CompileError::Parse { path: path.to_owned(), cause }),
    }
}

/// The bytes of a document's JSON text.
pub fn render(document: Json) -> (outcome: Result<Vec<u8>, CompileError>)
    ensures
        match serialized(document@) {
            Ok(bytes) => outcome matches Ok(b) && b@ == bytes,
            Err(cause) => outcome matches Err(e) && e@ == (ErrorView::Serialize { cause }),
        },
{
    let value = encode(document);
    match serialize_value(&value) {
        Ok(bytes) => Ok(bytes),
        Err(cause) => Err(CompileError::Serialize { cause }),
    }
}

/// The error says that compressing failed at `step`.
pub open spec fn gzip_failed_at(error: ErrorView, step: GzipStep) -> bool {
    match step {
        GzipStep::Write => error is GzipWrite,
        GzipStep::Finish => error is GzipFinish,
    }
}

/// The bytes of a document, compressed as they go into the database file.
pub fn compress(bytes: &Vec<u8>) -> (outcome: Result<Vec<u8>, CompileError>)
    ensures
        match gzipped(bytes@) {
            Ok(packed) => outcome matches Ok(b) && b@ == packed,
            Err(step) => outcome matches Err(e) && gzip_failed_at(e@, step),
        },
{
    match gzip_bytes(bytes) {
        Ok(packed) => Ok(packed),
        Err((GzipStep::Write, failure)) => Err(CompileError::GzipWrite { failure }),
        Err((GzipStep::Finish, failure)) => Err(CompileError::GzipFinish { failure }),
    }
}

/// A document as it goes into the database file.
#[derive(Debug)]
pub struct Packed {
    /// The compressed bytes.
    pub bytes: Vec<u8>,
    /// How many bytes there were before compression.
    pub uncompressed: usize,
}

/// Writes a document as JSON and compresses it.
pub fn pack(document: Json) -> (outcome: Result<Packed, CompileError>)
    ensures
        match serialized(document@) {
            Ok(text) => match gzipped(text) {
                Ok(bytes) => outcome matches Ok(packed) && packed.bytes@ == bytes
                    && packed.uncompressed == text.len(),
                Err(step) => outcome matches Err(e) && gzip_failed_at(e@, step),
            },
            Err(cause) => outcome matches Err(e) && e@ == (ErrorView::Serialize { cause }),
        },
{
    let text: Vec<u8> = match render(document) {
        Ok(text) => text,
        Err(e) => {
            return Err(e);
        },
    };
    match compress(&text) {
        Ok(bytes) => Ok(Packed { bytes, uncompressed: text.len() }),
        Err(e) => Err(e),
    }
}

} // verus!
