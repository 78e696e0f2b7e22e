use datapack::codec::{compress, pack, read_json, render};
use datapack::error::CompileError;
use datapack::json::{Field, Json};
use std::io::Read;

fn json(text: &str) -> Json {
    read_json(text, "test.json").unwrap()
}

fn shown(value: Json) -> String {
    String::from_utf8(render(value).unwrap()).unwrap()
}

fn unpacked(bytes: &[u8]) -> Vec<u8> {
    let mut out = Vec::new();
    flate2::read::GzDecoder::new(bytes).read_to_end(&mut out).unwrap();
    out
}

#[test]
fn every_kind_of_value_survives() {
    let text = r#"{"a":[null,true,false,"x",1,-2,3.5],"b":{"c":{}},"d":[],"e":""}"#;
    assert_eq!(shown(json(text)), text);
}

#[test]
fn fields_are_written_in_key_order() {
    assert_eq!(shown(json(r#"{"b":1,"a":2,"C":3}"#)), r#"{"C":3,"a":2,"b":1}"#);
}

#[test]
fn the_last_of_two_fields_with_one_key_counts() {
    assert_eq!(shown(json(r#"{"a":1,"a":2}"#)), r#"{"a":2}"#);
    let twice = Json::Object(vec![
        Field { key: "a".to_string(), value: Json::unsigned(1) },
        Field { key: "a".to_string(), value: Json::unsigned(2) },
    ]);
    assert_eq!(twice.u64_at("a"), Some(2));
    assert_eq!(shown(twice), r#"{"a":2}"#);
}

#[test]
fn the_largest_unsigned_number_is_read_and_written() {
    let value = json("18446744073709551615");
    assert_eq!(value.as_u64(), Some(u64::MAX));
    assert_eq!(shown(value), "18446744073709551615");
}

#[test]
fn only_whole_numbers_in_range_are_unsigned() {
    assert_eq!(json("7").as_u64(), Some(7));
    assert_eq!(json("-7").as_u64(), None);
    assert_eq!(json("7.0").as_u64(), None);
    assert_eq!(json("7e0").as_u64(), None);
    assert_eq!(json("18446744073709551616").as_u64(), None);
    assert_eq!(json("\"7\"").as_u64(), None);
    assert_eq!(Json::unsigned(7).as_u64(), Some(7));
}

#[test]
fn text_that_is_no_json_is_an_error() {
    match read_json("{", "data/x.json") {
        Err(CompileError::Parse { path, cause }) => {
            assert_eq!(path, "data/x.json");
            assert!(cause.is_eof());
        }
        other => panic!("{:?}", other),
    }
    let e = read_json("[1,]", "data/y.json").unwrap_err();
    assert_eq!(e.message(), "parse data/y.json");
}

#[test]
fn compression_can_be_undone() {
    let bytes: Vec<u8> = b"abcabcabcabcabcabcabcabc".to_vec();
    let packed = compress(&bytes).unwrap();
    assert_eq!(packed[0], 0x1f);
    assert_eq!(packed[1], 0x8b);
    assert_ne!(packed, bytes);
    assert_eq!(unpacked(&packed), bytes);
    assert_eq!(unpacked(&compress(&Vec::new()).unwrap()), Vec::<u8>::new());
}

#[test]
fn equal_bytes_compress_equally() {
    let bytes: Vec<u8> = (0..10_000u32).map(|i| (i % 251) as u8).collect();
    assert_eq!(compress(&bytes).unwrap(), compress(&bytes).unwrap());
}

#[test]
fn a_packed_document_holds_its_text() {
    let packed = pack(json(r#"{"version":"0.01","clubs":[{"id":1}]}"#)).unwrap();
    let text = unpacked(&packed.bytes);
    assert_eq!(text, br#"{"clubs":[{"id":1}],"version":"0.01"}"#.to_vec());
    assert_eq!(packed.uncompressed, text.len());
}

#[test]
fn large_arrays_are_read_and_written() {
    let items: Vec<Json> = (0..50_000u64).map(Json::unsigned).collect();
    let text = shown(Json::Array(items));
    let back = json(&text);
    assert_eq!(back.as_array().unwrap().len(), 50_000);
    assert_eq!(back.as_array().unwrap()[49_999].as_u64(), Some(49_999));
}

#[test]
fn the_two_steps_of_compressing_fail_with_their_own_words() {
    let failure = || std::io::Error::new(std::io::ErrorKind::Other, "full");
    assert_eq!(CompileError::GzipWrite { failure: failure() }.message(), "gzip write");
    assert_eq!(CompileError::GzipFinish { failure: failure() }.message(), "gzip finish");
}
