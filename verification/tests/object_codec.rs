use rust_multicodec::codec::CodecType;
use rust_multicodec::codec_prefix;
use rust_multicodec::DecodeResult;
use serde_json::Value;

#[test]
fn registry_codes() {
    assert_eq!(CodecType::JSON.hex(), 0xf01);
    assert_eq!(CodecType::by_hex(0xf01), Some(CodecType::JSON));
    assert_eq!(CodecType::by_hex(0), None);
    assert_eq!(CodecType::by_hex(0xf02), None);
    assert_eq!(CodecType::by_hex(u64::MAX), None);
}

#[test]
fn object_encode_decode_round_trip() {
    let mut fields = serde_json::Map::new();
    fields.insert(
        String::from("message"),
        Value::String(String::from("Live long and prosper")),
    );
    let object = Value::Object(fields);

    let serialized = serde_json::to_vec(&object).unwrap();
    let framed = codec_prefix::add(CodecType::JSON, &serialized).unwrap();

    assert_eq!(codec_prefix::get(framed.as_slice()), Some(CodecType::JSON));
    let payload = codec_prefix::remove(framed.as_slice());
    let decoded: Value = serde_json::from_slice(payload).unwrap();
    assert_eq!(
        decoded.get("message"),
        Some(&Value::String(String::from("Live long and prosper"))),
    );
    assert_eq!(decoded, object);
}

#[test]
fn foreign_bytes_find_no_codec() {
    // bytes produced by no known codec: the lookup reports the absence
    let buffer = [0x2a, 0x13, 0x9c, 0x00, 0x55];
    assert_eq!(codec_prefix::get(&buffer), None);
}

#[test]
fn decode_result_carries_codec_and_data() {
    let result = DecodeResult { data: String::from("payload"), codec: CodecType::JSON };
    assert_eq!(result.codec, CodecType::JSON);
    assert_eq!(result.data, "payload");
}
