use rust_multicodec::varint;

#[test]
fn varint_single_byte_values() {
    // values below 128 encode to exactly one byte
    assert_eq!(varint::encode_varint(0), vec![0x00]);
    assert_eq!(varint::encode_varint(1), vec![0x01]);
    assert_eq!(varint::encode_varint(127), vec![0x7f]);
}

#[test]
fn varint_multi_byte_values() {
    assert_eq!(varint::encode_varint(128), vec![0x80, 0x01]);
    assert_eq!(varint::encode_varint(300), vec![0xac, 0x02]);
    assert_eq!(varint::encode_varint(0xf01), vec![0x81, 0x1e]);
    assert_eq!(
        varint::encode_varint(u64::MAX),
        vec![0xff, 0xff, 0xff, 0xff, 0xff, 0xff, 0xff, 0xff, 0xff, 0x01],
    );
}

#[test]
fn varint_decode_cases() {
    // bytes after the terminating byte are not part of the varint
    assert_eq!(varint::decode_varint(&[0x05, 0xaa]), Some((5, 1)));
    assert_eq!(varint::decode_varint(&[0x81, 0x1e]), Some((3841, 2)));

    // a non-minimal encoding still decodes
    assert_eq!(varint::decode_varint(&[0x80, 0x00]), Some((0, 2)));

    // truncated input decodes to nothing
    assert_eq!(varint::decode_varint(&[]), None);
    assert_eq!(varint::decode_varint(&[0x80]), None);

    let max = [0xff, 0xff, 0xff, 0xff, 0xff, 0xff, 0xff, 0xff, 0xff, 0x01];
    assert_eq!(varint::decode_varint(&max), Some((u64::MAX, 10)));

    // one past u64::MAX does not fit
    let over = [0xff, 0xff, 0xff, 0xff, 0xff, 0xff, 0xff, 0xff, 0xff, 0x02];
    assert_eq!(varint::decode_varint(&over), None);
}

#[test]
fn varint_round_trip_values() {
    let values = [0u64, 1, 127, 128, 3841, 1_000_000, u64::MAX];
    for v in values {
        let encoded = varint::encode_varint(v);
        assert_eq!(varint::decode_varint(&encoded), Some((v, encoded.len())));
    }
}
