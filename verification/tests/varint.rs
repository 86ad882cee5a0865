use neqo_http3::varint::IncrementalDecoderUint;

fn cases() -> Vec<(Vec<u8>, u64)> {
    vec![
        (vec![0x00], 0),
        (vec![0x01], 1),
        (vec![0x3f], 0x3f),
        (vec![0x40, 0x40], 0x40),
        (vec![0x7f, 0xff], 0x3fff),
        (vec![0x80, 0x00, 0x40, 0x00], 0x4000),
        (vec![0xbf, 0xff, 0xff, 0xff], 0x3fff_ffff),
        (vec![0xc0, 0, 0, 0, 0x40, 0, 0, 0], 0x4000_0000),
        (vec![0xff; 8], 0x3fff_ffff_ffff_ffff),
        // Longer than it needs to be.
        (vec![0xc0, 0, 0, 0, 0, 0, 0, 37], 37),
    ]
}

#[test]
fn byte_by_byte() {
    for (bytes, value) in cases() {
        let mut decoder = IncrementalDecoderUint::default();
        assert_eq!(decoder.min_remaining(), 1);
        for (i, byte) in bytes.iter().enumerate() {
            let result = decoder.consume(&[*byte]);
            assert_eq!(decoder.min_remaining(), bytes.len() - i - 1);
            if i + 1 < bytes.len() {
                assert_eq!(result, None);
            } else {
                assert_eq!(result, Some(value));
            }
        }
    }
}

#[test]
fn as_asked() {
    for (bytes, value) in cases() {
        let mut decoder = IncrementalDecoderUint::default();
        let mut result = decoder.consume(&bytes[..1]);
        if bytes.len() > 1 {
            assert_eq!(result, None);
            result = decoder.consume(&bytes[1..]);
        }
        assert_eq!(result, Some(value));
    }
}

#[test]
fn takes_no_more_than_one_integer() {
    let mut decoder = IncrementalDecoderUint::default();
    // All but the first byte is left alone as long as that byte is not known.
    assert_eq!(decoder.consume(&[0x40, 0xff]), None);
    assert_eq!(decoder.min_remaining(), 1);
    assert_eq!(decoder.consume(&[0x54, 0xff, 0xff]), Some(0x54));
    assert_eq!(decoder.min_remaining(), 0);
    assert_eq!(decoder.consume(&[]), Some(0x54));
}

#[test]
fn equality() {
    let mut one = IncrementalDecoderUint::default();
    let other = IncrementalDecoderUint::default();
    assert_eq!(one, other);
    one.consume(&[0x40]);
    assert_ne!(one, other);
}
