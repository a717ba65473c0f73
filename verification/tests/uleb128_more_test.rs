use johansen_null_eigenspectra::data_storage::uleb128::{
    decode, encode, encode_into, encoded_size, has_continuation, read_from_reader, ByteReader,
    Uleb128Error,
};

#[test]
fn test_codec_boundaries() {
    let values = [
        0u32, 127, 128, 16383, 16384, 2097151, 2097152, 268435455, 268435456, u32::MAX,
    ];
    let sizes = [1usize, 1, 2, 2, 3, 3, 4, 4, 5, 5];
    for (value, size) in values.iter().zip(sizes) {
        let encoded = encode(*value);
        assert_eq!(encoded.len(), size);
        assert_eq!(encoded_size(*value), size);
        assert_eq!(decode(&encoded), Ok((*value, size)));
        // what follows an encoding is not looked at
        let mut longer = encoded.clone();
        longer.extend_from_slice(&[0xFF, 0x00, 0x80]);
        assert_eq!(decode(&longer), Ok((*value, size)));
        // an encoding cut short is incomplete
        assert_eq!(decode(&encoded[..size - 1]), Err(Uleb128Error::IncompleteEncoding));
    }
    assert_eq!(encode(u32::MAX), vec![0xFF, 0xFF, 0xFF, 0xFF, 0x0F]);
}

#[test]
fn test_decode_errors() {
    assert_eq!(decode(&[0x80]), Err(Uleb128Error::IncompleteEncoding));
    assert_eq!(decode(&[]), Err(Uleb128Error::IncompleteEncoding));
    assert_eq!(decode(&[0x80; 5]), Err(Uleb128Error::IncompleteEncoding));
    assert_eq!(decode(&[0x80; 6]), Err(Uleb128Error::EncodingTooLong));
    assert_eq!(decode(&[0x80, 0x80, 0x80, 0x80, 0x80, 0x00]), Err(Uleb128Error::EncodingTooLong));
    // the fifth byte holds four bits
    assert_eq!(decode(&[0xFF, 0xFF, 0xFF, 0xFF, 0x0F]), Ok((u32::MAX, 5)));
    assert_eq!(decode(&[0xFF, 0xFF, 0xFF, 0xFF, 0x10]), Err(Uleb128Error::ValueTooLarge));
    assert_eq!(decode(&[0x80, 0x80, 0x80, 0x80, 0x90, 0x00]), Err(Uleb128Error::ValueTooLarge));
    assert_eq!(decode(&[0x80, 0x80, 0x80, 0x80, 0x7F]), Err(Uleb128Error::ValueTooLarge));
}

#[test]
fn test_decode_accepts_padded_encodings() {
    assert_eq!(decode(&[0x80, 0x00]), Ok((0, 2)));
    assert_eq!(decode(&[0x81, 0x80, 0x80, 0x80, 0x00]), Ok((1, 5)));
}

#[test]
fn test_read_from_reader() {
    let mut bytes = encode(300);
    bytes.extend(encode(0));
    bytes.extend(encode(u32::MAX));
    bytes.push(0x80);
    let mut reader = ByteReader::new(&bytes);
    assert_eq!(reader.position(), 0);
    assert_eq!(read_from_reader(&mut reader), Ok(300));
    assert_eq!(reader.position(), 2);
    assert_eq!(read_from_reader(&mut reader), Ok(0));
    assert_eq!(reader.position(), 3);
    assert_eq!(read_from_reader(&mut reader), Ok(u32::MAX));
    assert_eq!(reader.position(), 8);
    assert_eq!(read_from_reader(&mut reader), Err(Uleb128Error::IncompleteEncoding));
    assert_eq!(reader.position(), 8);

    let long = [0x80u8; 7];
    let mut reader = ByteReader::new(&long);
    assert_eq!(read_from_reader(&mut reader), Err(Uleb128Error::EncodingTooLong));
    assert_eq!(reader.position(), 0);
}

#[test]
fn test_has_continuation() {
    assert!(!has_continuation(0x00));
    assert!(!has_continuation(0x7F));
    assert!(has_continuation(0x80));
    assert!(has_continuation(0xFF));
}

#[test]
fn test_uleb128_messages() {
    assert_eq!(Uleb128Error::ValueTooLarge.message(), "ULEB128 value too large for u32");
    assert_eq!(Uleb128Error::IncompleteEncoding.message(), "Incomplete ULEB128 encoding");
    assert_eq!(Uleb128Error::EncodingTooLong.message(), "ULEB128 encoding too long");
    assert_eq!(
        Uleb128Error::IoError("disk on fire".to_string()).message(),
        "IO error: disk on fire"
    );
}

#[test]
fn test_encode_into() {
    let mut out = vec![9u8, 9];
    encode_into(300, &mut out);
    encode_into(0, &mut out);
    encode_into(u32::MAX, &mut out);
    assert_eq!(out, vec![9, 9, 0xAC, 0x02, 0x00, 0xFF, 0xFF, 0xFF, 0xFF, 0x0F]);
}
