use gymnasium_rl::utils::{
    deserialize_binary_stream, deserialize_binary_stream_to_bytes, discrete_of, elements_of,
    map_py_type_name_to_rust, ElementKind, StreamError,
};

#[test]
fn stream_is_decoded_and_decompressed() {
    assert_eq!(deserialize_binary_stream_to_bytes("eJzLSM3JyQcABiwCFQ=="), Ok(b"hello".to_vec()));
    assert_eq!(deserialize_binary_stream_to_bytes("eJwDAAAAAAE="), Ok(vec![]));
    assert_eq!(
        deserialize_binary_stream_to_bytes("eJxjZYAAAAAwAAY="),
        Ok(vec![5, 0, 0, 0, 0, 0, 0, 0])
    );
}

#[test]
fn text_that_is_not_base64_is_an_error() {
    assert_eq!(deserialize_binary_stream_to_bytes("not base64!"), Err(StreamError::Encoding));
    assert_eq!(deserialize_binary_stream_to_bytes("eJzLSM3JyQcABiwCFQ"), Err(StreamError::Encoding));
}

#[test]
fn bytes_that_are_not_zlib_are_an_error() {
    assert_eq!(
        deserialize_binary_stream_to_bytes("aGVsbG8gd29ybGQ="),
        Err(StreamError::Compression)
    );
    assert_eq!(deserialize_binary_stream_to_bytes(""), Err(StreamError::Compression));
}

#[test]
fn sender_names_four_kinds() {
    assert_eq!(map_py_type_name_to_rust("int32"), Some(ElementKind::Int32));
    assert_eq!(map_py_type_name_to_rust("int64"), Some(ElementKind::Int64));
    assert_eq!(map_py_type_name_to_rust("float32"), Some(ElementKind::Float32));
    assert_eq!(map_py_type_name_to_rust("float64"), Some(ElementKind::Float64));
    assert_eq!(map_py_type_name_to_rust("uint8"), None);
    assert_eq!(map_py_type_name_to_rust(""), None);
    assert_eq!(map_py_type_name_to_rust("Int64"), None);
}

#[test]
fn elements_are_read_lowest_byte_first() {
    let bytes = vec![0x01, 0x02, 0x03, 0x04, 0x05, 0x06, 0x07, 0x08];
    assert_eq!(elements_of(&bytes, ElementKind::Int64), Ok(vec![0x0807_0605_0403_0201]));
    assert_eq!(elements_of(&bytes, ElementKind::Float64), Ok(vec![0x0807_0605_0403_0201]));
    assert_eq!(elements_of(&bytes, ElementKind::Int32), Ok(vec![0x0403_0201, 0x0807_0605]));
    assert_eq!(elements_of(&bytes, ElementKind::Float32), Ok(vec![0x0403_0201, 0x0807_0605]));
    assert_eq!(elements_of(&vec![0xff; 8], ElementKind::Int64), Ok(vec![u64::MAX]));
    assert_eq!(elements_of(&vec![], ElementKind::Int64), Ok(vec![]));
}

#[test]
fn bytes_that_are_no_whole_number_of_elements_are_an_error() {
    assert_eq!(elements_of(&vec![1, 2, 3, 4, 5], ElementKind::Int32), Err(StreamError::Ragged));
    assert_eq!(elements_of(&vec![1, 2, 3, 4], ElementKind::Int64), Err(StreamError::Ragged));
    assert_eq!(
        deserialize_binary_stream(ElementKind::Int32, "int32", "eJxjZGJmYQUAACgAEA=="),
        Err(StreamError::Ragged)
    );
}

#[test]
fn stream_of_whole_numbers_is_decoded() {
    let words =
        deserialize_binary_stream(ElementKind::Int64, "int64", "eJxjZICAf/8hQIcRwgcAZSMIJg==")
            .unwrap();
    let values: Vec<i64> = words.iter().map(|w| discrete_of(*w)).collect();
    assert_eq!(values, vec![1, -2, 300]);

    let ends = deserialize_binary_stream(ElementKind::Int64, "int64", "eJz7/x8M6hkgoAEAX6wH+Q==")
        .unwrap();
    let values: Vec<i64> = ends.iter().map(|w| discrete_of(*w)).collect();
    assert_eq!(values, vec![i64::MAX, i64::MIN]);

    let short =
        deserialize_binary_stream(ElementKind::Int32, "int32", "eJxjZ2Bg+A8EAAo2BAQ=").unwrap();
    assert_eq!(short, vec![7, 0xffff_ffff]);
}

#[test]
fn stream_of_real_numbers_is_decoded_to_their_bits() {
    let words =
        deserialize_binary_stream(ElementKind::Float64, "float64", "eJxjYACBB/ZgiuHLfgANrgLT")
            .unwrap();
    assert_eq!(words, vec![0x3fe0_0000_0000_0000, 0xbff4_0000_0000_0000]);
    let values: Vec<f64> = words.iter().map(|w| f64::from_bits(*w)).collect();
    assert_eq!(values, vec![0.5, -1.25]);
}

#[test]
fn stream_of_another_type_is_an_error() {
    assert_eq!(
        deserialize_binary_stream(ElementKind::Int64, "float64", "eJxjZYAAAAAwAAY="),
        Err(StreamError::TypeMismatch)
    );
    assert_eq!(
        deserialize_binary_stream(ElementKind::Int64, "int32", "eJxjZYAAAAAwAAY="),
        Err(StreamError::TypeMismatch)
    );
    assert_eq!(
        deserialize_binary_stream(ElementKind::Int64, "unknown", "not base64!"),
        Err(StreamError::TypeMismatch)
    );
}

#[test]
fn faults_of_the_stream_reach_the_caller() {
    assert_eq!(
        deserialize_binary_stream(ElementKind::Int64, "int64", "not base64!"),
        Err(StreamError::Encoding)
    );
    assert_eq!(
        deserialize_binary_stream(ElementKind::Int64, "int64", "aGVsbG8gd29ybGQ="),
        Err(StreamError::Compression)
    );
}

#[test]
fn word_is_read_in_twos_complement() {
    assert_eq!(discrete_of(0), 0);
    assert_eq!(discrete_of(5), 5);
    assert_eq!(discrete_of(i64::MAX as u64), i64::MAX);
    assert_eq!(discrete_of(i64::MAX as u64 + 1), i64::MIN);
    assert_eq!(discrete_of(u64::MAX), -1);
    assert_eq!(discrete_of(u64::MAX - 1), -2);
}
