use rpxlib::string_reader::StringReader;

#[test]
fn string_reader_test_read() {
    let data = "abcd1234".as_bytes().to_vec();
    let mut reader = StringReader::new(data);

    assert_eq!(reader.read(0, 1).unwrap(), b"a");
    assert_eq!(reader.read(1, 3).unwrap(), b"bcd");
    assert_eq!(reader.read(4, 4).unwrap(), b"1234");
}

#[test]
fn string_reader_test_read_n_bytes() {
    let data = "abcd1234".as_bytes().to_vec();
    let mut reader = StringReader::new(data);

    assert_eq!(reader.read_n_bytes(1).unwrap(), b"a");
    assert_eq!(reader.read_n_bytes(3).unwrap(), b"bcd");
    assert_eq!(reader.read_n_bytes(4).unwrap(), b"1234");
}

#[test]
fn test_consume() {
    let data = "abcd1234".as_bytes().to_vec();
    let mut reader = StringReader::new(data);

    reader.consume(1);
    assert_eq!(reader.read_n_bytes(3).unwrap(), b"bcd");
    reader.consume(2);
    assert_eq!(reader.read_n_bytes(2).unwrap(), b"34");
}

#[test]
fn test_if_startswith() {
    let data = "abcd1234".as_bytes().to_vec();
    let mut reader = StringReader::new(data);

    assert!(reader.if_startswith(b"abcd").unwrap());
    assert!(!reader.if_startswith(b"1235").unwrap());
}

#[test]
fn test_except() {
    let data = "abcd1234".as_bytes().to_vec();
    let mut reader = StringReader::new(data);

    assert!(reader.except("abcd").is_ok());
    assert!(reader.except("1235").is_err());
    assert_eq!(reader.read_n_bytes(4).unwrap(), b"1234");
}

#[test]
fn test_find() {
    let data = "abcd1234".as_bytes().to_vec();
    let mut reader = StringReader::new(data);

    assert_eq!(reader.find("cd").unwrap(), 2);
    assert_eq!(reader.find("1234").unwrap(), 4);
}

#[test]
fn test_find_absent_is_an_error() {
    let data = "abcd1234".as_bytes().to_vec();
    let mut reader = StringReader::new(data);

    assert!(reader.find("xy").is_err());
}

#[test]
fn test_has_data() {
    let data = "abcd1234".as_bytes().to_vec();
    let mut reader = StringReader::new(data);

    assert!(reader.has_data());
    reader.consume(4);
    assert!(reader.has_data());
    reader.consume(4);
    assert!(!reader.has_data());
}

#[test]
fn test_read_char() {
    let data = "ab".as_bytes().to_vec();
    let mut reader = StringReader::new(data);
    assert_eq!(reader.read_char().unwrap(), b'a');
    assert_eq!(reader.read_char().unwrap(), b'b');
    assert!(reader.read_char().is_err());
}
