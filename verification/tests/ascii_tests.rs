use gap_buffer::ascii::{Ascii, NotAsciiError};

#[test]
fn from_bytes_accepts_ascii() {
    let bytes: Vec<u8> = b"ASCII and ye shall receive".to_vec();
    let ascii = Ascii::from_bytes(bytes.clone()).unwrap();
    assert_eq!(ascii.as_bytes(), &bytes);
    // ASCII bytes are well-formed UTF-8, so they convert without loss.
    let text = String::from_utf8(ascii.as_bytes().clone()).unwrap();
    assert_eq!(text, "ASCII and ye shall receive");
}

#[test]
fn from_bytes_rejects_non_ascii_and_returns_input() {
    let bytes: Vec<u8> = vec![0xf7, 0xbf, 0xbf, 0xbf];
    let err = Ascii::from_bytes(bytes.clone()).unwrap_err();
    assert_eq!(err, NotAsciiError(bytes));
}

#[test]
fn from_bytes_rejects_one_bad_byte_among_good() {
    let bytes: Vec<u8> = vec![b'o', b'k', 0x80, b'!'];
    let err = Ascii::from_bytes(bytes.clone()).unwrap_err();
    assert_eq!(err.0, bytes);
}

#[test]
fn from_bytes_accepts_empty() {
    let ascii = Ascii::from_bytes(Vec::new()).unwrap();
    assert!(ascii.as_bytes().is_empty());
}

#[test]
fn from_bytes_boundary_values() {
    assert!(Ascii::from_bytes(vec![0x00, 0x7f]).is_ok());
    assert!(Ascii::from_bytes(vec![0x7f, 0x80]).is_err());
}

#[test]
fn from_bytes_unchecked_keeps_bytes() {
    let bytes: Vec<u8> = b"plain".to_vec();
    let ascii = Ascii::from_bytes_unchecked(bytes.clone());
    assert_eq!(ascii.as_bytes(), &bytes);
}
