use ceph_rbd::cstr::{c_string_bytes, error_text, string_from_c_buffer};
use ceph_rbd::error::{flag_from_c, returned, RbdError};

#[test]
fn c_string_of_plain_name_has_terminator() {
    let bytes = c_string_bytes("rbd").unwrap();
    assert_eq!(bytes, vec![b'r', b'b', b'd', 0]);
}

#[test]
fn c_string_of_empty_name_is_terminator_alone() {
    assert_eq!(c_string_bytes("").unwrap(), vec![0u8]);
}

#[test]
fn c_string_rejects_interior_nul_at_its_offset() {
    assert!(matches!(c_string_bytes("ab\0cd\0"), Err(RbdError::InteriorNul(2, _))));
    assert!(matches!(c_string_bytes("\0"), Err(RbdError::InteriorNul(0, _))));
}

#[test]
fn c_string_keeps_multibyte_text() {
    let bytes = c_string_bytes("é").unwrap();
    assert_eq!(bytes, vec![0xc3, 0xa9, 0]);
}

#[test]
fn c_buffer_is_read_up_to_first_nul() {
    let s = string_from_c_buffer(b"image-id\0junk\0").unwrap();
    assert_eq!(s, "image-id");
}

#[test]
fn c_buffer_without_nul_is_read_whole() {
    assert_eq!(string_from_c_buffer(b"abc").unwrap(), "abc");
}

#[test]
fn c_buffer_of_zeros_is_empty_text() {
    assert_eq!(string_from_c_buffer(&[0u8; 16]).unwrap(), "");
}

#[test]
fn c_buffer_with_invalid_utf8_reports_its_bytes() {
    match string_from_c_buffer(&[b'x', 0xff, 0, b'y']) {
        Err(RbdError::InvalidUtf8(b)) => assert_eq!(b, vec![b'x', 0xff]),
        other => panic!("unexpected {:?}", other),
    }
}

#[test]
fn c_string_round_trips_through_c_buffer() {
    let name = "pool/image@snap";
    let bytes = c_string_bytes(name).unwrap();
    assert_eq!(string_from_c_buffer(&bytes).unwrap(), name);
}

#[test]
fn error_text_stops_at_nul() {
    let mut buf = vec![0u8; 256];
    let msg = b"Unknown error -2";
    buf[..msg.len()].copy_from_slice(msg);
    assert_eq!(error_text(&buf), "Unknown error -2");
}

#[test]
fn error_text_holds_no_nul() {
    let text = error_text(&[0xc3, 0x28, b'z', 0xff, 0, b'q', 0]);
    assert!(!text.contains('\0'));
    assert_eq!(text, "\u{FFFD}(z\u{FFFD}");
}

#[test]
fn error_text_replaces_invalid_bytes() {
    assert_eq!(error_text(&[b'a', 0xff, b'b', 0, b'c']), "a\u{FFFD}b");
}

#[test]
fn negative_code_is_api_error() {
    assert!(matches!(returned(-2, ()), Err(RbdError::Api(-2))));
    assert!(matches!(returned(i32::MIN, 7u64), Err(RbdError::Api(i32::MIN))));
}

#[test]
fn non_negative_code_keeps_value() {
    assert!(matches!(returned(0, 42u64), Ok(42)));
    assert!(matches!(returned(5, "x"), Ok("x")));
}

#[test]
fn only_one_is_true_in_c() {
    assert!(flag_from_c(1));
    assert!(!flag_from_c(0));
    assert!(!flag_from_c(2));
    assert!(!flag_from_c(-1));
}

#[test]
fn refused_string_keeps_its_bytes() {
    match c_string_bytes("ab\0cd") {
        Err(RbdError::InteriorNul(2, b)) => assert_eq!(b, b"ab\0cd".to_vec()),
        other => panic!("unexpected {:?}", other),
    }
}
