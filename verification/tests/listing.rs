use ceph_rbd::error::RbdError;
use ceph_rbd::rbd::Rbd;

#[test]
fn probe_range_error_asks_one_more_byte() {
    assert!(matches!(Rbd::list_buffer_size(-34, 10), Ok(11)));
}

#[test]
fn probe_other_failure_ends_listing() {
    assert!(matches!(Rbd::list_buffer_size(-5, 10), Err(RbdError::Api(-5))));
    assert!(matches!(Rbd::list_buffer_size(-2, 0), Err(RbdError::Api(-2))));
}

#[test]
fn probe_success_keeps_empty_buffer() {
    assert!(matches!(Rbd::list_buffer_size(0, 7), Ok(0)));
}

#[test]
fn listed_length_is_bytes_written_or_nothing() {
    assert_eq!(Rbd::listed_length(5), 5);
    assert_eq!(Rbd::listed_length(20), 20);
    assert_eq!(Rbd::listed_length(-34), 0);
    assert_eq!(Rbd::listed_length(0), 0);
}

#[test]
fn names_are_split_on_nul() {
    let names = Rbd::image_names(b"foo\0bar\0baz\0").unwrap();
    assert_eq!(names, vec!["foo".to_string(), "bar".to_string(), "baz".to_string()]);
}

#[test]
fn empty_names_are_skipped() {
    let names = Rbd::image_names(b"\0\0a\0\0b\0").unwrap();
    assert_eq!(names, vec!["a".to_string(), "b".to_string()]);
}

#[test]
fn empty_listing_has_no_names() {
    assert!(Rbd::image_names(b"").unwrap().is_empty());
    assert!(Rbd::image_names(b"\0").unwrap().is_empty());
}

#[test]
fn unterminated_last_name_loses_its_last_byte() {
    assert_eq!(Rbd::image_names(b"one\0two").unwrap(), vec!["one".to_string(), "tw".to_string()]);
    assert!(Rbd::image_names(b"a").unwrap().is_empty());
    assert!(Rbd::image_names(b"x\0\xff").unwrap() == vec!["x".to_string()]);
}

#[test]
fn invalid_name_fails_listing_with_its_bytes() {
    match Rbd::image_names(b"ok\0b\xffd\0later\0") {
        Err(RbdError::InvalidUtf8(b)) => assert_eq!(b, vec![b'b', 0xff, b'd']),
        other => panic!("unexpected {:?}", other),
    }
}

#[test]
fn written_names_list_back_unchanged() {
    let names = ["vm-disk-1", "rbd_data", "ünïcode", "x"];
    let mut buf = Vec::new();
    for n in names.iter() {
        buf.extend_from_slice(n.as_bytes());
        buf.push(0);
    }
    let listed = Rbd::image_names(&buf).unwrap();
    let expected: Vec<String> = names.iter().map(|n| n.to_string()).collect();
    assert_eq!(listed, expected);
}
