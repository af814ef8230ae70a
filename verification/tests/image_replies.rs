use ceph_rbd::error::RbdError;
use ceph_rbd::image::{
    lock_owners_step, metadata_entries, metadata_step, non_nul_bytes, read_outcome,
    BufferStep, RbdImageInfo,
};

fn array<const N: usize>(text: &[u8]) -> [u8; N] {
    let mut a = [0u8; N];
    a[..text.len()].copy_from_slice(text);
    a
}

#[test]
fn stat_reads_prefix_and_missing_parent() {
    let prefix: [u8; 24] = array(b"rbd_data.1234abcd");
    let parent: [u8; 96] = [0; 96];
    let info = RbdImageInfo::from_raw(1 << 30, 1 << 22, 256, 22, &prefix, -1, &parent).unwrap();
    assert_eq!(info.size, 1 << 30);
    assert_eq!(info.obj_size, 1 << 22);
    assert_eq!(info.num_objs, 256);
    assert_eq!(info.order, 22);
    assert_eq!(info.parent_pool, -1);
    assert_eq!(info.block_name_prefix, "rbd_data.1234abcd");
    assert!(info.parent_name.is_none());
}

#[test]
fn stat_reads_parent_name() {
    let prefix: [u8; 24] = array(b"p");
    let parent: [u8; 96] = array(b"golden-image");
    let info = RbdImageInfo::from_raw(1, 2, 3, 12, &prefix, 7, &parent).unwrap();
    assert_eq!(info.parent_name.as_deref(), Some("golden-image"));
}

#[test]
fn stat_drops_every_nul_byte() {
    assert_eq!(non_nul_bytes(&[b'a', 0, b'b', 0, 0, b'c']), vec![b'a', b'b', b'c']);
    let prefix: [u8; 24] = array(b"ab\0cd");
    let info = RbdImageInfo::from_raw(0, 0, 0, 0, &prefix, 0, &[0u8; 96]).unwrap();
    assert_eq!(info.block_name_prefix, "abcd");
}

#[test]
fn stat_checks_prefix_before_parent() {
    let prefix: [u8; 24] = array(&[0xfe]);
    let parent: [u8; 96] = array(&[0xff]);
    match RbdImageInfo::from_raw(0, 0, 0, 0, &prefix, 0, &parent) {
        Err(RbdError::InvalidUtf8(b)) => assert_eq!(b, vec![0xfe]),
        other => panic!("unexpected {:?}", other),
    }
    let prefix: [u8; 24] = array(b"ok");
    match RbdImageInfo::from_raw(0, 0, 0, 0, &prefix, 0, &parent) {
        Err(RbdError::InvalidUtf8(b)) => assert_eq!(b, vec![0xff]),
        other => panic!("unexpected {:?}", other),
    }
}

#[test]
fn lock_owner_answers() {
    assert_eq!(lock_owners_step(0), BufferStep::Proceed);
    assert_eq!(lock_owners_step(3), BufferStep::Proceed);
    assert_eq!(lock_owners_step(-2), BufferStep::Proceed);
    assert_eq!(lock_owners_step(-34), BufferStep::Retry);
    assert_eq!(lock_owners_step(-5), BufferStep::Fail(-5));
}

#[test]
fn metadata_answers() {
    assert_eq!(metadata_step(0), BufferStep::Proceed);
    assert_eq!(metadata_step(-34), BufferStep::Retry);
    assert_eq!(metadata_step(-2), BufferStep::Repeat);
    assert_eq!(metadata_step(-5), BufferStep::Repeat);
}

#[test]
fn metadata_pairs_keys_with_values() {
    let entries = metadata_entries(b"conf_a\0conf_b\0", b"1\0two\0").unwrap();
    assert_eq!(
        entries,
        vec![
            ("conf_a".to_string(), "1".to_string()),
            ("conf_b".to_string(), "two".to_string()),
        ]
    );
}

#[test]
fn metadata_skips_empty_keys_or_values() {
    let entries = metadata_entries(b"a\0\0c\0", b"\0y\0z\0").unwrap();
    assert_eq!(entries, vec![("c".to_string(), "z".to_string())]);
}

#[test]
fn metadata_of_empty_buffers_is_empty() {
    assert!(metadata_entries(b"", b"").unwrap().is_empty());
}

#[test]
fn metadata_reports_invalid_key_before_value() {
    match metadata_entries(b"k\xff\0", b"\xfe\0") {
        Err(RbdError::InvalidUtf8(b)) => assert_eq!(b, vec![b'k', 0xff]),
        other => panic!("unexpected {:?}", other),
    }
    match metadata_entries(b"k\0", b"\xfe\0") {
        Err(RbdError::InvalidUtf8(b)) => assert_eq!(b, vec![0xfe]),
        other => panic!("unexpected {:?}", other),
    }
}

#[test]
fn read_outcome_keeps_count_or_code() {
    assert!(matches!(read_outcome(4096), Ok(4096)));
    assert!(matches!(read_outcome(0), Ok(0)));
    assert!(matches!(read_outcome(-5), Err(RbdError::Api(-5))));
}

#[test]
fn metadata_keeps_last_value_of_repeated_key() {
    let entries = metadata_entries(b"a\0b\0a\0", b"1\02\03\0").unwrap();
    assert_eq!(
        entries,
        vec![("b".to_string(), "2".to_string()), ("a".to_string(), "3".to_string())]
    );
}
