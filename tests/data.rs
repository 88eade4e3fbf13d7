use core_foundation::base::{CFError, CFRuntime, DATA_TYPE_ID};
use core_foundation::data::CFData;
use core_foundation::number::number;

#[test]
fn bytes_round_trip() {
    let mut rt = CFRuntime::new();
    let buf: Vec<u8> = (0u8..=255).collect();
    let d = CFData::new_from_buf(&mut rt, &buf);
    assert_eq!(d.len(&rt), Ok(256));
    assert_eq!(d.copy_to_buf(&rt), Ok(buf.clone()));
    assert_eq!(d.bytes(&rt), Ok(&buf[..]));
    assert_eq!(CFData::type_id(), DATA_TYPE_ID);
}

#[test]
fn empty_buffer() {
    let mut rt = CFRuntime::new();
    let d = CFData::new_from_buf(&mut rt, &[]);
    assert_eq!(d.len(&rt), Ok(0));
    assert_eq!(d.copy_to_buf(&rt), Ok(Vec::new()));
    assert_eq!(d.release(&mut rt), Ok(()));
}

#[test]
fn copy_is_independent_of_the_source() {
    let mut rt = CFRuntime::new();
    let mut src = vec![7u8, 8, 9];
    let d = CFData::new_from_buf(&mut rt, &src);
    src[0] = 0;
    assert_eq!(d.copy_to_buf(&rt), Ok(vec![7u8, 8, 9]));
}

#[test]
fn data_accessors_after_release_are_rejected() {
    let mut rt = CFRuntime::new();
    let d = CFData::new_from_buf(&mut rt, b"abc");
    let h = d.as_type_ref();
    let other = CFData::wrap_under_get_rule(&mut rt, h).unwrap();
    let share = other.retain(&mut rt).unwrap();
    assert_eq!(rt.retain_count(h), 3);
    assert_eq!(d.release(&mut rt), Ok(()));
    assert_eq!(other.release(&mut rt), Ok(()));
    assert_eq!(share.len(&rt), Ok(3));
    let stale = share.retain(&mut rt).unwrap();
    assert_eq!(share.release(&mut rt), Ok(()));
    assert_eq!(rt.release(h), Ok(()));
    assert_eq!(stale.len(&rt), Err(CFError::Released));
    assert_eq!(stale.copy_to_buf(&rt), Err(CFError::Released));
    assert_eq!(stale.bytes(&rt), Err(CFError::Released));
}

#[test]
fn data_wrapping_checks_the_type() {
    let mut rt = CFRuntime::new();
    let n = number(&mut rt, 4);
    let h = n.as_concrete_TypeRef();
    assert!(matches!(CFData::wrap_under_create_rule(&rt, h), Err(CFError::TypeMismatch)));
    assert!(matches!(CFData::wrap_under_get_rule(&mut rt, h), Err(CFError::TypeMismatch)));
    assert_eq!(rt.data_bytes(h), Err(CFError::TypeMismatch));
}
