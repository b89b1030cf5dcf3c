use systrace::catalog::SyscallCatalog;

fn sample_catalog() -> SyscallCatalog {
    SyscallCatalog::new(vec![
        String::from("read"),
        String::from("write"),
        String::from("open"),
        String::from("close"),
    ])
}

#[test]
fn decode_encode_roundtrip_in_range() {
    let c = sample_catalog();
    for n in 0..4u64 {
        let s = c.decode(n);
        assert_eq!(c.encode(s), n);
    }
}

#[test]
fn out_of_range_number_is_refused() {
    let c = sample_catalog();
    assert!(c.try_decode(4).is_none());
    assert!(c.try_decode(u64::MAX).is_none());
    assert!(!c.in_range(4));
    assert!(c.in_range(3));
}

#[test]
fn try_decode_in_range_matches_decode() {
    let c = sample_catalog();
    let s = c.try_decode(2).unwrap();
    assert_eq!(c.encode(s), 2);
}

#[test]
fn name_lookup_is_bidirectional() {
    let c = sample_catalog();
    assert_eq!(c.len(), 4);
    let s = c.decode(2);
    assert_eq!(c.name_of(s).as_str(), "open");
    assert_eq!(c.number_of(&String::from("write")), Some(1));
    assert_eq!(c.number_of(&String::from("mmap")), None);
}
