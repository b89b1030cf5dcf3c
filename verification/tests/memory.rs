use systrace::memory::GuestMem;

#[test]
fn write_then_read_returns_the_buffer() {
    let mut m = GuestMem::new(0x1000, vec![0u8; 64]);
    let buf = vec![1u8, 2, 3, 4];
    assert!(m.write(0x1010, &buf).is_ok());
    let back = m.read(0x1010, 4).unwrap();
    assert_eq!(back, buf);
}

#[test]
fn out_of_bounds_access_fails_without_side_effects() {
    let mut m = GuestMem::new(0x1000, vec![0u8; 16]);
    assert!(m.read(0x0fff, 4).is_err());
    assert!(m.read(0x100e, 4).is_err());
    assert!(m.read(0x2000, 1).is_err());
    assert!(m.write(0x100e, &vec![9u8, 9, 9, 9]).is_err());
    // the failed write left the region untouched
    assert_eq!(m.read(0x1000, 16).unwrap(), vec![0u8; 16]);
}

#[test]
fn empty_read_at_region_end_succeeds() {
    let m = GuestMem::new(0x1000, vec![7u8; 16]);
    assert_eq!(m.read(0x1010, 0).unwrap(), Vec::<u8>::new());
}

#[test]
fn cstring_stops_at_terminator() {
    let mut data = vec![0u8; 16];
    data[0] = b'a';
    data[1] = b'b';
    data[2] = b'c';
    let m = GuestMem::new(0x2000, data);
    assert_eq!(m.read_cstring(0x2000, 16).unwrap(), b"abc".to_vec());
}

#[test]
fn cstring_truncates_at_the_bound() {
    let mut data = vec![0u8; 16];
    data[0] = b'a';
    data[1] = b'b';
    data[2] = b'c';
    let m = GuestMem::new(0x2000, data);
    assert_eq!(m.read_cstring(0x2000, 2).unwrap(), b"ab".to_vec());
    assert_eq!(m.read_cstring(0x2000, 0).unwrap(), Vec::<u8>::new());
}

#[test]
fn unterminated_cstring_running_off_the_region_faults() {
    let m = GuestMem::new(0x3000, vec![b'x'; 8]);
    assert!(m.read_cstring(0x3000, 16).is_err());
    // the bound inside the region truncates instead
    assert_eq!(m.read_cstring(0x3000, 8).unwrap(), vec![b'x'; 8]);
}
