use systrace::api::SysArgs;
use systrace::capture::{captured_path, SYS_OPEN, SYS_OPENAT};
use systrace::memory::GuestMem;

fn args() -> SysArgs {
    SysArgs { arg0: 0, arg1: 0, arg2: 0, arg3: 0, arg4: 0, arg5: 0 }
}

#[test]
fn open_path_comes_from_the_first_slot() {
    let mut data = vec![0u8; 32];
    data[8] = b'/';
    data[9] = b't';
    data[10] = b'm';
    data[11] = b'p';
    let mem = GuestMem::new(0x5000, data);
    let mut a = args();
    a.arg0 = 0x5008;
    assert_eq!(captured_path(&mem, SYS_OPEN, &a), Some(b"/tmp".to_vec()));
}

#[test]
fn openat_path_comes_from_the_second_slot() {
    let mut data = vec![0u8; 32];
    data[0] = b'/';
    data[1] = b'a';
    let mem = GuestMem::new(0x5000, data);
    let mut a = args();
    a.arg1 = 0x5000;
    assert_eq!(captured_path(&mem, SYS_OPENAT, &a), Some(b"/a".to_vec()));
}

#[test]
fn other_syscalls_carry_no_path() {
    let mem = GuestMem::new(0, vec![0u8; 8]);
    assert_eq!(captured_path(&mem, 1, &args()), None);
}

#[test]
fn unreadable_path_yields_nothing() {
    // unterminated up to the end of the mapped region
    let mem = GuestMem::new(0x5000, vec![b'x'; 8]);
    let mut a = args();
    a.arg0 = 0x5000;
    assert_eq!(captured_path(&mem, SYS_OPEN, &a), None);
}
