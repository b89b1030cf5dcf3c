use systrace::api::Regs;
use systrace::auxv::{getauxval, AuxvError, AUXV_MAX};
use systrace::memory::GuestMem;

const SP: u64 = 0x7000_0000;

fn image(words: &[u64]) -> GuestMem {
    let mut v = Vec::new();
    for w in words {
        v.extend_from_slice(&w.to_le_bytes());
    }
    v.resize(AUXV_MAX * 8, 0);
    GuestMem::new(SP, v)
}

fn regs() -> Regs {
    Regs { rax: 0, rsp: SP }
}

#[test]
fn decodes_synthetic_auxv() {
    // argc=2, two argv entries plus a NULL terminator, zero env entries
    // plus a NULL terminator, then pairs (3, 0x1000), (25, 0x2000), (0, 0)
    let words = [2u64, 0xdead, 0xbeef, 0, 0, 3, 0x1000, 25, 0x2000, 0, 0];
    let m = getauxval(&image(&words), &regs()).unwrap();
    assert_eq!(m.len(), 2);
    assert_eq!(m.get(&3), Some(&0x1000));
    assert_eq!(m.get(&25), Some(&0x2000));
}

#[test]
fn env_entries_are_skipped() {
    // argc=1, one argv entry, NULL, two env entries, NULL, one pair
    let words = [1u64, 0xaaa, 0, 0xbbb, 0xccc, 0, 7, 0x42, 0, 0];
    let m = getauxval(&image(&words), &regs()).unwrap();
    assert_eq!(m.len(), 1);
    assert_eq!(m.get(&7), Some(&0x42));
}

#[test]
fn repeated_key_last_occurrence_wins() {
    let words = [0u64, 0, 0, 6, 0x111, 6, 0x222, 0, 0];
    let m = getauxval(&image(&words), &regs()).unwrap();
    assert_eq!(m.len(), 1);
    assert_eq!(m.get(&6), Some(&0x222));
}

#[test]
fn missing_terminator_is_a_decode_error() {
    // no zero word anywhere in the window: the envp scan hits the bound
    let words: Vec<u64> = (0..AUXV_MAX as u64).map(|i| i + 1).collect();
    assert_eq!(getauxval(&image(&words), &regs()), Err(AuxvError::NoTerminator));
}

#[test]
fn missing_pair_terminator_is_a_decode_error() {
    // terminated argv and envp, but nonzero keys up to the bound
    let mut words = vec![0u64, 0];
    while words.len() < AUXV_MAX {
        words.push(5);
    }
    assert_eq!(getauxval(&image(&words), &regs()), Err(AuxvError::NoTerminator));
}

#[test]
fn oversized_argc_is_a_decode_error() {
    let words = [u64::MAX, 0, 0];
    assert_eq!(getauxval(&image(&words), &regs()), Err(AuxvError::NoTerminator));
}

#[test]
fn unmapped_window_is_an_access_fault() {
    let mem = GuestMem::new(SP, vec![0u8; 64]);
    assert_eq!(getauxval(&mem, &regs()), Err(AuxvError::AccessFault));
}
