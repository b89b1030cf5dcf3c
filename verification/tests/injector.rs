use systrace::api::SysArgs;
use systrace::injector::{is_fork_class, CompletionRole, InjectorCore, SYS_CLONE, SYS_FORK, SYS_VFORK};

fn args() -> SysArgs {
    SysArgs { arg0: 0, arg1: 0, arg2: 0, arg3: 0, arg4: 0, arg5: 0 }
}

#[test]
fn fork_continuation_fires_exactly_twice() {
    let mut core = InjectorCore::new();
    let req = core.inject_syscall(SYS_FORK, args(), 7);
    // once for the parent thread, with the child's pid as return value
    assert_eq!(core.complete(req, CompletionRole::ForkParent, 1234), Some((7, 1234)));
    // once for the child thread, with return value zero
    assert_eq!(core.complete(req, CompletionRole::ForkChild, 0), Some((7, 0)));
    // both entries are spent: nothing fires a third time
    assert_eq!(core.complete(req, CompletionRole::ForkParent, 1234), None);
    assert_eq!(core.complete(req, CompletionRole::ForkChild, 0), None);
    assert_eq!(core.complete(req, CompletionRole::Normal, 0), None);
}

#[test]
fn fork_completions_resolve_in_either_order() {
    let mut core = InjectorCore::new();
    let req = core.inject_syscall(SYS_VFORK, args(), 3);
    assert_eq!(core.complete(req, CompletionRole::ForkChild, 0), Some((3, 0)));
    assert_eq!(core.complete(req, CompletionRole::ForkParent, 99), Some((3, 99)));
    assert_eq!(core.complete(req, CompletionRole::ForkChild, 0), None);
}

#[test]
fn ordinary_continuation_fires_exactly_once() {
    let mut core = InjectorCore::new();
    let req = core.inject_syscall(0, args(), 9);
    // a non-fork injection has no fork-side entries
    assert_eq!(core.complete(req, CompletionRole::ForkParent, 0), None);
    assert_eq!(core.complete(req, CompletionRole::Normal, 42), Some((9, 42)));
    assert_eq!(core.complete(req, CompletionRole::Normal, 42), None);
}

#[test]
fn distinct_requests_resolve_independently() {
    let mut core = InjectorCore::new();
    let r1 = core.inject_syscall(0, args(), 1);
    let r2 = core.inject_syscall(1, args(), 2);
    assert_ne!(r1, r2);
    assert_eq!(core.complete(r2, CompletionRole::Normal, 0), Some((2, 0)));
    assert_eq!(core.complete(r1, CompletionRole::Normal, 0), Some((1, 0)));
}

#[test]
fn fork_class_numbers() {
    assert!(is_fork_class(SYS_CLONE));
    assert!(is_fork_class(SYS_FORK));
    assert!(is_fork_class(SYS_VFORK));
    assert!(!is_fork_class(0));
    assert!(!is_fork_class(2));
}
