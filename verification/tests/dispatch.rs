use systrace::api::{Event, FullEvent, SysArgs};
use systrace::dispatch::{Dispatcher, ToolAction};

fn sys(no: u64) -> Event {
    Event::Syscall(no, SysArgs { arg0: 0, arg1: 0, arg2: 0, arg3: 0, arg4: 0, arg5: 0 })
}

fn fe(e: Event, tid: i32, pid: i32) -> FullEvent {
    FullEvent { e, tid, pid }
}

fn handled(log: &[ToolAction]) -> Vec<(i32, Event)> {
    let mut out = Vec::new();
    for a in log {
        if let ToolAction::HandleEvent(t, e) = a {
            out.push((*t, *e));
        }
    }
    out
}

#[test]
fn first_contact_initializes_process_then_delivers() {
    let mut d = Dispatcher::new();
    let a = d.on_event(fe(sys(0), 100, 100));
    assert_eq!(
        a,
        vec![ToolAction::InitProcess(100, 100), ToolAction::HandleEvent(100, sys(0))]
    );
    assert!(d.is_proc_live(100));
    assert!(d.is_thread_live(100));
}

#[test]
fn thread_lifecycle_init_events_teardown() {
    let mut d = Dispatcher::new();
    d.on_event(fe(sys(0), 100, 100));
    let a = d.thread_started(100, 100, 101);
    assert_eq!(a, ToolAction::InitThread(100, 101, 100));
    assert!(d.is_thread_live(101));
    assert!(d.is_thread_live_in(101, 100));
    assert!(!d.is_thread_live_in(101, 200));
    let a = d.on_event(fe(Event::PreExit(101), 101, 100));
    assert_eq!(a, vec![ToolAction::HandleEvent(101, Event::PreExit(101))]);
    let a = d.on_event(fe(Event::ExitThread(101), 101, 100));
    assert_eq!(
        a,
        vec![
            ToolAction::HandleEvent(101, Event::ExitThread(101)),
            ToolAction::TearDownThread(101)
        ]
    );
    assert!(!d.is_thread_live(101));
    assert!(d.is_thread_live(100));
}

#[test]
fn proc_exit_tears_down_remaining_threads_then_the_process() {
    let mut d = Dispatcher::new();
    d.on_event(fe(sys(0), 100, 100));
    d.thread_started(100, 100, 101);
    let a = d.on_event(fe(Event::ExitProc(100), 100, 100));
    assert_eq!(
        a,
        vec![
            ToolAction::HandleEvent(100, Event::ExitProc(100)),
            ToolAction::TearDownThread(100),
            ToolAction::TearDownThread(101),
            ToolAction::TearDownProc(100)
        ]
    );
    assert!(!d.is_proc_live(100));
    assert!(!d.is_thread_live(100));
    assert!(!d.is_thread_live(101));
}

#[test]
fn independent_guests_do_not_mix() {
    let mut d = Dispatcher::new();
    d.on_event(fe(sys(0), 10, 10));
    d.on_event(fe(sys(0), 20, 20));
    let a = d.on_event(fe(Event::ExitProc(10), 10, 10));
    assert_eq!(
        a,
        vec![
            ToolAction::HandleEvent(10, Event::ExitProc(10)),
            ToolAction::TearDownThread(10),
            ToolAction::TearDownProc(10)
        ]
    );
    assert!(d.is_proc_live(20));
    assert!(d.is_thread_live(20));
}

#[test]
fn init_precedes_first_delivery_and_teardown_is_last() {
    let mut d = Dispatcher::new();
    let mut log: Vec<ToolAction> = Vec::new();
    log.extend(d.on_event(fe(sys(0), 1, 1)));
    log.push(d.thread_started(1, 1, 2));
    log.extend(d.on_event(fe(sys(1), 2, 1)));
    log.extend(d.on_event(fe(Event::ExitThread(2), 2, 1)));
    log.extend(d.on_event(fe(sys(2), 1, 1)));

    let init_pos = log
        .iter()
        .position(|a| matches!(a, ToolAction::InitThread(_, 2, _)))
        .unwrap();
    let first_handle = log
        .iter()
        .position(|a| matches!(a, ToolAction::HandleEvent(2, _)))
        .unwrap();
    let teardown_pos = log
        .iter()
        .position(|a| matches!(a, ToolAction::TearDownThread(2)))
        .unwrap();
    assert!(init_pos < first_handle);
    // nothing references the id after its teardown
    for a in &log[teardown_pos + 1..] {
        assert!(!matches!(a, ToolAction::HandleEvent(2, _)));
        assert!(!matches!(a, ToolAction::TearDownThread(2)));
    }
}

#[test]
fn per_thread_order_is_preserved() {
    let mut d = Dispatcher::new();
    d.on_event(fe(sys(0), 1, 1));
    d.thread_started(1, 1, 2);
    let feed = [
        (sys(10), 1),
        (sys(20), 2),
        (sys(11), 1),
        (sys(21), 2),
        (sys(12), 1),
    ];
    let mut log: Vec<ToolAction> = Vec::new();
    for (e, tid) in feed {
        log.extend(d.on_event(fe(e, tid, 1)));
    }
    let h: Vec<(i32, Event)> = handled(&log);
    let for1: Vec<Event> = h.iter().filter(|(t, _)| *t == 1).map(|(_, e)| *e).collect();
    let for2: Vec<Event> = h.iter().filter(|(t, _)| *t == 2).map(|(_, e)| *e).collect();
    assert_eq!(for1, vec![sys(10), sys(11), sys(12)]);
    assert_eq!(for2, vec![sys(20), sys(21)]);
}
