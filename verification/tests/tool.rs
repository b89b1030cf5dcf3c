use systrace::api::{Event, Injector, SysArgs, SystraceTool};
use systrace::tools::CountTool;

/// An injector that reaches no guest: enough to drive a tool's handler.
struct NullInjector;

impl Injector for NullInjector {
    fn inject_syscall(&mut self, _no: u64, _args: SysArgs, _k: u64) {}

    fn resolve_symbol_address(&self, _pid: i32, _name: &String) -> u64 {
        0
    }

    fn inject_funcall(&mut self, _func: u64, _args: &[u64; 6]) -> i64 {
        0
    }

    fn wait_exit(&mut self) {}
}

#[test]
fn count_tool_counts_events_per_thread() {
    let g = CountTool::init_global_state(None).unwrap();
    let (p, mut t0) = CountTool::init_process_state(&g);
    assert_eq!(t0, 0);
    let mut i = NullInjector;
    CountTool::handle_event(Event::Signal(17), &mut i, &g, &p, &mut t0);
    CountTool::handle_event(Event::HeartbeatYield(5), &mut i, &g, &p, &mut t0);
    assert_eq!(t0, 2);
}

#[test]
fn new_thread_state_is_seeded_from_the_parent() {
    let g = CountTool::init_global_state(Some(vec![0u8; 8])).unwrap();
    let (p, mut t0) = CountTool::init_process_state(&g);
    let mut i = NullInjector;
    CountTool::handle_event(Event::PreExit(9), &mut i, &g, &p, &mut t0);
    let mut t1 = CountTool::init_thread_state(&g, &p, &t0);
    assert_eq!(t1, 1);
    CountTool::handle_event(Event::ExitThread(9), &mut i, &g, &p, &mut t1);
    assert_eq!(t1, 2);
    // the parent thread's state is untouched
    assert_eq!(t0, 1);
    CountTool::handle_global_event(Event::Signal(2), &mut i, &g);
}
