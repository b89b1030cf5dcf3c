//! A minimal instrumentation tool, showing the five lifecycle entry
//! points a tool author implements.

use vstd::prelude::*;

verus! {

use crate::api::Event;
use crate::api::Injector;
use crate::api::SystraceTool;

/// A tool that keeps one counter per guest thread and counts the events
/// delivered to it. A new thread's counter is seeded from its parent
/// thread's counter, as thread state always is.
pub struct CountTool;

impl SystraceTool for CountTool {
    type Glob = ();

    type Proc = ();

    type Thrd = u64;

    fn init_global_state(_gbuf: Option<Vec<u8>>) -> Option<()> {
        Some(())
    }

    fn init_process_state(_g: &()) -> ((), u64) {
        ((), 0)
    }

    fn init_thread_state(_g: &(), _p: &(), parent: &u64) -> u64 {
        *parent
    }

    fn handle_event<I: Injector>(_e: Event, _i: &mut I, _g: &(), _p: &(), t: &mut u64) {
        if *t < u64::MAX {
            *t = *t + 1;
        }
    }

    fn handle_global_event<I: Injector>(_e: Event, _i: &mut I, _g: &()) {
    }
}

} // verus!
