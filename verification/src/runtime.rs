//! Settings of the async runtime the application builds.

use vstd::prelude::*;

verus! {

/// How to build the runtime; `None` leaves a setting at the runtime's default.
#[derive(Debug, Clone)]
pub struct TokioSettings {
    pub multi_threaded: bool,
    pub worker_threads: Option<usize>,
    pub thread_name: Option<String>,
    pub event_interval: Option<u32>,
    pub max_io_events_per_tick: Option<usize>,
    pub global_queue_interval: Option<u32>,
    pub thread_keep_alive_ns: Option<u64>,
    pub thread_stack_size: Option<usize>,
    pub max_blocking_threads: Option<usize>,
}

impl TokioSettings {
    /// No setting given, with the threading as asked.
    pub open spec fn unset(&self, multi_threaded: bool) -> bool {
        &&& self.multi_threaded == multi_threaded
        &&& self.worker_threads is None
        &&& self.thread_name is None
        &&& self.event_interval is None
        &&& self.max_io_events_per_tick is None
        &&& self.global_queue_interval is None
        &&& self.thread_keep_alive_ns is None
        &&& self.thread_stack_size is None
        &&& self.max_blocking_threads is None
    }

    /// A multi-threaded runtime with every other setting at its default.
    pub fn default() -> (s: Self)
        ensures
            s.unset(true),
    {
        Self::new_unset(true)
    }

    /// Every setting but the threading at its default.
    pub fn new_unset(multi_threaded: bool) -> (s: Self)
        ensures
            s.unset(multi_threaded),
    {
        Self {
            multi_threaded,
            worker_threads: None,
            thread_name: None,
            event_interval: None,
            max_io_events_per_tick: None,
            global_queue_interval: None,
            thread_keep_alive_ns: None,
            thread_stack_size: None,
            max_blocking_threads: None,
        }
    }
}

impl Default for TokioSettings {
    fn default() -> (s: Self)
        ensures
            s.unset(true),
    {
        TokioSettings::default()
    }
}

} // verus!
