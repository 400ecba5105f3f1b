//! The decisions of the server: what a request line does to the store, what
//! the PID file means at startup, and how the accept loop and the signals
//! steer the lifecycle.
//!
//! Sockets, files, threads and signals are the caller's. The caller reports
//! what happened and is told what to do next.

pub mod lifecycle;
pub mod pid_file;
pub mod requests;

pub use lifecycle::{
    accept_action, after_bind_failure, exit_code, signal_action, AcceptAction, AcceptEvent,
    BindStep, Config, Signal, SignalAction, ACCEPT_IDLE_MS, BIND_RETRY_INTERVAL_MS,
    BIND_TIMEOUT_MS, DEFAULT_THREAD_COUNT,
};
pub use pid_file::{
    after_probe, check_pid_file, decimal_spec, format_pid, parse_pid, pid_file_contents, PidCheck,
};
pub use requests::{execute, handle_line, Effect, Outcome};
