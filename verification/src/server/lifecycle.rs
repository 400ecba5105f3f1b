//! The lifecycle: binding the address, accepting connections, reacting to
//! signals, and the exit code.

use crate::error::StoreError;
use vstd::prelude::*;
use vstd::string::StringExecFns;

verus! {

/// How long the server keeps trying to bind its address, in milliseconds.
pub const BIND_TIMEOUT_MS: u64 = 5000;

/// How long the server waits between two attempts to bind, in
/// milliseconds.
pub const BIND_RETRY_INTERVAL_MS: u64 = 100;

/// How long the accept loop sleeps when no connection is waiting, in
/// milliseconds.
pub const ACCEPT_IDLE_MS: u64 = 10;

/// The number of workers where none is asked for.
pub const DEFAULT_THREAD_COUNT: usize = 4;

/// The address on which the server listens where none is asked for.
pub open spec fn default_listen_addr() -> Seq<char> {
    "127.0.0.1:7878"@
}

/// The path of the PID file where none is asked for.
pub open spec fn default_pid_file() -> Seq<char> {
    "keystonelight.pid"@
}

/// The path of the log file where none is asked for.
pub open spec fn default_log_file() -> Seq<char> {
    "keystonelight.log"@
}

/// The configuration of the server, fixed at startup.
#[derive(Debug)]
pub struct Config {
    /// The address on which the server listens.
    pub listen_addr: String,
    /// The path of the PID file.
    pub pid_file: String,
    /// The path of the log file.
    pub log_file: String,
    /// The number of workers, at least one.
    pub workers: usize,
}

impl Default for Config {
    fn default() -> (config: Config)
        ensures
            config.listen_addr@ == default_listen_addr(),
            config.pid_file@ == default_pid_file(),
            config.log_file@ == default_log_file(),
            config.workers == DEFAULT_THREAD_COUNT,
    {
        Config {
            listen_addr: String::from_str("127.0.0.1:7878"),
            pid_file: String::from_str("keystonelight.pid"),
            log_file: String::from_str("keystonelight.log"),
            workers: DEFAULT_THREAD_COUNT,
        }
    }
}

/// What to do after an attempt to bind has failed.
#[derive(Debug, Clone, Copy, PartialEq, Eq, Structural)]
pub enum BindStep {
    /// Wait for so many milliseconds and try again.
    Retry(u64),
    /// Give up: startup has failed.
    GiveUp,
}

/// Decides what to do after a failed attempt to bind: an address in use
/// is tried again until the timeout has passed; anything else is final.
pub fn after_bind_failure(elapsed_ms: u64, address_in_use: bool) -> (step: BindStep)
    ensures
        step == (if address_in_use && elapsed_ms < BIND_TIMEOUT_MS {
            BindStep::Retry(BIND_RETRY_INTERVAL_MS)
        } else {
            BindStep::GiveUp
        }),
{
    if address_in_use && elapsed_ms < BIND_TIMEOUT_MS {
        BindStep::Retry(BIND_RETRY_INTERVAL_MS)
    } else {
        BindStep::GiveUp
    }
}

/// What the listener reported to the accept loop.
#[derive(Debug, Clone, Copy, PartialEq, Eq, Structural)]
pub enum AcceptEvent {
    /// A client has connected.
    Connection,
    /// No client is waiting.
    WouldBlock,
    /// The listener failed.
    Failed,
}

/// What the accept loop does next.
#[derive(Debug, Clone, Copy, PartialEq, Eq, Structural)]
pub enum AcceptAction {
    /// Hand the connection to the pool and go on.
    Dispatch,
    /// Sleep for so many milliseconds and go on.
    Idle(u64),
    /// Leave the loop.
    Stop,
}

/// Decides the next move of the accept loop: a server that no longer runs
/// stops, a connection is dispatched, an idle listener is slept on, and a
/// failed one ends the loop.
pub fn accept_action(running: bool, event: AcceptEvent) -> (action: AcceptAction)
    ensures
        action == (if !running {
            AcceptAction::Stop
        } else {
            match event {
                AcceptEvent::Connection => AcceptAction::Dispatch,
                AcceptEvent::WouldBlock => AcceptAction::Idle(ACCEPT_IDLE_MS),
                AcceptEvent::Failed => AcceptAction::Stop,
            }
        }),
{
    if !running {
        AcceptAction::Stop
    } else {
        match event {
            AcceptEvent::Connection => AcceptAction::Dispatch,
            AcceptEvent::WouldBlock => AcceptAction::Idle(ACCEPT_IDLE_MS),
            AcceptEvent::Failed => AcceptAction::Stop,
        }
    }
}

/// A signal that the server listens for.
#[derive(Debug, Clone, Copy, PartialEq, Eq, Structural)]
pub enum Signal {
    /// The request to terminate.
    Terminate,
    /// The interrupt from the keyboard.
    Interrupt,
    /// The first signal left to the user.
    User1,
    /// Any other signal.
    Other,
}

/// What a signal asks of the server.
#[derive(Debug, Clone, Copy, PartialEq, Eq, Structural)]
pub enum SignalAction {
    /// Stop accepting, let the handlers finish, remove the PID file.
    Shutdown,
    /// Compact the log.
    Compact,
    /// Nothing.
    Ignore,
}

/// Decides what a signal asks of the server.
pub fn signal_action(signal: Signal) -> (action: SignalAction)
    ensures
        action == (match signal {
            Signal::Terminate => SignalAction::Shutdown,
            Signal::Interrupt => SignalAction::Shutdown,
            Signal::User1 => SignalAction::Compact,
            Signal::Other => SignalAction::Ignore,
        }),
{
    match signal {
        Signal::Terminate => SignalAction::Shutdown,
        Signal::Interrupt => SignalAction::Shutdown,
        Signal::User1 => SignalAction::Compact,
        Signal::Other => SignalAction::Ignore,
    }
}

/// The exit code of the process: 0 after a clean shutdown, 1 after a
/// failure.
pub fn exit_code(run: &Result<(), StoreError>) -> (code: i32)
    ensures
        code == (if run is Ok {
            0i32
        } else {
            1i32
        }),
{
    match run {
        Ok(_) => 0,
        Err(_) => 1,
    }
}

} // verus!
