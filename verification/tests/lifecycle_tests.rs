use keystonelight::cli::parse_input;
use keystonelight::server::{
    accept_action, after_bind_failure, after_probe, check_pid_file, exit_code, format_pid,
    parse_pid, pid_file_contents, signal_action, AcceptAction, AcceptEvent, BindStep, Config,
    PidCheck, Signal, SignalAction,
};
use keystonelight::thread_pool::{JobQueue, Next};
use keystonelight::StoreError;

#[test]
fn input_is_split_at_spaces() {
    assert_eq!(parse_input("SET name value"), vec!["SET", "name", "value"]);
    assert_eq!(parse_input("  GET   key  "), vec!["GET", "key"]);
    assert!(parse_input("").is_empty());
    assert!(parse_input("   ").is_empty());
}

#[test]
fn quotes_and_braces_keep_spaces() {
    assert_eq!(
        parse_input("SET name \"John Doe\""),
        vec!["SET", "name", "\"John Doe\""]
    );
    assert_eq!(
        parse_input("SET user {\"name\": \"John\", \"age\": 30}"),
        vec!["SET", "user", "{\"name\": \"John\", \"age\": 30}"]
    );
    assert_eq!(parse_input("a\\ b c"), vec!["a b", "c"]);
    assert_eq!(parse_input("say \\\"hi there"), vec!["say", "\"hi", "there"]);
    assert_eq!(parse_input("} a b"), vec!["} a b"]);
}

#[test]
fn process_ids_are_read_and_written() {
    assert_eq!(parse_pid("1234\n"), Some(1234));
    assert_eq!(parse_pid("  42  "), Some(42));
    assert_eq!(parse_pid("007"), Some(7));
    assert_eq!(parse_pid("4294967295"), Some(u32::MAX));
    assert_eq!(parse_pid("4294967296"), None);
    assert_eq!(parse_pid("99999999999999999999999"), None);
    assert_eq!(parse_pid(""), None);
    assert_eq!(parse_pid("\n"), None);
    assert_eq!(parse_pid("12 34"), None);
    assert_eq!(parse_pid("-1"), None);
    assert_eq!(parse_pid("pid"), None);
    assert_eq!(format_pid(0), "0");
    assert_eq!(format_pid(4294967295), "4294967295");
    assert_eq!(pid_file_contents(1234), "1234\n");
    for pid in [0u32, 1, 9, 10, 99, 100, 65535, 4294967295] {
        assert_eq!(parse_pid(&pid_file_contents(pid)), Some(pid));
    }
}

#[test]
fn startup_looks_at_the_pid_file() {
    assert_eq!(check_pid_file(None), PidCheck::Proceed);
    assert_eq!(check_pid_file(Some("4711\n")), PidCheck::Probe(4711));
    assert_eq!(check_pid_file(Some("not a pid")), PidCheck::RemoveStale);
    assert!(matches!(after_probe(4711, false), Ok(PidCheck::RemoveStale)));
    let refused = after_probe(4711, true);
    assert!(matches!(refused, Err(StoreError::AlreadyRunning(4711))));
    let error = refused.unwrap_err();
    assert_eq!(error.to_string(), "Server already running with PID 4711");
    assert_eq!(exit_code(&Err(error)), 1);
    assert_eq!(exit_code(&Ok(())), 0);
}

#[test]
fn binding_is_retried_for_five_seconds() {
    assert_eq!(after_bind_failure(0, true), BindStep::Retry(100));
    assert_eq!(after_bind_failure(4999, true), BindStep::Retry(100));
    assert_eq!(after_bind_failure(5000, true), BindStep::GiveUp);
    assert_eq!(after_bind_failure(0, false), BindStep::GiveUp);
}

#[test]
fn the_accept_loop_follows_the_running_flag() {
    assert_eq!(accept_action(true, AcceptEvent::Connection), AcceptAction::Dispatch);
    assert_eq!(accept_action(true, AcceptEvent::WouldBlock), AcceptAction::Idle(10));
    assert_eq!(accept_action(true, AcceptEvent::Failed), AcceptAction::Stop);
    assert_eq!(accept_action(false, AcceptEvent::Connection), AcceptAction::Stop);
    assert_eq!(accept_action(false, AcceptEvent::WouldBlock), AcceptAction::Stop);
}

#[test]
fn signals_shut_down_or_compact() {
    assert_eq!(signal_action(Signal::Terminate), SignalAction::Shutdown);
    assert_eq!(signal_action(Signal::Interrupt), SignalAction::Shutdown);
    assert_eq!(signal_action(Signal::User1), SignalAction::Compact);
    assert_eq!(signal_action(Signal::Other), SignalAction::Ignore);
}

#[test]
fn errors_have_their_texts() {
    assert_eq!(StoreError::InvalidKey.to_string(), "Invalid key");
    assert_eq!(StoreError::ValueTooLarge.to_string(), "Value too large");
    assert_eq!(StoreError::InvalidCommand.to_string(), "Invalid command");
    assert_eq!(StoreError::Io("disk full".to_string()).to_string(), "disk full");
    assert_eq!(
        StoreError::AlreadyLocked.to_string(),
        "Log file is locked by another process"
    );
    assert_eq!(
        StoreError::AlreadyRunning(1).to_string(),
        "Server already running with PID 1"
    );
    assert_eq!(StoreError::LogCorruption.to_string(), "Corrupt log record");
    assert_eq!(StoreError::ShuttingDown.to_string(), "Server is shutting down");
}

#[test]
fn jobs_leave_the_queue_in_their_order() {
    let mut queue: JobQueue<u32> = JobQueue::new(4);
    assert_eq!(queue.workers(), 4);
    assert!(matches!(queue.next(), Next::Wait));
    queue.execute(1).unwrap();
    queue.execute(2).unwrap();
    queue.execute(3).unwrap();
    assert_eq!(queue.len(), 3);
    assert!(matches!(queue.next(), Next::Job(1)));
    assert!(matches!(queue.next(), Next::Job(2)));
    assert!(matches!(queue.next(), Next::Job(3)));
    assert!(matches!(queue.next(), Next::Wait));
}

#[test]
fn a_closed_queue_is_drained_and_takes_no_more() {
    let mut queue: JobQueue<&str> = JobQueue::new(1);
    queue.execute("a").unwrap();
    queue.execute("b").unwrap();
    assert!(!queue.is_closed());
    queue.close();
    assert!(queue.is_closed());
    assert!(matches!(queue.execute("c"), Err(StoreError::ShuttingDown)));
    assert_eq!(queue.len(), 2);
    assert!(matches!(queue.next(), Next::Job("a")));
    assert!(matches!(queue.next(), Next::Job("b")));
    assert!(matches!(queue.next(), Next::Exit));
    assert!(matches!(queue.next(), Next::Exit));
}

#[test]
fn the_configuration_has_its_defaults() {
    let config = Config::default();
    assert_eq!(config.listen_addr, "127.0.0.1:7878");
    assert_eq!(config.pid_file, "keystonelight.pid");
    assert_eq!(config.log_file, "keystonelight.log");
    assert_eq!(config.workers, 4);
}
