use portman::scanner::{PortInfo, ScanError, ScanTool};
use portman::watch::{WatchEvent, WatchState};

fn record(port: u16, pid: u32, name: &str) -> PortInfo {
    PortInfo {
        port,
        pid,
        process_name: name.to_string(),
        command: format!("{name} "),
        start_time: 0,
        memory_usage: 0,
    }
}

#[test]
fn watch_reports_only_transitions() {
    let monitored = vec![3000, 8080];
    let mut state = WatchState::new();

    let ev = state.on_tick(&monitored, Ok(vec![record(3000, 10, "node"), record(22, 1, "sshd")]));
    assert_eq!(ev.len(), 1);
    match &ev[0] {
        WatchEvent::InitialState { occupied, details } => {
            assert_eq!(occupied, &vec![3000]);
            assert_eq!(details.len(), 1);
            assert_eq!(details[0].port, 3000);
        }
        _ => panic!("expected the initial state"),
    }

    let ev = state.on_tick(&monitored, Ok(vec![record(3000, 10, "node"), record(8080, 20, "java")]));
    assert_eq!(ev.len(), 1);
    match &ev[0] {
        WatchEvent::PortOccupied { port, process_name, pid } => {
            assert_eq!((*port, process_name.as_str(), *pid), (8080, "java", 20));
        }
        _ => panic!("expected 8080 to become occupied"),
    }

    let ev = state.on_tick(&monitored, Ok(vec![record(8080, 20, "java")]));
    assert_eq!(ev.len(), 1);
    assert!(matches!(ev[0], WatchEvent::PortFreed { port: 3000 }));

    let ev = state.on_tick(&monitored, Ok(vec![record(8080, 20, "java")]));
    assert!(ev.is_empty());
}

#[test]
fn watch_first_tick_with_all_free() {
    let mut state = WatchState::new();
    assert!(state.is_first_tick());
    let ev = state.on_tick(&vec![3000], Ok(vec![record(22, 1, "sshd")]));
    assert_eq!(ev.len(), 1);
    match &ev[0] {
        WatchEvent::InitialState { occupied, details } => {
            assert!(occupied.is_empty());
            assert!(details.is_empty());
        }
        _ => panic!("expected the initial state"),
    }
    assert!(!state.is_first_tick());
}

#[test]
fn failed_scan_keeps_previous_state() {
    let monitored = vec![3000];
    let mut state = WatchState::new();
    state.on_tick(&monitored, Ok(vec![record(3000, 10, "node")]));
    let cause = ScanError::ToolFailed(ScanTool::Netstat, Some(1));
    let ev = state.on_tick(&monitored, Err(cause));
    assert_eq!(ev.len(), 1);
    assert!(matches!(ev[0], WatchEvent::ScanFailed { cause: ScanError::ToolFailed(ScanTool::Netstat, Some(1)) }));
    assert_eq!(state.previous(), &vec![3000]);
    let ev = state.on_tick(&monitored, Ok(vec![]));
    assert_eq!(ev.len(), 1);
    assert!(matches!(ev[0], WatchEvent::PortFreed { port: 3000 }));
}

#[test]
fn failed_first_scan_keeps_first_tick_pending() {
    let mut state = WatchState::new();
    let ev = state.on_tick(&vec![3000], Err(ScanError::ToolUnavailable(ScanTool::Lsof)));
    assert_eq!(ev.len(), 1);
    assert!(state.is_first_tick());
}

#[test]
fn duplicate_listeners_count_once() {
    let monitored = vec![3000, 3000];
    let mut state = WatchState::new();
    let ev = state.on_tick(&monitored, Ok(vec![record(3000, 10, "node"), record(3000, 10, "node")]));
    match &ev[0] {
        WatchEvent::InitialState { occupied, details } => {
            assert_eq!(occupied, &vec![3000]);
            assert_eq!(details.len(), 2);
        }
        _ => panic!("expected the initial state"),
    }
}
