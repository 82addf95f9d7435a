use portman::process::{
    is_critical_folded, plan_kill, termination_outcome, KillStep, ProcessManager, TerminationError,
};
use portman::scanner::{PortInfo, ScanError, ScanTool};

#[test]
fn test_process_manager_creation() {
    let _manager = ProcessManager::new();
    // Just verify we can create a manager without panicking
    // Just verify we can create a manager without panicking
}

#[test]
fn test_is_system_critical() {
    let manager = ProcessManager::new();

    // Test system critical processes
    assert!(manager.is_system_critical("systemd"));
    assert!(manager.is_system_critical("kernel"));
    assert!(manager.is_system_critical("sshd"));
    assert!(manager.is_system_critical("System"));
    assert!(manager.is_system_critical("launchd"));

    // Test non-critical processes
    assert!(!manager.is_system_critical("node"));
    assert!(!manager.is_system_critical("python"));
    assert!(!manager.is_system_critical("java"));
    assert!(!manager.is_system_critical("firefox"));
}

#[test]
fn critical_match_ignores_case_and_finds_substrings() {
    let manager = ProcessManager::new();
    assert!(manager.is_system_critical("SSHD"));
    assert!(manager.is_system_critical("WindowServer"));
    assert!(manager.is_system_critical("systemd-journald"));
    assert!(manager.is_system_critical("Dock"));
    assert!(!manager.is_system_critical(""));
    assert!(!manager.is_system_critical("postgres"));
}

#[test]
fn critical_match_on_folded_names() {
    assert!(is_critical_folded("explorer.exe"));
    assert!(is_critical_folded("my-init-script"));
    assert!(!is_critical_folded("SSHD"));
    assert!(!is_critical_folded("redis-server"));
}

#[test]
fn terminating_an_absent_pid_fails() {
    let mut manager = ProcessManager::new();
    assert_eq!(
        manager.request_termination(u32::MAX),
        Err(TerminationError::NotFound(u32::MAX))
    );
}

#[test]
fn completing_for_an_exited_process_reports_the_first_signal() {
    let mut manager = ProcessManager::new();
    assert!(manager.complete_termination(u32::MAX, Some(true)));
    assert!(!manager.complete_termination(u32::MAX, Some(false)));
    assert!(!manager.complete_termination(u32::MAX, None));
}

#[test]
fn immediate_termination_of_an_absent_pid_fails() {
    let mut manager = ProcessManager::new();
    assert_eq!(
        manager.terminate_immediately(u32::MAX),
        Err(TerminationError::NotFound(u32::MAX))
    );
}

#[test]
fn termination_outcomes() {
    assert!(termination_outcome(Some(Some(true)), Some(false)));
    assert!(!termination_outcome(Some(Some(false)), Some(true)));
    assert!(!termination_outcome(Some(None), Some(true)));
    assert!(termination_outcome(None, Some(true)));
    assert!(!termination_outcome(None, Some(false)));
    assert!(!termination_outcome(None, None));
}

fn record(port: u16, pid: u32, name: &str) -> PortInfo {
    PortInfo {
        port,
        pid,
        process_name: name.to_string(),
        command: format!("{name} --serve"),
        start_time: 0,
        memory_usage: 0,
    }
}

#[test]
fn kill_plan_never_offers_critical_processes() {
    let manager = ProcessManager::new();
    match plan_kill(&manager, Ok(Some(record(22, 1, "sshd")))) {
        KillStep::SkipCritical { pid, process_name } => {
            assert_eq!((pid, process_name.as_str()), (1, "sshd"));
        }
        _ => panic!("a critical process must be skipped"),
    }
    match plan_kill(&manager, Ok(Some(record(3000, 42, "node")))) {
        KillStep::Terminate { pid, process_name, command } => {
            assert_eq!((pid, process_name.as_str(), command.as_str()), (42, "node", "node --serve"));
        }
        _ => panic!("a plain process may be terminated"),
    }
    assert!(matches!(plan_kill(&manager, Ok(None)), KillStep::NotInUse));
    assert!(matches!(
        plan_kill(&manager, Err(ScanError::ToolUnavailable(ScanTool::Netstat))),
        KillStep::ScanFailed(ScanError::ToolUnavailable(ScanTool::Netstat))
    ));
}
