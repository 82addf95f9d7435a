use portman::listing::is_common_dev_port;
use portman::scanner::{
    listening_sockets, parse_lsof_line, parse_netstat_line, parse_netstat_line_windows,
    parse_port_range, PortRangeError, PortScanner, ScanError, ScanTool, ToolRun,
    COMMON_DEV_PORTS,
};

#[test]
fn test_parse_port_range_valid() {
    assert_eq!(parse_port_range("3000-3010").unwrap(), (3000, 3010));
    assert_eq!(parse_port_range("80-8080").unwrap(), (80, 8080));
    assert_eq!(parse_port_range("1-65535").unwrap(), (1, 65535));
}

#[test]
fn test_parse_port_range_invalid() {
    assert!(parse_port_range("3000").is_err());
    assert!(parse_port_range("3000-").is_err());
    assert!(parse_port_range("-3000").is_err());
    assert!(parse_port_range("3000-abc").is_err());
    assert!(parse_port_range("abc-3000").is_err());
    assert!(parse_port_range("3000-2999").is_err()); // start > end
}

#[test]
fn port_range_errors_name_the_cause() {
    assert_eq!(parse_port_range("3000"), Err(PortRangeError::Format));
    assert_eq!(parse_port_range("1-2-3"), Err(PortRangeError::Format));
    assert_eq!(parse_port_range("-3000"), Err(PortRangeError::InvalidStart));
    assert_eq!(parse_port_range("3000-"), Err(PortRangeError::InvalidEnd));
    assert_eq!(parse_port_range("3000-70000"), Err(PortRangeError::InvalidEnd));
    assert_eq!(parse_port_range("3000-2999"), Err(PortRangeError::StartAfterEnd));
    assert_eq!(parse_port_range("+80-80"), Ok((80, 80)));
}

#[test]
fn test_common_dev_ports() {
    assert!(COMMON_DEV_PORTS.contains(&3000));
    assert!(COMMON_DEV_PORTS.contains(&8080));
    assert!(COMMON_DEV_PORTS.contains(&5000));
    assert!(!COMMON_DEV_PORTS.contains(&22)); // SSH port shouldn't be included
}

#[test]
fn common_port_check() {
    assert!(is_common_dev_port(5173));
    assert!(is_common_dev_port(9090));
    assert!(!is_common_dev_port(22));
    assert!(!is_common_dev_port(5432));
}

#[test]
fn test_port_scanner_creation() {
    let _scanner = PortScanner::new();
    // Just verify we can create a scanner without panicking
    assert!(true);
}

#[test]
fn netstat_line_with_pid_and_name() {
    let line = "tcp        0      0 0.0.0.0:8080            0.0.0.0:*               LISTEN      1234/node";
    assert_eq!(parse_netstat_line(line), Some((8080, Some(1234))));
}

#[test]
fn netstat_line_ipv6_takes_last_colon() {
    let line = "tcp6       0      0 :::3000                 :::*                    LISTEN      5678/python3";
    assert_eq!(parse_netstat_line(line), Some((3000, Some(5678))));
    let line = "tcp6 0 0 fe80::1:443 :::* LISTEN 42/nginx:worker";
    assert_eq!(parse_netstat_line(line), Some((443, Some(42))));
}

#[test]
fn netstat_line_without_pid() {
    let line = "tcp        0      0 127.0.0.1:631           0.0.0.0:*               LISTEN      -";
    assert_eq!(parse_netstat_line(line), Some((631, None)));
}

#[test]
fn netstat_line_malformed() {
    assert_eq!(parse_netstat_line("Active Internet connections (only servers)"), None);
    assert_eq!(parse_netstat_line("tcp 0 0"), None);
    assert_eq!(parse_netstat_line("tcp 0 0 0.0.0.0:http 0.0.0.0:* LISTEN 1/init"), None);
    assert_eq!(parse_netstat_line("tcp 0 0 localhost 0.0.0.0:* LISTEN 1/init"), None);
    assert_eq!(parse_netstat_line("tcp 0 0 0.0.0.0:22 0.0.0.0:* LISTEN x/init"), Some((22, None)));
}

#[test]
fn lsof_line() {
    let line = "node      1234 user   23u  IPv4 0x1234      0t0  TCP *:3000 (LISTEN)";
    assert_eq!(parse_lsof_line(line), Some((3000, 1234)));
    let line = "node      1234 user   23u  IPv6 0x1234      0t0  TCP [::1]:5173 (LISTEN)";
    assert_eq!(parse_lsof_line(line), Some((5173, 1234)));
    assert_eq!(parse_lsof_line("COMMAND PID USER FD TYPE DEVICE SIZE/OFF NODE NAME"), None);
}

#[test]
fn windows_line() {
    let line = "  TCP    0.0.0.0:135            0.0.0.0:0              LISTENING       1004";
    assert_eq!(parse_netstat_line_windows(line), Some((135, 1004)));
    let line = "  TCP    [::]:445               [::]:0                 LISTENING       4";
    assert_eq!(parse_netstat_line_windows(line), Some((445, 4)));
    assert_eq!(parse_netstat_line_windows("  TCP    0.0.0.0:135"), None);
}

#[test]
fn sockets_of_netstat_output() {
    let out = "Active Internet connections (only servers)\n\
Proto Recv-Q Send-Q Local Address           Foreign Address         State       PID/Program name\n\
tcp        0      0 0.0.0.0:8080            0.0.0.0:*               LISTEN      1234/node\n\
tcp        0      0 127.0.0.1:631           0.0.0.0:*               LISTEN      -\n\
tcp6       0      0 :::3000                 :::*                    LISTEN      5678/python3\n";
    assert_eq!(listening_sockets(ScanTool::Netstat, out), vec![(8080, 1234), (3000, 5678)]);
}

#[test]
fn sockets_of_lsof_and_windows_output() {
    let out = "COMMAND PID USER FD TYPE DEVICE SIZE/OFF NODE NAME\r\n\
node 1234 me 23u IPv4 0x1 0t0 TCP *:3000 (LISTEN)\r\n\
ruby 99 me 9u IPv4 0x2 0t0 TCP 127.0.0.1:4000 (LISTEN)";
    assert_eq!(listening_sockets(ScanTool::Lsof, out), vec![(3000, 1234), (4000, 99)]);
    let out = "\nActive Connections\n\n  Proto  Local Address          Foreign Address        State           PID\n\
  TCP    0.0.0.0:135            0.0.0.0:0              LISTENING       1004\n\
  UDP    0.0.0.0:500            *:*                                    4400\n";
    assert_eq!(listening_sockets(ScanTool::NetstatWindows, out), vec![(135, 1004)]);
}

#[test]
fn header_only_output_has_no_sockets() {
    assert_eq!(listening_sockets(ScanTool::Netstat, ""), vec![]);
    assert_eq!(listening_sockets(ScanTool::Netstat, "only one line\n"), vec![]);
}

#[test]
fn scan_failures_are_errors() {
    let scanner = PortScanner::new();
    assert_eq!(
        scanner.scan_all_ports(ScanTool::Netstat, ToolRun::NotStarted).unwrap_err(),
        ScanError::ToolUnavailable(ScanTool::Netstat)
    );
    assert_eq!(
        scanner.scan_all_ports(ScanTool::Lsof, ToolRun::Failed(Some(1))).unwrap_err(),
        ScanError::ToolFailed(ScanTool::Lsof, Some(1))
    );
    assert!(scanner
        .get_port_info(ScanTool::Netstat, ToolRun::NotStarted, 80)
        .is_err());
}

#[test]
fn sockets_of_vanished_processes_are_dropped() {
    let scanner = PortScanner::new();
    let out = "h1\nh2\ntcp 0 0 0.0.0.0:8080 0.0.0.0:* LISTEN 4294967295/gone\n";
    let records = scanner
        .scan_all_ports(ScanTool::Netstat, ToolRun::Succeeded(out.to_string()))
        .unwrap();
    assert!(records.is_empty());
}

#[test]
fn sockets_of_live_processes_are_resolved() {
    let mut scanner = PortScanner::new();
    scanner.refresh();
    let out = "h1\nh2\ntcp 0 0 0.0.0.0:8080 0.0.0.0:* LISTEN 1/init\ntcp 0 0 :::8081 :::* LISTEN 1/init\n";
    let records = scanner
        .scan_all_ports(ScanTool::Netstat, ToolRun::Succeeded(out.to_string()))
        .unwrap();
    assert_eq!(records.len(), 2);
    assert_eq!((records[0].port, records[0].pid), (8080, 1));
    assert_eq!((records[1].port, records[1].pid), (8081, 1));
    assert!(records[0].command.starts_with(&format!("{} ", records[0].process_name)));
    let first = scanner
        .get_port_info(ScanTool::Netstat, ToolRun::Succeeded(out.to_string()), 8081)
        .unwrap()
        .unwrap();
    assert_eq!((first.port, first.pid), (8081, 1));
    let none = scanner
        .get_port_info(ScanTool::Netstat, ToolRun::Succeeded(out.to_string()), 9999)
        .unwrap();
    assert!(none.is_none());
}

#[test]
fn repeated_scans_agree() {
    let scanner = PortScanner::new();
    let out = "h1\nh2\ntcp 0 0 0.0.0.0:8080 0.0.0.0:* LISTEN 1/init\n";
    let a = scanner
        .scan_all_ports(ScanTool::Netstat, ToolRun::Succeeded(out.to_string()))
        .unwrap();
    let b = scanner
        .scan_all_ports(ScanTool::Netstat, ToolRun::Succeeded(out.to_string()))
        .unwrap();
    let pa: Vec<(u16, u32)> = a.iter().map(|r| (r.port, r.pid)).collect();
    let pb: Vec<(u16, u32)> = b.iter().map(|r| (r.port, r.pid)).collect();
    assert_eq!(pa, pb);
}

#[test]
fn only_listening_tcp_sockets_are_kept() {
    let out = "h1\nh2\n\
tcp        0      0 0.0.0.0:8080            0.0.0.0:*               LISTEN      1234/node\n\
udp        0      0 0.0.0.0:68              0.0.0.0:*                           900/dhclient\n\
tcp        0      0 10.0.0.5:50000          93.184.216.34:443       ESTABLISHED 999/curl\n";
    assert_eq!(listening_sockets(ScanTool::Netstat, out), vec![(8080, 1234)]);
    let out = "\nActive Connections\n\n  Proto  Local Address          Foreign Address        State           PID\n\
  TCP    10.0.0.5:50000         93.184.216.34:443      ESTABLISHED     999\n\
  TCP    0.0.0.0:135            0.0.0.0:0              LISTENING       1004\n";
    assert_eq!(listening_sockets(ScanTool::NetstatWindows, out), vec![(135, 1004)]);
    let out = "COMMAND PID USER FD TYPE DEVICE SIZE/OFF NODE NAME\n\
curl 999 me 5u IPv4 0x1 0t0 TCP 10.0.0.5:50000->93.184.216.34:443 (ESTABLISHED)\n\
node 1234 me 23u IPv4 0x1 0t0 TCP *:3000 (LISTEN)\n";
    assert_eq!(listening_sockets(ScanTool::Lsof, out), vec![(3000, 1234)]);
}

#[test]
fn unicode_whitespace_separates_columns() {
    let line = "tcp\u{a0}0 0 0.0.0.0:8080\u{3000}0.0.0.0:* LISTEN 1234/node";
    assert_eq!(parse_netstat_line(line), Some((8080, Some(1234))));
}

#[test]
fn deleting_dash_lines_changes_nothing() {
    let with = "h1\nh2\n\
tcp 0 0 0.0.0.0:8080 0.0.0.0:* LISTEN 1234/node\n\
tcp 0 0 127.0.0.1:631 0.0.0.0:* LISTEN -\n\
tcp6 0 0 :::3000 :::* LISTEN 5678/python3\n";
    let without = "h1\nh2\n\
tcp 0 0 0.0.0.0:8080 0.0.0.0:* LISTEN 1234/node\n\
tcp6 0 0 :::3000 :::* LISTEN 5678/python3\n";
    assert_eq!(
        listening_sockets(ScanTool::Netstat, with),
        listening_sockets(ScanTool::Netstat, without)
    );
}
