use portman::config::{marker_files, ConfigError, PortmanConfig};
use portman::listing::{common_ports_in_use, ports_to_check, select_ports, CheckArgError, Selection};
use portman::scanner::{join_command, PortInfo, PortRangeError};

#[test]
fn default_config_is_valid() {
    let c = PortmanConfig::default();
    assert_eq!(c.ports, vec![3000, 3001, 5432, 6379]);
    assert_eq!(c.watch_interval, Some(5));
    assert!(c.project.is_none());
    assert_eq!(c.validate(), Ok(()));
}

#[test]
fn validation_errors() {
    let mut c = PortmanConfig::default();
    c.ports = vec![];
    assert_eq!(c.validate(), Err(ConfigError::NoPorts));
    c.ports = vec![3000, 0];
    assert_eq!(c.validate(), Err(ConfigError::ReservedPort(0)));
    c.ports = vec![3000];
    c.watch_interval = Some(0);
    assert_eq!(c.validate(), Err(ConfigError::ZeroInterval));
    c.watch_interval = None;
    assert_eq!(c.validate(), Ok(()));
    assert_eq!(ConfigError::NoPorts.message(), "Configuration must specify at least one port");
}

#[test]
fn project_defaults_follow_first_marker() {
    assert_eq!(marker_files()[1], "Cargo.toml");
    let c = PortmanConfig::for_project(Some("demo".to_string()), &vec![false, true, true]);
    assert_eq!(c.ports, vec![8000, 8080, 3000]);
    assert_eq!(c.project.as_deref(), Some("demo"));
    let c = PortmanConfig::for_project(None, &vec![false; 6]);
    assert_eq!(c.ports, vec![3000, 3001, 5432, 6379]);
    let c = PortmanConfig::for_project(None, &vec![false, false, false, false, false, true]);
    assert_eq!(c.ports, vec![3000, 5432, 6379, 8080]);
}

#[test]
fn check_arguments() {
    let args = vec!["3000".to_string(), "3002-3003".to_string(), "3000".to_string()];
    assert_eq!(ports_to_check(&args), Ok(vec![3000, 3002, 3003]));
    assert_eq!(ports_to_check(&vec!["abc".to_string()]), Err(CheckArgError::InvalidPort(0)));
    assert_eq!(
        ports_to_check(&vec!["1".to_string(), "5-3".to_string(), "x".to_string()]),
        Err(CheckArgError::InvalidRange(1, PortRangeError::StartAfterEnd))
    );
    assert_eq!(ports_to_check(&vec![]), Ok(vec![]));
}

fn record(port: u16, name: &str, command: &str) -> PortInfo {
    PortInfo {
        port,
        pid: port as u32,
        process_name: name.to_string(),
        command: command.to_string(),
        start_time: 0,
        memory_usage: 0,
    }
}

#[test]
fn listing_selection_and_order() {
    let all = vec![
        record(8080, "java", "java -jar app.jar"),
        record(3000, "node", "node server.js"),
        record(22, "sshd", "sshd -D"),
        record(3000, "node", "node other.js"),
    ];
    let everything = Selection { common: false, range: None, filter: None };
    let ports: Vec<u16> = select_ports(&all, &everything).iter().map(|r| r.port).collect();
    assert_eq!(ports, vec![22, 3000, 3000, 8080]);
    let sorted = select_ports(&all, &everything);
    assert_eq!(sorted[1].command, "node server.js");
    assert_eq!(sorted[2].command, "node other.js");

    let common = Selection { common: true, range: None, filter: None };
    let ports: Vec<u16> = select_ports(&all, &common).iter().map(|r| r.port).collect();
    assert_eq!(ports, vec![3000, 3000, 8080]);

    let ranged = Selection { common: false, range: Some((1, 100)), filter: None };
    let ports: Vec<u16> = select_ports(&all, &ranged).iter().map(|r| r.port).collect();
    assert_eq!(ports, vec![22]);

    let named = Selection { common: false, range: None, filter: Some("JAR".to_string()) };
    let ports: Vec<u16> = select_ports(&all, &named).iter().map(|r| r.port).collect();
    assert_eq!(ports, vec![8080]);
}

#[test]
fn common_ports_in_scan_order() {
    let all = vec![
        record(8080, "java", "java"),
        record(22, "sshd", "sshd"),
        record(3000, "node", "node"),
        record(8080, "java", "java"),
    ];
    assert_eq!(common_ports_in_use(&all), vec![8080, 3000, 8080]);
    assert_eq!(common_ports_in_use(&vec![]), Vec::<u16>::new());
}

#[test]
fn command_lines_join_arguments() {
    let args = vec!["server.js".to_string(), "--port".to_string(), "3000".to_string()];
    assert_eq!(join_command(&"node".to_string(), &args), "node server.js --port 3000");
    assert_eq!(join_command(&"init".to_string(), &vec![]), "init ");
}
