use portman::format::{format_duration, format_memory, format_port_list, truncate_command};

#[test]
fn test_format_duration() {
    assert_eq!(format_duration(30), "30s");
    assert_eq!(format_duration(90), "1m 30s");
    assert_eq!(format_duration(3600), "1h 0m");
    assert_eq!(format_duration(90061), "1d 1h");
}

#[test]
fn test_format_memory() {
    assert_eq!(format_memory(512), "512 B");
    assert_eq!(format_memory(1024), "1.0 KB");
    assert_eq!(format_memory(1536), "1.5 KB");
    assert_eq!(format_memory(1048576), "1.0 MB");
    assert_eq!(format_memory(1073741824), "1.0 GB");
}

#[test]
fn format_duration_edges() {
    assert_eq!(format_duration(0), "0s");
    assert_eq!(format_duration(59), "59s");
    assert_eq!(format_duration(86400), "1d 0h");
    assert_eq!(format_duration(7322), "2h 2m");
}

#[test]
fn format_memory_units_and_rounding() {
    assert_eq!(format_memory(0), "0 B");
    assert_eq!(format_memory(1023), "1023 B");
    assert_eq!(format_memory(1100), "1.1 KB");
    assert_eq!(format_memory(1099511627776), "1.0 TB");
    assert_eq!(format_memory(1024 * 1099511627776), "1024.0 TB");
}

#[test]
fn port_list_is_sorted_and_distinct() {
    assert_eq!(format_port_list(&vec![8080, 3000, 8080]), "3000, 8080");
    assert_eq!(format_port_list(&vec![]), "");
    assert_eq!(format_port_list(&vec![65535, 0]), "0, 65535");
}

#[test]
fn command_truncation() {
    assert_eq!(truncate_command("short", 50), "short");
    assert_eq!(truncate_command("abcdefghij", 8), "abcde...");
    assert_eq!(truncate_command("abcdefghij", 10), "abcdefghij");
    assert_eq!(truncate_command("abcdef", 2), "...");
}
