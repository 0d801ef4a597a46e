use oxmon::parse::parse_hosts_file;

#[test]
fn test_parse_valid_hosts() {
    let contents = "host1,192.168.1.1\nhost2,10.0.0.1\n";

    let result = parse_hosts_file(contents);
    assert!(result.is_ok());

    let hosts = result.unwrap();
    assert_eq!(hosts.len(), 2);
    assert_eq!(hosts[0].name, "host1");
    assert_eq!(hosts[0].ip, "192.168.1.1");
    assert_eq!(hosts[1].name, "host2");
    assert_eq!(hosts[1].ip, "10.0.0.1");
}

#[test]
fn test_parse_with_whitespace() {
    let contents = "  host1  ,  192.168.1.1  \nhost2,10.0.0.1\n";

    let result = parse_hosts_file(contents);
    assert!(result.is_ok());

    let hosts = result.unwrap();
    assert_eq!(hosts.len(), 2);
    assert_eq!(hosts[0].name, "host1");
    assert_eq!(hosts[0].ip, "192.168.1.1");
}

#[test]
fn test_parse_with_empty_lines() {
    let contents = "host1,192.168.1.1\n\n   \nhost2,10.0.0.1\n";

    let result = parse_hosts_file(contents);
    assert!(result.is_ok());

    let hosts = result.unwrap();
    assert_eq!(hosts.len(), 2);
}

#[test]
fn test_parse_with_comments() {
    let contents = "# This is a comment\nhost1,192.168.1.1\n# Another comment\nhost2,10.0.0.1\n";

    let result = parse_hosts_file(contents);
    assert!(result.is_ok());

    let hosts = result.unwrap();
    assert_eq!(hosts.len(), 2);
}

#[test]
fn test_parse_invalid_format_missing_comma() {
    let contents = "host1 192.168.1.1\n";

    let result = parse_hosts_file(contents);
    assert!(result.is_err());
    assert!(result.unwrap_err().contains("Invalid format at line 1"));
}

#[test]
fn test_parse_invalid_format_too_many_fields() {
    let contents = "host1,192.168.1.1,extra\n";

    let result = parse_hosts_file(contents);
    assert!(result.is_err());
    assert!(result.unwrap_err().contains("Invalid format at line 1"));
}

#[test]
fn test_parse_empty_file() {
    let result = parse_hosts_file("");
    assert!(result.is_err());
    assert!(result.unwrap_err().contains("No hosts found"));
}

#[test]
fn test_parse_only_comments() {
    let contents = "# Comment 1\n# Comment 2\n";

    let result = parse_hosts_file(contents);
    assert!(result.is_err());
    assert!(result.unwrap_err().contains("No hosts found"));
}

#[test]
fn test_parse_real_world_file() {
    let contents = "# Network Hosts\nrouter,192.168.1.1\n\n# Servers\nweb-server,10.0.1.100\ndb-server,10.0.1.200\n\n# DNS\ndns1,8.8.8.8\n";

    let result = parse_hosts_file(contents);
    assert!(result.is_ok());

    let hosts = result.unwrap();
    assert_eq!(hosts.len(), 4);
    assert_eq!(hosts[0].name, "router");
    assert_eq!(hosts[1].name, "web-server");
    assert_eq!(hosts[2].name, "db-server");
    assert_eq!(hosts[3].name, "dns1");
}

#[test]
fn test_parse_error_line_number_counts_all_lines() {
    // Comments and blank lines still advance the line count in messages
    let contents = "# header\n\nhost1,192.168.1.1\nbroken line\n";

    let result = parse_hosts_file(contents);
    assert!(result.is_err());
    assert!(result.unwrap_err().contains("Invalid format at line 4"));
}
