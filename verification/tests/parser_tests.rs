use trident::parser::{parse_known_hosts_content, parse_ssh_config_content, merge_hosts, HostEntry};

#[test]
fn test_parse_known_hosts_simple() {
    let content = "example.com ssh-rsa AAAAB3NzaC1yc2EAAAABIwAAAQEA...
server1.local ssh-ed25519 AAAAC3NzaC1lZDI1NTE5AAAAI...
192.168.1.100 ssh-rsa AAAAB3NzaC1yc2EAAAABIwAAAQEA...";

    let entries = parse_known_hosts_content(content, false);

    assert_eq!(entries.len(), 2);
    assert_eq!(entries[0].name, "example.com");
    assert_eq!(entries[0].connection_string, "ssh example.com");
    assert_eq!(entries[1].name, "server1.local");
    assert_eq!(entries[1].connection_string, "ssh server1.local");
}

#[test]
fn test_parse_known_hosts_with_ports() {
    let content = "[example.com]:2222 ssh-rsa AAAAB3NzaC1yc2EAAAABIwAAAQEA...
[server.local]:22 ssh-ed25519 AAAAC3NzaC1lZDI1NTE5AAAAI...";

    let entries = parse_known_hosts_content(content, false);

    assert_eq!(entries.len(), 2);
    assert_eq!(entries[0].name, "example.com");
    assert_eq!(entries[1].name, "server.local");
}

#[test]
fn test_parse_known_hosts_skip_hashed() {
    let content = "|1|hash1= ssh-rsa AAAAB3NzaC1yc2EAAAABIwAAAQEA...
example.com ssh-rsa AAAAB3NzaC1yc2EAAAABIwAAAQEA...
|1|hash2= ssh-ed25519 AAAAC3NzaC1lZDI1NTE5AAAAI...";

    let entries = parse_known_hosts_content(content, true);

    assert_eq!(entries.len(), 1);
    assert_eq!(entries[0].name, "example.com");
}

#[test]
fn test_parse_known_hosts_comma_separated() {
    let content = "example.com,alias.example.com,10.0.0.1 ssh-rsa AAAAB3NzaC1yc2EAAAABIwAAAQEA...";

    let entries = parse_known_hosts_content(content, false);

    assert_eq!(entries.len(), 2);
    assert!(entries.iter().any(|e| e.name == "example.com"));
    assert!(entries.iter().any(|e| e.name == "alias.example.com"));
}

#[test]
fn test_parse_ssh_config_simple() {
    let content = "# SSH Config file
Host myserver
    HostName example.com
    User admin
    Port 2222

Host production
    HostName prod.example.com

Host *.internal
    User root

Host github.com
    User git";

    let entries = parse_ssh_config_content(content, true);

    assert_eq!(entries.len(), 3);
    assert!(entries.iter().any(|e| e.name == "myserver"));
    assert!(entries.iter().any(|e| e.name == "production"));
    assert!(entries.iter().any(|e| e.name == "github.com"));
    // Wildcard hosts should be skipped
    assert!(!entries.iter().any(|e| e.name.contains('*')));
}

#[test]
fn test_parse_ssh_config_empty() {
    let content = "# Empty config with only comments
# and blank lines

";

    let entries = parse_ssh_config_content(content, true);

    assert_eq!(entries.len(), 0);
}

#[test]
fn test_host_entry_deduplication() {
    let content = "example.com ssh-rsa AAAAB3NzaC1yc2EAAAABIwAAAQEA...
example.com ssh-ed25519 AAAAC3NzaC1lZDI1NTE5AAAAI...";

    let entries = parse_known_hosts_content(content, false);

    assert_eq!(entries.len(), 1);
    assert_eq!(entries[0].name, "example.com");
}

#[test]
fn test_skip_hashed_spec_scenario() {
    let content = "|1|hash= ssh-rsa AAA...\nexample.com ssh-rsa AAA...\n";
    let entries = parse_known_hosts_content(content, true);
    assert_eq!(entries.len(), 1);
    assert_eq!(entries[0].name, "example.com");
}

#[test]
fn test_wildcard_only_config_yields_nothing() {
    let entries = parse_ssh_config_content("Host *.internal\n    User root\n", true);
    assert!(entries.is_empty());
}

#[test]
fn test_config_block_round_trip() {
    let entries = parse_ssh_config_content("Host foo\n    User bar\n", true);
    assert_eq!(entries.len(), 1);
    assert_eq!(entries[0].name, "foo");
    assert_eq!(entries[0].connection_string, "ssh foo");
}

#[test]
fn test_merge_prefers_first_source_on_ties() {
    let known = vec![
        HostEntry::new("beta".to_string(), "ssh beta-from-known".to_string()),
        HostEntry::new("alpha".to_string(), "ssh alpha".to_string()),
    ];
    let config = vec![
        HostEntry::new("beta".to_string(), "ssh beta-from-config".to_string()),
        HostEntry::new("gamma".to_string(), "ssh gamma".to_string()),
    ];
    let merged = merge_hosts(&known, &config);
    assert_eq!(merged.len(), 3);
    assert_eq!(merged[0].name, "alpha");
    assert_eq!(merged[1].name, "beta");
    assert_eq!(merged[1].connection_string, "ssh beta-from-known");
    assert_eq!(merged[2].name, "gamma");
}

#[test]
fn test_merge_is_idempotent() {
    let known = vec![
        HostEntry::new("b".to_string(), "ssh b".to_string()),
        HostEntry::new("a".to_string(), "ssh a".to_string()),
        HostEntry::new("b".to_string(), "ssh b2".to_string()),
    ];
    let once = merge_hosts(&known, &Vec::new());
    let twice = merge_hosts(&once, &Vec::new());
    assert_eq!(once.len(), twice.len());
    for (x, y) in once.iter().zip(twice.iter()) {
        assert_eq!(x.name, y.name);
        assert_eq!(x.connection_string, y.connection_string);
    }
}

#[test]
fn test_parse_known_hosts_empty_input() {
    assert!(parse_known_hosts_content("", true).is_empty());
    assert!(parse_known_hosts_content("# only a comment\n", false).is_empty());
}

#[test]
fn test_known_hosts_output_sorted_by_name() {
    let content = "zeta ssh-rsa AAA\nalpha ssh-rsa BBB\nmiddle ssh-rsa CCC\n";
    let entries = parse_known_hosts_content(content, false);
    assert_eq!(entries.len(), 3);
    assert_eq!(entries[0].name, "alpha");
    assert_eq!(entries[1].name, "middle");
    assert_eq!(entries[2].name, "zeta");
}
