use trident::config::{Config, ConfigError, SshConfig, ParsingConfig, TerminalConfig, UiConfig, expand_tilde};

fn create_test_config() -> Config {
    Config {
        terminal: TerminalConfig {
            program: "/usr/bin/terminal".to_string(),
            args: vec!["-e".to_string(), "{ssh_command}".to_string()],
        },
        ssh: SshConfig {
            known_hosts_path: "~/.ssh/known_hosts".to_string(),
            config_path: "~/.ssh/config".to_string(),
            ssh_binary: "/usr/bin/ssh".to_string(),
        },
        parsing: ParsingConfig {
            parse_known_hosts: true,
            parse_ssh_config: true,
            simple_config_parsing: true,
            skip_hashed_hosts: true,
        },
        ui: UiConfig {
            max_results: 20,
            case_sensitive: false,
        },
    }
}

#[test]
fn test_validate_empty_terminal_program() {
    let mut config = create_test_config();
    config.terminal.program = "".to_string();

    let result = config.validate();
    assert!(result.is_err());
    assert!(result.unwrap_err().message().contains("Terminal program cannot be empty"));
}

#[test]
fn test_validate_missing_ssh_command_placeholder() {
    let mut config = create_test_config();
    config.terminal.args = vec!["-e".to_string(), "some command".to_string()];

    let result = config.validate();
    assert!(result.is_err());
    assert!(result.unwrap_err().message().contains("{ssh_command} placeholder"));
}

#[test]
fn test_validate_zero_max_results() {
    let mut config = create_test_config();
    config.ui.max_results = 0;

    let result = config.validate();
    assert!(result.is_err());
    assert!(result.unwrap_err().message().contains("max_results must be greater than 0"));
}

#[test]
fn test_validate_no_parsing_sources() {
    let mut config = create_test_config();
    config.parsing.parse_known_hosts = false;
    config.parsing.parse_ssh_config = false;

    let result = config.validate();
    assert!(result.is_err());
    assert!(result.unwrap_err().message().contains("At least one parsing source"));
}

#[test]
fn test_validate_valid_config() {
    let config = create_test_config();
    assert!(config.validate().is_ok());
}

#[test]
fn test_default_config_is_valid() {
    let config = Config::default();
    assert!(config.validate().is_ok());
}

#[test]
fn test_expand_tilde() {
    let home = dirs::home_dir().unwrap();
    let home_str = home.to_string_lossy();

    assert_eq!(
        expand_tilde("~/test", &home_str),
        format!("{}/test", home_str)
    );
    assert_eq!(expand_tilde("/absolute/path", &home_str), "/absolute/path");
    assert_eq!(expand_tilde("relative/path", &home_str), "relative/path");
}

#[test]
fn test_config_expand_paths() {
    let mut config = create_test_config();
    config.expand_path().unwrap();

    let home = dirs::home_dir().unwrap();
    assert_eq!(
        config.ssh.known_hosts_path,
        home.join(".ssh/known_hosts").to_string_lossy()
    );
    assert_eq!(
        config.ssh.config_path,
        home.join(".ssh/config").to_string_lossy()
    );
    assert_eq!(config.ssh.ssh_binary, "/usr/bin/ssh");
}

#[test]
fn test_validate_empty_ssh_binary() {
    let mut config = create_test_config();
    config.ssh.ssh_binary = "".to_string();
    let result = config.validate();
    assert_eq!(result.unwrap_err(), ConfigError::EmptySshBinary);
}

#[test]
fn test_validate_empty_args_need_no_placeholder() {
    let mut config = create_test_config();
    config.terminal.args = Vec::new();
    assert!(config.validate().is_ok());
}

#[test]
fn test_default_config_content_mentions_all_sections() {
    let content = Config::default_config_content();
    assert!(content.contains("[terminal]"));
    assert!(content.contains("[ssh]"));
    assert!(content.contains("[parsing]"));
    assert!(content.contains("[ui]"));
    assert!(content.contains("{ssh_command}"));
}
