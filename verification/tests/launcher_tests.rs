use trident::config::TerminalConfig;
use trident::launcher::{TerminalLauncher, escape_shell_command, extract_app_name};
use trident::parser::HostEntry;

#[test]
fn test_escape_shell_command_basic() {
    let command = "ssh user@server.com";
    let escaped = escape_shell_command(command);
    assert_eq!(escaped, "ssh user@server.com");
}

#[test]
fn test_escape_shell_command_with_special_chars() {
    let command = "ssh user@server.com; echo 'hacked'";
    let escaped = escape_shell_command(command);
    assert_eq!(escaped, "ssh user@server.com\\; echo \\'hacked\\'");
}

#[test]
fn test_escape_shell_command_with_quotes() {
    let command = "ssh user@server.com -t \"sudo su\"";
    let escaped = escape_shell_command(command);
    assert_eq!(escaped, "ssh user@server.com -t \\\"sudo su\\\"");
}

#[test]
fn test_escape_shell_command_with_dollar_and_backticks() {
    let command = "ssh user@server.com -t 'echo $HOME && `whoami`'";
    let escaped = escape_shell_command(command);
    assert_eq!(
        escaped,
        "ssh user@server.com -t \\'echo \\$HOME \\&\\& \\`whoami\\`\\'"
    );
}

#[test]
fn test_launcher_substitutes_ssh_command() {
    let config = TerminalConfig {
        program: "/usr/bin/osascript".to_string(),
        args: vec![
            "-e".to_string(),
            "tell app \"Terminal\" to do script \"{ssh_command}\"".to_string(),
        ],
    };

    let _launcher = TerminalLauncher::new(config.clone());
    let host = HostEntry::new(
        "test-server".to_string(),
        "ssh user@test-server.com".to_string(),
    );

    // We can't easily test the actual launch without mocking, but we can test the escaping
    let escaped = escape_shell_command(&host.connection_string);
    assert_eq!(escaped, "ssh user@test-server.com");

    // Verify substitution would work
    let substituted = config.args[1].replace("{ssh_command}", &escaped);
    assert_eq!(
        substituted,
        "tell app \"Terminal\" to do script \"ssh user@test-server.com\""
    );
}

#[test]
fn test_launcher_handles_multiple_placeholders() {
    let config = TerminalConfig {
        program: "/usr/bin/terminal".to_string(),
        args: vec![
            "--title".to_string(),
            "SSH: {ssh_command}".to_string(),
            "--execute".to_string(),
            "{ssh_command}".to_string(),
        ],
    };

    let _launcher = TerminalLauncher::new(config.clone());
    let host = HostEntry::new("server".to_string(), "ssh user@server".to_string());

    let escaped = escape_shell_command(&host.connection_string);

    // Test substitution in all args
    let args: Vec<String> = config
        .args
        .iter()
        .map(|arg| arg.replace("{ssh_command}", &escaped))
        .collect();

    assert_eq!(args[0], "--title");
    assert_eq!(args[1], "SSH: ssh user@server");
    assert_eq!(args[2], "--execute");
    assert_eq!(args[3], "ssh user@server");
}

#[test]
fn test_escape_comprehensive_special_chars() {
    let dangerous_command =
        "ssh user@server && rm -rf / | echo \"gotcha\" > /tmp/evil; $(whoami)";
    let escaped = escape_shell_command(dangerous_command);

    // Verify all dangerous characters are escaped
    assert!(escaped.contains("\\&\\&"));
    assert!(escaped.contains("\\|"));
    assert!(escaped.contains("\\;"));
    assert!(escaped.contains("\\\""));
    assert!(escaped.contains("\\$"));
    assert!(escaped.contains("\\("));
    assert!(escaped.contains("\\)"));
    assert!(escaped.contains("\\>"));
}

#[test]
fn test_extract_app_name_from_app_bundle() {
    assert_eq!(
        extract_app_name("/Applications/iTerm.app/Contents/MacOS/iTerm2"),
        "iTerm"
    );
    assert_eq!(
        extract_app_name("/Applications/Alacritty.app/Contents/MacOS/alacritty"),
        "Alacritty"
    );
    assert_eq!(
        extract_app_name("/Applications/Ghostty.app/Contents/MacOS/ghostty"),
        "ghostty"
    );
}

#[test]
fn test_extract_app_name_from_binary_name() {
    assert_eq!(extract_app_name("/usr/bin/iterm2"), "iTerm2");
    assert_eq!(extract_app_name("/usr/local/bin/alacritty"), "Alacritty");
    assert_eq!(extract_app_name("/opt/bin/kitty"), "kitty");
    assert_eq!(extract_app_name("/usr/bin/ghostty"), "ghostty");
    assert_eq!(extract_app_name("/Applications/WezTerm.app/Contents/MacOS/wezterm"), "WezTerm");
}

#[test]
fn test_extract_app_name_fallback() {
    assert_eq!(extract_app_name("some-terminal"), "some-terminal");
    assert_eq!(extract_app_name("/custom/path/custom-term"), "custom-term");
}

#[test]
fn test_should_use_open_command() {
    // Should use open for app bundles
    let config1 = TerminalConfig {
        program: "/Applications/Ghostty.app/Contents/MacOS/ghostty".to_string(),
        args: vec!["-e".to_string(), "{ssh_command}".to_string()],
    };
    let launcher1 = TerminalLauncher::new(config1);
    assert!(launcher1.should_use_open_command());

    // Should use open for iTerm
    let config2 = TerminalConfig {
        program: "/Applications/iTerm.app/Contents/MacOS/iTerm2".to_string(),
        args: vec!["-c".to_string(), "{ssh_command}".to_string()],
    };
    let launcher2 = TerminalLauncher::new(config2);
    assert!(launcher2.should_use_open_command());

    // Should NOT use open for osascript (even though it's for an app)
    let config3 = TerminalConfig {
        program: "/usr/bin/osascript".to_string(),
        args: vec!["-e".to_string(), "tell app \"Terminal\" to do script \"{ssh_command}\"".to_string()],
    };
    let launcher3 = TerminalLauncher::new(config3);
    assert!(!launcher3.should_use_open_command());

    // Should NOT use open for direct binary paths
    let config4 = TerminalConfig {
        program: "/usr/local/bin/alacritty".to_string(),
        args: vec!["-e".to_string(), "{ssh_command}".to_string()],
    };
    let launcher4 = TerminalLauncher::new(config4);
    assert!(!launcher4.should_use_open_command());
}

#[test]
fn test_launch_plan_substitutes_escaped_command() {
    let config = TerminalConfig {
        program: "/Applications/iTerm.app/Contents/MacOS/iTerm2".to_string(),
        args: vec!["-c".to_string(), "run {ssh_command} now".to_string()],
    };
    let launcher = TerminalLauncher::new(config);
    let host = HostEntry::new("box".to_string(), "ssh box; echo hi".to_string());
    let plan = launcher.launch_plan(&host);
    assert!(plan.use_open);
    assert_eq!(plan.app_name, "iTerm");
    assert_eq!(plan.program, "/Applications/iTerm.app/Contents/MacOS/iTerm2");
    assert_eq!(plan.args, vec!["-c".to_string(), "run ssh box\\; echo hi now".to_string()]);
}

#[test]
fn test_escape_newline_and_tab() {
    assert_eq!(escape_shell_command("a\nb\tc"), "a\\nb\\tc");
    assert_eq!(escape_shell_command("a\\b"), "a\\\\b");
    assert_eq!(escape_shell_command("x<y>z"), "x\\<y\\>z");
}
