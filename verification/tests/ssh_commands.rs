use cli_manager::quoting::posix_quote;
use cli_manager::ssh::{
    ensure_non_interactive, ssh_probe_command, ssh_remote_command, target, validate_remote_path,
    validate_spec, SshConnectionSpec,
};

fn spec() -> SshConnectionSpec {
    SshConnectionSpec {
        host: "example.com".to_string(),
        port: 2222,
        username: "dev".to_string(),
        config_alias: String::new(),
        auth_mode: "identity_file".to_string(),
        identity_file: "/home/dev/.ssh/id_ed25519".to_string(),
        jump_target: "bastion".to_string(),
        proxy_command: String::new(),
        connect_timeout_sec: 12,
        server_alive_interval_sec: 30,
        server_alive_count_max: 3,
    }
}

#[test]
fn builds_safe_structured_probe_arguments() {
    let spec = spec();
    validate_spec(&spec).unwrap();
    assert_eq!(target(&spec), "dev@example.com");
    let args: Vec<String> = ssh_probe_command(&spec);
    assert!(args.windows(2).any(|pair| pair == ["-p", "2222"]));
    assert!(args.windows(2).any(|pair| pair == ["-J", "bastion"]));
    assert!(args.iter().any(|arg| arg == "BatchMode=yes"));
    assert_eq!(
        args.last().map(String::as_str),
        Some("printf CLI_MANAGER_SSH_OK")
    );
}

#[test]
fn config_alias_owns_address_and_port_resolution() {
    let mut spec = spec();
    spec.config_alias = "gpu-dev".to_string();
    spec.host.clear();
    spec.port = 0;
    validate_spec(&spec).unwrap();
    assert_eq!(target(&spec), "gpu-dev");
    let args: Vec<String> = ssh_probe_command(&spec);
    assert!(!args.iter().any(|arg| arg == "-p"));
}

#[test]
fn quotes_remote_paths_and_rejects_parent_traversal() {
    assert_eq!(posix_quote("/srv/team's app"), "'/srv/team'\\''s app'");
    assert_eq!(validate_remote_path("/srv/app").unwrap(), "/srv/app");
    assert!(validate_remote_path("srv/app").is_err());
    assert!(validate_remote_path("/srv/../etc").is_err());
}

#[test]
fn validation_reports_each_refusal_in_order() {
    let mut s = spec();
    s.host = "   ".to_string();
    assert_eq!(validate_spec(&s), Err("ssh_host_address_required".to_string()));
    let mut s = spec();
    s.port = 0;
    assert_eq!(validate_spec(&s), Err("ssh_host_port_invalid".to_string()));
    let mut s = spec();
    s.connect_timeout_sec = 0;
    assert_eq!(validate_spec(&s), Err("ssh_connect_timeout_invalid".to_string()));
    s.connect_timeout_sec = 301;
    assert_eq!(validate_spec(&s), Err("ssh_connect_timeout_invalid".to_string()));
    s.connect_timeout_sec = 300;
    assert_eq!(validate_spec(&s), Ok(()));
    s.server_alive_count_max = 101;
    assert_eq!(validate_spec(&s), Err("ssh_server_alive_count_invalid".to_string()));
    s.server_alive_count_max = 100;
    assert_eq!(validate_spec(&s), Ok(()));
    // A blank host and a zero port: the address is reported first.
    let mut s = spec();
    s.host = String::new();
    s.port = 0;
    assert_eq!(validate_spec(&s), Err("ssh_host_address_required".to_string()));
}

#[test]
fn target_trims_its_parts() {
    let mut s = spec();
    s.config_alias = "  gpu  \t".to_string();
    assert_eq!(target(&s), "gpu");
    let mut s = spec();
    s.username = " \u{3000} ".to_string();
    s.host = "  example.com\n".to_string();
    assert_eq!(target(&s), "example.com");
    let mut s = spec();
    s.username = " dev ".to_string();
    s.host = " host ".to_string();
    assert_eq!(target(&s), "dev@host");
}

#[test]
fn interactive_modes_are_refused() {
    let mut s = spec();
    s.auth_mode = "password_prompt".to_string();
    assert_eq!(ensure_non_interactive(&s), Err("ssh_interactive_auth_required".to_string()));
    s.auth_mode = "interactive".to_string();
    assert_eq!(ensure_non_interactive(&s), Err("ssh_interactive_auth_required".to_string()));
    s.auth_mode = "Interactive".to_string();
    assert_eq!(ensure_non_interactive(&s), Ok(()));
}

#[test]
fn remote_command_arguments_in_full() {
    let mut s = spec();
    s.proxy_command = "  nc -x proxy:1080 %h %p ".to_string();
    s.identity_file = " /k ".to_string();
    let args = ssh_remote_command(&s, "uptime");
    let expected: Vec<&str> = vec![
        "-T",
        "-o",
        "BatchMode=yes",
        "-o",
        "ConnectTimeout=12",
        "-o",
        "ServerAliveInterval=30",
        "-o",
        "ServerAliveCountMax=3",
        "-p",
        "2222",
        "-i",
        "/k",
        "-J",
        "bastion",
        "-o",
        "ProxyCommand=nc -x proxy:1080 %h %p",
        "dev@example.com",
        "uptime",
    ];
    assert_eq!(args, expected);

    let mut s = spec();
    s.config_alias = "alias".to_string();
    s.identity_file = "  ".to_string();
    s.jump_target = String::new();
    s.connect_timeout_sec = 0;
    s.server_alive_interval_sec = 18446744073709551615;
    s.server_alive_count_max = 4294967295;
    let args = ssh_remote_command(&s, "true");
    let expected: Vec<&str> = vec![
        "-T",
        "-o",
        "BatchMode=yes",
        "-o",
        "ConnectTimeout=0",
        "-o",
        "ServerAliveInterval=18446744073709551615",
        "-o",
        "ServerAliveCountMax=4294967295",
        "alias",
        "true",
    ];
    assert_eq!(args, expected);
}

#[test]
fn remote_paths_are_checked_after_trimming() {
    assert_eq!(validate_remote_path("  /srv/app \n").unwrap(), "/srv/app");
    assert_eq!(validate_remote_path("/srv/..hidden/x").unwrap(), "/srv/..hidden/x");
    assert_eq!(validate_remote_path("/srv/a..").unwrap(), "/srv/a..");
    assert_eq!(validate_remote_path("/").unwrap(), "/");
    assert_eq!(validate_remote_path(""), Err("ssh_remote_path_invalid".to_string()));
    assert_eq!(validate_remote_path("/srv/a\0b"), Err("ssh_remote_path_invalid".to_string()));
    assert_eq!(validate_remote_path("/srv/a\nb"), Err("ssh_remote_path_invalid".to_string()));
    assert_eq!(validate_remote_path("/srv/a\rb"), Err("ssh_remote_path_invalid".to_string()));
    assert_eq!(validate_remote_path("/srv/.."), Err("ssh_remote_path_parent_forbidden".to_string()));
    assert_eq!(validate_remote_path("/../srv"), Err("ssh_remote_path_parent_forbidden".to_string()));
    assert_eq!(validate_remote_path("../srv"), Err("ssh_remote_path_invalid".to_string()));
}

#[test]
fn quoting_keeps_plain_text_and_escapes_each_quote() {
    assert_eq!(posix_quote(""), "''");
    assert_eq!(posix_quote("plain path"), "'plain path'");
    assert_eq!(posix_quote("''"), "''\\'''\\'''");
    assert_eq!(posix_quote("naïve $HOME"), "'naïve $HOME'");
}
