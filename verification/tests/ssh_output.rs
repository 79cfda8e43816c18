use cli_manager::listing::directory_entries;
use cli_manager::ssh::{
    connection_test_after_client, finish_connection_test, path_check_result,
    plan_directory_listing, plan_path_check, single_line, ConnectionTestStep, SshClientStatus,
    SshConnectionSpec, SshDiagnosticStage,
};

fn spec() -> SshConnectionSpec {
    SshConnectionSpec {
        host: "example.com".to_string(),
        port: 22,
        username: String::new(),
        config_alias: String::new(),
        auth_mode: "agent".to_string(),
        identity_file: String::new(),
        jump_target: String::new(),
        proxy_command: String::new(),
        connect_timeout_sec: 12,
        server_alive_interval_sec: 30,
        server_alive_count_max: 3,
    }
}

fn view(stages: &[SshDiagnosticStage]) -> Vec<(String, String, String)> {
    stages
        .iter()
        .map(|s| (s.key.clone(), s.status.clone(), s.detail.clone()))
        .collect()
}

fn triple(a: &str, b: &str, c: &str) -> (String, String, String) {
    (a.to_string(), b.to_string(), c.to_string())
}

#[test]
fn single_line_takes_first_non_blank_line() {
    assert_eq!(single_line(b"\n   \r\n  OpenSSH_9.6p1 Ubuntu  \r\nsecond\n"), "OpenSSH_9.6p1 Ubuntu");
    assert_eq!(single_line(b""), "");
    assert_eq!(single_line(b" \t\n\r\n "), "");
    assert_eq!(single_line(b"only"), "only");
    assert_eq!(single_line(&[0xff, b'a', b'\n']), "\u{fffd}a");
    assert_eq!(single_line("\u{a0}caf\u{e9}\u{2003}\nx".as_bytes()), "caf\u{e9}");
}

#[test]
fn client_status_prefers_standard_error() {
    let s = SshClientStatus::from_version_output(true, b"out version\n", b"OpenSSH_9.6\n");
    assert!(s.available);
    assert_eq!(s.version.as_deref(), Some("OpenSSH_9.6"));
    assert!(s.error.is_none());
    let s = SshClientStatus::from_version_output(false, b"out version\n", b"\n");
    assert!(s.available);
    assert_eq!(s.version.as_deref(), Some("out version"));
    let s = SshClientStatus::from_version_output(true, b"", b"");
    assert!(s.available);
    assert!(s.version.is_none());
    let s = SshClientStatus::from_version_output(false, b"  ", b"");
    assert!(!s.available);
    assert!(s.version.is_none());
    let s = SshClientStatus::unavailable("not found".to_string());
    assert!(!s.available);
    assert_eq!(s.error.as_deref(), Some("not found"));
}

#[test]
fn connection_test_stops_without_client() {
    let client = SshClientStatus::unavailable("spawn failed".to_string());
    match connection_test_after_client(&spec(), client) {
        ConnectionTestStep::Finished(r) => {
            assert!(!r.success);
            assert_eq!(view(&r.stages), vec![triple("client", "failed", "spawn failed")]);
        }
        ConnectionTestStep::Probe { .. } => panic!("no probe without a client"),
    }
    let client = SshClientStatus { available: false, version: None, error: None };
    match connection_test_after_client(&spec(), client) {
        ConnectionTestStep::Finished(r) => {
            assert_eq!(view(&r.stages), vec![triple("client", "failed", "ssh_client_unavailable")]);
        }
        ConnectionTestStep::Probe { .. } => panic!("no probe without a client"),
    }
}

#[test]
fn connection_test_stops_on_interactive_auth() {
    let mut s = spec();
    s.auth_mode = "password_prompt".to_string();
    let client = SshClientStatus { available: true, version: Some("OpenSSH_9".to_string()), error: None };
    match connection_test_after_client(&s, client) {
        ConnectionTestStep::Finished(r) => {
            assert!(!r.success);
            assert_eq!(
                view(&r.stages),
                vec![
                    triple("client", "passed", "OpenSSH_9"),
                    triple("authentication", "interactive_required", "ssh_interactive_auth_required"),
                ]
            );
        }
        ConnectionTestStep::Probe { .. } => panic!("no probe for interactive auth"),
    }
}

#[test]
fn connection_test_probes_and_finishes() {
    let client = SshClientStatus { available: true, version: None, error: Some("odd".to_string()) };
    let (stages, invocation) = match connection_test_after_client(&spec(), client) {
        ConnectionTestStep::Probe { stages, invocation } => (stages, invocation),
        ConnectionTestStep::Finished(_) => panic!("expected a probe"),
    };
    assert_eq!(view(&stages), vec![triple("client", "passed", "odd")]);
    assert_eq!(invocation.timeout_secs, 17);
    assert_eq!(invocation.args.last().map(String::as_str), Some("printf CLI_MANAGER_SSH_OK"));
    assert_eq!(invocation.args[invocation.args.len() - 2], "example.com");

    let done = finish_connection_test(stages, true, Some(0), b"motd\nCLI_MANAGER_SSH_OK", b"");
    assert!(done.success);
    assert_eq!(done.stages[1].status, "passed");
    assert_eq!(done.stages[1].detail, "ssh_connection_ready");

    let failed = finish_connection_test(Vec::new(), true, Some(0), b"CLI_MANAGER_SSH_O", b"");
    assert!(!failed.success);
    assert_eq!(view(&failed.stages), vec![triple("connection", "failed", "ssh_exit_status_0")]);

    let failed = finish_connection_test(Vec::new(), false, Some(255), b"CLI_MANAGER_SSH_OK", b"\nPermission denied (publickey).\n");
    assert!(!failed.success);
    assert_eq!(failed.stages[0].detail, "Permission denied (publickey).");

    let failed = finish_connection_test(Vec::new(), false, Some(-2), b"", b"");
    assert_eq!(failed.stages[0].detail, "ssh_exit_status_-2");
    let failed = finish_connection_test(Vec::new(), false, None, b"", b"");
    assert_eq!(failed.stages[0].detail, "ssh_exit_status_-1");
    let failed = finish_connection_test(Vec::new(), false, Some(i32::MIN), b"", b"");
    assert_eq!(failed.stages[0].detail, "ssh_exit_status_-2147483648");
}

#[test]
fn probe_waits_at_most_the_cap() {
    let mut s = spec();
    s.connect_timeout_sec = 300;
    let client = SshClientStatus { available: true, version: None, error: None };
    match connection_test_after_client(&s, client) {
        ConnectionTestStep::Probe { invocation, .. } => assert_eq!(invocation.timeout_secs, 305),
        ConnectionTestStep::Finished(_) => panic!("expected a probe"),
    }
}

#[test]
fn path_check_plan_builds_the_classifying_script() {
    let inv = plan_path_check(&spec(), " /srv/team's app ").unwrap();
    assert_eq!(inv.timeout_secs, 17);
    let script = inv.args.last().unwrap();
    assert_eq!(
        script,
        "if [ ! -d '/srv/team'\\''s app' ]; then printf 'missing'; elif [ ! -x '/srv/team'\\''s app' ]; then printf 'inaccessible'; elif git -C '/srv/team'\\''s app' rev-parse --is-inside-work-tree >/dev/null 2>&1; then printf 'git'; else printf 'ok'; fi"
    );
    let mut s = spec();
    s.auth_mode = "interactive".to_string();
    assert_eq!(plan_path_check(&s, "/srv").err(), Some("ssh_interactive_auth_required".to_string()));
    let mut s = spec();
    s.connect_timeout_sec = 0;
    s.auth_mode = "interactive".to_string();
    assert_eq!(plan_path_check(&s, "/srv/..").err(), Some("ssh_connect_timeout_invalid".to_string()));
    assert_eq!(plan_path_check(&spec(), "relative").err(), Some("ssh_remote_path_invalid".to_string()));
    assert_eq!(plan_path_check(&spec(), "/a/../b").err(), Some("ssh_remote_path_parent_forbidden".to_string()));
}

#[test]
fn path_check_reads_the_printed_word() {
    let r = path_check_result(true, b"git\n", b"").unwrap();
    assert!(r.exists && r.accessible && r.git_repository);
    let r = path_check_result(true, b"  ok ", b"").unwrap();
    assert!(r.exists && r.accessible && !r.git_repository);
    let r = path_check_result(true, b"inaccessible", b"").unwrap();
    assert!(r.exists && !r.accessible && !r.git_repository);
    let r = path_check_result(true, b"missing", b"").unwrap();
    assert!(!r.exists && !r.accessible && !r.git_repository);
    let r = path_check_result(true, b"GIT", b"").unwrap();
    assert!(!r.exists);
    assert_eq!(
        path_check_result(false, b"git", b"\nssh: connect to host x: timed out\n").err(),
        Some("ssh: connect to host x: timed out".to_string())
    );
}

#[test]
fn directory_listing_plan_uses_find() {
    let mut s = spec();
    s.connect_timeout_sec = 301;
    assert_eq!(plan_directory_listing(&s, "/srv").err(), Some("ssh_connect_timeout_invalid".to_string()));
    s.connect_timeout_sec = 300;
    let inv = plan_directory_listing(&s, "/srv/x").unwrap();
    assert_eq!(inv.timeout_secs, 310);
    assert_eq!(inv.args.last().unwrap(), "find -- '/srv/x' -mindepth 1 -maxdepth 1 -type d -print0");
    let inv = plan_directory_listing(&spec(), "/srv/x").unwrap();
    assert_eq!(inv.timeout_secs, 22);
}

#[test]
fn directory_entries_are_named_and_ordered_by_lowercase_name() {
    let out = b"/srv/zeta/\0/srv/Beta\0\0/srv/alpha//\0/srv/\xff\0/srv/beta";
    let entries = directory_entries(true, out, b"").unwrap();
    let seen: Vec<(&str, &str)> = entries.iter().map(|e| (e.name.as_str(), e.path.as_str())).collect();
    assert_eq!(
        seen,
        vec![
            ("alpha", "/srv/alpha"),
            ("Beta", "/srv/Beta"),
            ("beta", "/srv/beta"),
            ("zeta", "/srv/zeta"),
        ]
    );
    let entries = directory_entries(true, b"/x/b\0/x/B\0", b"").unwrap();
    let names: Vec<&str> = entries.iter().map(|e| e.name.as_str()).collect();
    assert_eq!(names, vec!["b", "B"]);
    let entries = directory_entries(true, b"plain\0///\0", b"").unwrap();
    let seen: Vec<(&str, &str)> = entries.iter().map(|e| (e.name.as_str(), e.path.as_str())).collect();
    assert_eq!(seen, vec![("", ""), ("plain", "plain")]);
    assert!(directory_entries(true, b"", b"").unwrap().is_empty());
    assert_eq!(
        directory_entries(false, b"/srv/a\0", b"find: '/srv': Permission denied\n").err(),
        Some("find: '/srv': Permission denied".to_string())
    );
}

#[test]
fn directory_entries_order_non_ascii_names_by_lowercase() {
    let entries = directory_entries(true, "/d/Émile\0/d/zed\0/d/éa\0".as_bytes(), b"").unwrap();
    let names: Vec<&str> = entries.iter().map(|e| e.name.as_str()).collect();
    assert_eq!(names, vec!["zed", "éa", "Émile"]);
}
