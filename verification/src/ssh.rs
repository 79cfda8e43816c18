//! SSH connection settings: validation, the `ssh` argument list, the remote
//! scripts, and the reading of what `ssh` printed.
use vstd::prelude::*;
use crate::quoting::{posix_quote, posix_quoted};
use crate::text::{
    blank, chars_of, first_line_of, decimal, decode_lossy, equals_str, first_line, is_blank, push_char,
    push_decimal, push_signed_decimal, signed_decimal, trim, trim_bounds, trimmed, utf8_lossy,
};

verus! {

/// How to reach a remote host, as the front end describes it.
pub struct SshConnectionSpec {
    pub host: String,
    pub port: u16,
    pub username: String,
    pub config_alias: String,
    pub auth_mode: String,
    pub identity_file: String,
    pub jump_target: String,
    pub proxy_command: String,
    pub connect_timeout_sec: u64,
    pub server_alive_interval_sec: u64,
    pub server_alive_count_max: u32,
}

/// Whether the local `ssh` client can be used, and what it says of itself.
pub struct SshClientStatus {
    pub available: bool,
    pub version: Option<String>,
    pub error: Option<String>,
}

/// One step of a connection test.
pub struct SshDiagnosticStage {
    pub key: String,
    pub status: String,
    pub detail: String,
}

/// The outcome of a connection test, with each stage that was reached.
pub struct SshConnectionTestResult {
    pub success: bool,
    pub stages: Vec<SshDiagnosticStage>,
}

/// One subdirectory found by a listing.
pub struct SshDirectoryEntry {
    pub name: String,
    pub path: String,
}

/// What a remote path turned out to be.
pub struct SshPathCheckResult {
    pub exists: bool,
    pub accessible: bool,
    pub git_repository: bool,
}

/// One `ssh` run to perform: its arguments and how long to wait for it.
pub struct RemoteInvocation {
    pub args: Vec<String>,
    pub timeout_secs: u64,
}

/// The next move of a connection test once the client status is known.
pub enum ConnectionTestStep {
    /// The test is over.
    Finished(SshConnectionTestResult),
    /// Run the probe, then finish with these stages.
    Probe { stages: Vec<SshDiagnosticStage>, invocation: RemoteInvocation },
}

/// The texts of a list of strings.
pub open spec fn views(v: Seq<String>) -> Seq<Seq<char>> {
    v.map_values(|s: String| s@)
}

/// The key, status and detail of a stage.
pub open spec fn stage_view(s: SshDiagnosticStage) -> (Seq<char>, Seq<char>, Seq<char>) {
    (s.key@, s.status@, s.detail@)
}

/// The views of a list of stages.
pub open spec fn stage_views(v: Seq<SshDiagnosticStage>) -> Seq<(Seq<char>, Seq<char>, Seq<char>)> {
    v.map_values(|s: SshDiagnosticStage| stage_view(s))
}

/// The first reason, in order, for which the settings are refused.
pub open spec fn validation_error(spec: SshConnectionSpec) -> Option<Seq<char>> {
    if is_blank(spec.config_alias@) && is_blank(spec.host@) {
        Some("ssh_host_address_required"@)
    } else if is_blank(spec.config_alias@) && spec.port == 0 {
        Some("ssh_host_port_invalid"@)
    } else if spec.connect_timeout_sec == 0 || spec.connect_timeout_sec > 300 {
        Some("ssh_connect_timeout_invalid"@)
    } else if spec.server_alive_count_max > 100 {
        Some("ssh_server_alive_count_invalid"@)
    } else {
        None
    }
}

/// The destination handed to `ssh`: the configured alias when there is one,
/// else `user@host` (or the bare host without a user), trimmed.
pub open spec fn ssh_target(spec: SshConnectionSpec) -> Seq<char> {
    if !is_blank(spec.config_alias@) {
        trim(spec.config_alias@)
    } else if is_blank(spec.username@) {
        trim(spec.host@)
    } else {
        trim(spec.username@) + seq!['@'] + trim(spec.host@)
    }
}

/// Whether the authentication mode needs a person at the keyboard.
pub open spec fn needs_interaction(spec: SshConnectionSpec) -> bool {
    spec.auth_mode@ == "password_prompt"@ || spec.auth_mode@ == "interactive"@
}

/// A pair of arguments when `cond` holds, none otherwise.
pub open spec fn arg_pair_if(cond: bool, a: Seq<char>, b: Seq<char>) -> Seq<Seq<char>> {
    if cond {
        seq![a, b]
    } else {
        Seq::empty()
    }
}

/// The non-interactive `ssh` argument list that runs `remote_command`.
pub open spec fn remote_args(spec: SshConnectionSpec, remote_command: Seq<char>) -> Seq<Seq<char>> {
    seq![
        "-T"@,
        "-o"@,
        "BatchMode=yes"@,
        "-o"@,
        "ConnectTimeout="@ + decimal(spec.connect_timeout_sec as nat),
        "-o"@,
        "ServerAliveInterval="@ + decimal(spec.server_alive_interval_sec as nat),
        "-o"@,
        "ServerAliveCountMax="@ + decimal(spec.server_alive_count_max as nat),
    ] + arg_pair_if(is_blank(spec.config_alias@), "-p"@, decimal(spec.port as nat))
        + arg_pair_if(!is_blank(spec.identity_file@), "-i"@, trim(spec.identity_file@))
        + arg_pair_if(!is_blank(spec.jump_target@), "-J"@, trim(spec.jump_target@))
        + arg_pair_if(
        !is_blank(spec.proxy_command@),
        "-o"@,
        "ProxyCommand="@ + trim(spec.proxy_command@),
    ) + seq![ssh_target(spec), remote_command]
}

/// The remote command whose output proves that a session works.
pub open spec fn probe_command() -> Seq<char> {
    "printf CLI_MANAGER_SSH_OK"@
}

/// The marker that the probe prints.
pub open spec fn probe_marker() -> Seq<char> {
    "CLI_MANAGER_SSH_OK"@
}

/// `min(connect_timeout + extra, cap)`: how long to wait for a remote run.
pub open spec fn wait_secs(connect_timeout_sec: u64, extra: u64, cap: u64) -> u64 {
    if connect_timeout_sec + extra > cap {
        cap
    } else {
        (connect_timeout_sec + extra) as u64
    }
}

/// Whether `needle` occurs in `hay`.
pub open spec fn occurs_in(needle: Seq<char>, hay: Seq<char>) -> bool {
    exists|i: int|
        0 <= i && i + needle.len() <= hay.len() && #[trigger] hay.subrange(i, i + needle.len())
            == needle
}

/// The version line of `ssh -V`: the first non-blank line of what it wrote
/// to standard error, or else of what it wrote to standard output.
pub open spec fn client_version_line(stdout: Seq<u8>, stderr: Seq<u8>) -> Seq<char> {
    let err = first_line(utf8_lossy(stderr));
    if err.len() == 0 {
        first_line(utf8_lossy(stdout))
    } else {
        err
    }
}

/// The detail of the client stage: the version, else the error, else
/// `ssh_client_unavailable`.
pub open spec fn client_detail(client: SshClientStatus) -> Seq<char> {
    match client.version {
        Some(v) => v@,
        None => match client.error {
            Some(e) => e@,
            None => "ssh_client_unavailable"@,
        },
    }
}

/// The client stage of a connection test.
pub open spec fn client_stage(client: SshClientStatus) -> (Seq<char>, Seq<char>, Seq<char>) {
    (
        "client"@,
        if client.available {
            "passed"@
        } else {
            "failed"@
        },
        client_detail(client),
    )
}

/// The stage reporting that the authentication mode cannot run unattended.
pub open spec fn interactive_stage() -> (Seq<char>, Seq<char>, Seq<char>) {
    ("authentication"@, "interactive_required"@, "ssh_interactive_auth_required"@)
}

/// Whether a probe run proves the connection: it exited successfully and
/// printed the marker.
pub open spec fn probe_succeeded(exited_successfully: bool, stdout: Seq<u8>) -> bool {
    exited_successfully && occurs_in(probe_marker(), utf8_lossy(stdout))
}

/// The connection stage after the probe ran.
pub open spec fn connection_stage(
    exited_successfully: bool,
    exit_code: Option<i32>,
    stdout: Seq<u8>,
    stderr: Seq<u8>,
) -> (Seq<char>, Seq<char>, Seq<char>) {
    let ok = probe_succeeded(exited_successfully, stdout);
    let err = first_line(utf8_lossy(stderr));
    (
        "connection"@,
        if ok {
            "passed"@
        } else {
            "failed"@
        },
        if ok {
            "ssh_connection_ready"@
        } else if err.len() == 0 {
            "ssh_exit_status_"@ + signed_decimal(
                match exit_code {
                    Some(c) => c as int,
                    None => -1,
                },
            )
        } else {
            err
        },
    )
}

/// The remote script that classifies the directory `quoted` (a quoted path).
pub open spec fn path_check_script(quoted: Seq<char>) -> Seq<char> {
    "if [ ! -d "@ + quoted + " ]; then printf 'missing'; elif [ ! -x "@ + quoted
        + " ]; then printf 'inaccessible'; elif git -C "@ + quoted
        + " rev-parse --is-inside-work-tree >/dev/null 2>&1; then printf 'git'; else printf 'ok'; fi"@
}

/// The remote script that lists the subdirectories of `quoted`, each name
/// ended by a NUL byte.
pub open spec fn listing_script(quoted: Seq<char>) -> Seq<char> {
    "find -- "@ + quoted + " -mindepth 1 -maxdepth 1 -type d -print0"@
}

/// Whether `p` has a `..` component.
pub open spec fn has_parent_component(p: Seq<char>) -> bool {
    exists|i: int|
        0 <= i && i + 2 <= p.len() && #[trigger] p[i] == '.' && p[i + 1] == '.' && (i == 0
            || p[i - 1] == '/') && (i + 2 == p.len() || p[i + 2] == '/')
}

/// Why a remote path is refused, if it is: once trimmed it must be absolute,
/// hold no NUL, line feed or carriage return, and have no `..` component.
pub open spec fn remote_path_error(path: Seq<char>) -> Option<Seq<char>> {
    let p = trim(path);
    if !(p.len() > 0 && p[0] == '/') || p.contains('\0') || p.contains('\n') || p.contains('\r') {
        Some("ssh_remote_path_invalid"@)
    } else if has_parent_component(p) {
        Some("ssh_remote_path_parent_forbidden"@)
    } else {
        None
    }
}

/// The first reason, in order, why a remote run on `path` is refused:
/// invalid settings, an interactive authentication mode, or a bad path.
pub open spec fn remote_run_error(spec: SshConnectionSpec, path: Seq<char>) -> Option<Seq<char>> {
    if validation_error(spec) is Some {
        validation_error(spec)
    } else if needs_interaction(spec) {
        Some("ssh_interactive_auth_required"@)
    } else {
        remote_path_error(path)
    }
}

/// The three findings for the word the path-check script printed.
pub open spec fn path_verdict(word: Seq<char>) -> (bool, bool, bool) {
    if word == "git"@ {
        (true, true, true)
    } else if word == "ok"@ {
        (true, true, false)
    } else if word == "inaccessible"@ {
        (true, false, false)
    } else {
        (false, false, false)
    }
}

/// Every `ssh` run ends with the destination and then the remote command,
/// and runs non-interactively (`-T`, `BatchMode=yes`).
pub proof fn lemma_remote_args_shape(spec: SshConnectionSpec, remote_command: Seq<char>)
    ensures
        ({
            let a = remote_args(spec, remote_command);
            &&& a.len() >= 11
            &&& a[a.len() - 1] == remote_command
            &&& a[a.len() - 2] == ssh_target(spec)
            &&& a[0] == "-T"@
            &&& a[1] == "-o"@ && a[2] == "BatchMode=yes"@
        }),
{
}

/// With a configured alias the destination is the trimmed alias; without
/// one, the port follows `-p` right after the fixed options.
pub proof fn lemma_alias_owns_destination(spec: SshConnectionSpec, remote_command: Seq<char>)
    ensures
        !is_blank(spec.config_alias@) ==> ssh_target(spec) == trim(spec.config_alias@),
        is_blank(spec.config_alias@) ==> remote_args(spec, remote_command)[9] == "-p"@
            && remote_args(spec, remote_command)[10] == decimal(spec.port as nat),
{
}

/// An accepted remote path is absolute, holds no NUL, line feed or carriage
/// return, and has no `..` component.
pub proof fn lemma_accepted_path_is_contained(path: Seq<char>)
    requires
        remote_path_error(path) is None,
    ensures
        trim(path).len() > 0 && trim(path)[0] == '/',
        !trim(path).contains('\0') && !trim(path).contains('\n') && !trim(path).contains('\r'),
        !has_parent_component(trim(path)),
{
}

/// Whether `a` holds `x` immediately followed by `y`.
pub open spec fn has_adjacent(a: Seq<Seq<char>>, x: Seq<char>, y: Seq<char>) -> bool {
    exists|i: int| 0 <= i && i + 1 < a.len() && #[trigger] a[i] == x && a[i + 1] == y
}

/// Each optional setting that is given reaches `ssh`, whatever else is set:
/// a non-blank identity file as `-i <file>`, a jump host as `-J <host>`, a
/// proxy command as `-o ProxyCommand=<command>` (each trimmed), and, when no
/// alias is configured, the port as `-p <port>`.
pub proof fn lemma_given_settings_reach_ssh(spec: SshConnectionSpec, remote_command: Seq<char>)
    ensures
        !is_blank(spec.identity_file@) ==> has_adjacent(
            remote_args(spec, remote_command),
            "-i"@,
            trim(spec.identity_file@),
        ),
        !is_blank(spec.jump_target@) ==> has_adjacent(
            remote_args(spec, remote_command),
            "-J"@,
            trim(spec.jump_target@),
        ),
        !is_blank(spec.proxy_command@) ==> has_adjacent(
            remote_args(spec, remote_command),
            "-o"@,
            "ProxyCommand="@ + trim(spec.proxy_command@),
        ),
        is_blank(spec.config_alias@) ==> has_adjacent(
            remote_args(spec, remote_command),
            "-p"@,
            decimal(spec.port as nat),
        ),
{
    let a = remote_args(spec, remote_command);
    let fixed = 9int;
    let port_len: int = if is_blank(spec.config_alias@) { 2 } else { 0 };
    let id_len: int = if !is_blank(spec.identity_file@) { 2 } else { 0 };
    let jump_len: int = if !is_blank(spec.jump_target@) { 2 } else { 0 };
    if is_blank(spec.config_alias@) {
        assert(a[fixed] == "-p"@ && a[fixed + 1] == decimal(spec.port as nat));
    }
    if !is_blank(spec.identity_file@) {
        let i = fixed + port_len;
        assert(a[i] == "-i"@ && a[i + 1] == trim(spec.identity_file@));
    }
    if !is_blank(spec.jump_target@) {
        let i = fixed + port_len + id_len;
        assert(a[i] == "-J"@ && a[i + 1] == trim(spec.jump_target@));
    }
    if !is_blank(spec.proxy_command@) {
        let i = fixed + port_len + id_len + jump_len;
        assert(a[i] == "-o"@ && a[i + 1] == "ProxyCommand="@ + trim(spec.proxy_command@));
    }
}

/// Settings that pass validation always name a destination.
pub proof fn lemma_valid_settings_have_destination(spec: SshConnectionSpec)
    requires
        validation_error(spec) is None,
    ensures
        ssh_target(spec).len() > 0,
        !is_blank(spec.config_alias@) || !is_blank(spec.host@),
{
}

/// A path is accepted exactly when, once trimmed, it is absolute, holds no
/// NUL, line feed or carriage return, and no `/`-separated component of it
/// is `..`; nothing else (a trailing `/`, spaces, dots inside names) refuses it.
pub proof fn lemma_remote_path_accepted_iff(path: Seq<char>)
    ensures
        remote_path_error(path) is None <==> ({
            let p = trim(path);
            &&& p.len() > 0 && p[0] == '/'
            &&& forall|k: int| 0 <= k < p.len() ==> #[trigger] p[k] != '\0' && p[k] != '\n' && p[k] != '\r'
            &&& forall|i: int|
                0 <= i && i + 2 <= p.len() && #[trigger] p[i] == '.' && p[i + 1] == '.' ==> (i > 0
                    && p[i - 1] != '/') || (i + 2 < p.len() && p[i + 2] != '/')
        }),
{
    let p = trim(path);
    if p.contains('\0') || p.contains('\n') || p.contains('\r') {
        let k = choose|k: int| 0 <= k < p.len() && (p[k] == '\0' || p[k] == '\n' || p[k] == '\r');
        assert(p[k] == '\0' || p[k] == '\n' || p[k] == '\r');
    }
    if has_parent_component(p) {
        let i = choose|i: int|
            0 <= i && i + 2 <= p.len() && #[trigger] p[i] == '.' && p[i + 1] == '.' && (i == 0
                || p[i - 1] == '/') && (i + 2 == p.len() || p[i + 2] == '/');
        assert(p[i] == '.');
    }
}

/// A run waits at most its cap.
pub proof fn lemma_wait_capped(connect_timeout_sec: u64, extra: u64, cap: u64)
    ensures
        wait_secs(connect_timeout_sec, extra, cap) <= cap,
{
}

/// A connection test that succeeds passed every stage it reports.
pub proof fn lemma_success_means_every_stage_passed(
    client: SshClientStatus,
    exited_successfully: bool,
    exit_code: Option<i32>,
    stdout: Seq<u8>,
    stderr: Seq<u8>,
)
    requires
        client.available,
        probe_succeeded(exited_successfully, stdout),
    ensures
        ({
            let stages = seq![client_stage(client)].push(
                connection_stage(exited_successfully, exit_code, stdout, stderr),
            );
            forall|i: int| 0 <= i < stages.len() ==> (#[trigger] stages[i]).1 == "passed"@
        }),
{
    let stages = seq![client_stage(client)].push(
        connection_stage(exited_successfully, exit_code, stdout, stderr),
    );
    assert forall|i: int| 0 <= i < stages.len() implies (#[trigger] stages[i]).1 == "passed"@ by {
        if i == 0 {
            assert(stages[0] == client_stage(client));
        }
    }
}

/// Checks the settings, refusing them with the first reason that applies.
pub fn validate_spec(spec: &SshConnectionSpec) -> (r: Result<(), String>)
    ensures
        match validation_error(*spec) {
            None => r is Ok,
            Some(e) => r matches Err(m) && m@ == e,
        },
{
    let alias_blank = blank(spec.config_alias.as_str());
    if alias_blank && blank(spec.host.as_str()) {
        return Err(String::from_str("ssh_host_address_required"));
    }
    if alias_blank && spec.port == 0 {
        return Err(String::from_str("ssh_host_port_invalid"));
    }
    if spec.connect_timeout_sec == 0 || spec.connect_timeout_sec > 300 {
        return Err(String::from_str("ssh_connect_timeout_invalid"));
    }
    if spec.server_alive_count_max > 100 {
        return Err(String::from_str("ssh_server_alive_count_invalid"));
    }
    Ok(())
}

/// The destination handed to `ssh`.
pub fn target(spec: &SshConnectionSpec) -> (r: String)
    ensures
        r@ == ssh_target(*spec),
{
    if !blank(spec.config_alias.as_str()) {
        return trimmed(spec.config_alias.as_str());
    }
    if blank(spec.username.as_str()) {
        trimmed(spec.host.as_str())
    } else {
        let mut r = trimmed(spec.username.as_str());
        push_char(&mut r, '@');
        let host = trimmed(spec.host.as_str());
        r.append(host.as_str());
        r
    }
}

/// Refuses an authentication mode that needs a person at the keyboard.
pub fn ensure_non_interactive(spec: &SshConnectionSpec) -> (r: Result<(), String>)
    ensures
        needs_interaction(*spec) ==> (r matches Err(m) && m@ == "ssh_interactive_auth_required"@),
        !needs_interaction(*spec) ==> r is Ok,
{
    if interactive_mode(spec) {
        return Err(String::from_str("ssh_interactive_auth_required"));
    }
    Ok(())
}

/// Whether the authentication mode needs a person at the keyboard.
pub fn interactive_mode(spec: &SshConnectionSpec) -> (r: bool)
    ensures
        r == needs_interaction(*spec),
{
    equals_str(spec.auth_mode.as_str(), "password_prompt") || equals_str(
        spec.auth_mode.as_str(),
        "interactive",
    )
}

/// Appends one argument.
fn push_arg(args: &mut Vec<String>, a: String)
    ensures
        views(final(args)@) == views(old(args)@).push(a@),
{
    args.push(a);
    assert(views(args@) =~= views(old(args)@).push(a@));
}

/// `name` followed by the decimal rendering of `n`.
fn numbered(name: &str, n: u64) -> (r: String)
    ensures
        r@ == name@ + decimal(n as nat),
{
    let mut r = String::from_str(name);
    push_decimal(&mut r, n);
    r
}

/// The `ssh` argument list that runs `remote_command` on the configured host
/// without prompting.
#[verifier::spinoff_prover]
#[verifier::rlimit(30)]
pub fn ssh_remote_command(spec: &SshConnectionSpec, remote_command: &str) -> (args: Vec<String>)
    ensures
        views(args@) == remote_args(*spec, remote_command@),
{
    let mut args: Vec<String> = Vec::new();
    push_arg(&mut args, String::from_str("-T"));
    push_arg(&mut args, String::from_str("-o"));
    push_arg(&mut args, String::from_str("BatchMode=yes"));
    push_arg(&mut args, String::from_str("-o"));
    push_arg(&mut args, numbered("ConnectTimeout=", spec.connect_timeout_sec));
    push_arg(&mut args, String::from_str("-o"));
    push_arg(&mut args, numbered("ServerAliveInterval=", spec.server_alive_interval_sec));
    push_arg(&mut args, String::from_str("-o"));
    push_arg(&mut args, numbered("ServerAliveCountMax=", spec.server_alive_count_max as u64));
    let ghost base = views(args@);
    let alias_blank = blank(spec.config_alias.as_str());
    if alias_blank {
        push_arg(&mut args, String::from_str("-p"));
        push_arg(&mut args, numbered("", spec.port as u64));
        assert(""@ + decimal(spec.port as nat) =~= decimal(spec.port as nat)) by {
            reveal_strlit("");
        }
    }
    let ghost with_port = views(args@);
    assert(with_port =~= base + arg_pair_if(alias_blank, "-p"@, decimal(spec.port as nat)));
    if !blank(spec.identity_file.as_str()) {
        push_arg(&mut args, String::from_str("-i"));
        push_arg(&mut args, trimmed(spec.identity_file.as_str()));
    }
    let ghost with_identity = views(args@);
    assert(with_identity =~= with_port + arg_pair_if(
        !is_blank(spec.identity_file@),
        "-i"@,
        trim(spec.identity_file@),
    ));
    if !blank(spec.jump_target.as_str()) {
        push_arg(&mut args, String::from_str("-J"));
        push_arg(&mut args, trimmed(spec.jump_target.as_str()));
    }
    let ghost with_jump = views(args@);
    assert(with_jump =~= with_identity + arg_pair_if(
        !is_blank(spec.jump_target@),
        "-J"@,
        trim(spec.jump_target@),
    ));
    if !blank(spec.proxy_command.as_str()) {
        push_arg(&mut args, String::from_str("-o"));
        let mut proxy = String::from_str("ProxyCommand=");
        let command = trimmed(spec.proxy_command.as_str());
        proxy.append(command.as_str());
        push_arg(&mut args, proxy);
    }
    let ghost with_proxy = views(args@);
    assert(with_proxy =~= with_jump + arg_pair_if(
        !is_blank(spec.proxy_command@),
        "-o"@,
        "ProxyCommand="@ + trim(spec.proxy_command@),
    ));
    push_arg(&mut args, target(spec));
    push_arg(&mut args, String::from_str(remote_command));
    assert(views(args@) =~= remote_args(*spec, remote_command@));
    args
}

/// The `ssh` argument list of the connection probe.
pub fn ssh_probe_command(spec: &SshConnectionSpec) -> (args: Vec<String>)
    ensures
        views(args@) == remote_args(*spec, probe_command()),
{
    ssh_remote_command(spec, "printf CLI_MANAGER_SSH_OK")
}

/// The first non-blank line of a stream's bytes, trimmed.
pub fn single_line(bytes: &[u8]) -> (r: String)
    ensures
        r@ == first_line(utf8_lossy(bytes@)),
{
    let text = decode_lossy(bytes);
    first_line_of(text.as_str())
}

/// `min(connect_timeout + extra, cap)` seconds.
pub fn wait_limit(connect_timeout_sec: u64, extra: u64, cap: u64) -> (r: u64)
    ensures
        r == wait_secs(connect_timeout_sec, extra, cap),
{
    let total = connect_timeout_sec.saturating_add(extra);
    if total > cap {
        cap
    } else {
        total
    }
}

impl SshClientStatus {
    /// The status when `ssh -V` could not be run at all.
    pub fn unavailable(error: String) -> (r: SshClientStatus)
        ensures
            !r.available,
            r.version is None,
            r.error == Some(error),
    {
        SshClientStatus { available: false, version: None, error: Some(error) }
    }

    /// The status read from a finished `ssh -V`: usable when it exited
    /// successfully or named a version.
    pub fn from_version_output(exited_successfully: bool, stdout: &[u8], stderr: &[u8]) -> (r:
        SshClientStatus)
        ensures
            r.available == (exited_successfully || client_version_line(stdout@, stderr@).len()
                > 0),
            r.version is Some <==> client_version_line(stdout@, stderr@).len() > 0,
            r.version matches Some(v) ==> v@ == client_version_line(stdout@, stderr@),
            r.error is None,
    {
        let err = single_line(stderr);
        let out = single_line(stdout);
        let version = if err.as_str().is_empty() {
            out
        } else {
            err
        };
        let named = !version.as_str().is_empty();
        SshClientStatus {
            available: exited_successfully || named,
            version: if named {
                Some(version)
            } else {
                None
            },
            error: None,
        }
    }
}

/// A stage made of three texts.
fn stage(key: &str, status: &str, detail: String) -> (s: SshDiagnosticStage)
    ensures
        stage_view(s) == (key@, status@, detail@),
{
    SshDiagnosticStage { key: String::from_str(key), status: String::from_str(status), detail }
}

/// The client stage of a connection test.
pub fn client_stage_of(client: SshClientStatus) -> (s: SshDiagnosticStage)
    ensures
        stage_view(s) == client_stage(client),
{
    let status = if client.available {
        "passed"
    } else {
        "failed"
    };
    let detail = match client.version {
        Some(v) => v,
        None => match client.error {
            Some(e) => e,
            None => String::from_str("ssh_client_unavailable"),
        },
    };
    stage("client", status, detail)
}

/// What a connection test does once the client status is known: stop when
/// the client is unusable or the authentication mode is interactive, else
/// run the probe (waiting `min(connect_timeout + 5, 305)` seconds).
pub fn connection_test_after_client(spec: &SshConnectionSpec, client: SshClientStatus) -> (r:
    ConnectionTestStep)
    ensures
        !client.available ==> (r matches ConnectionTestStep::Finished(t) && !t.success
            && stage_views(t.stages@) == seq![client_stage(client)]),
        client.available && needs_interaction(*spec) ==> (r matches ConnectionTestStep::Finished(
            t,
        ) && !t.success && stage_views(t.stages@) == seq![
            client_stage(client),
            interactive_stage(),
        ]),
        client.available && !needs_interaction(*spec) ==> (r matches ConnectionTestStep::Probe {
            stages,
            invocation,
        } && stage_views(stages@) == seq![client_stage(client)] && views(invocation.args@)
            == remote_args(*spec, probe_command()) && invocation.timeout_secs == wait_secs(
            spec.connect_timeout_sec,
            5,
            305,
        )),
{
    let available = client.available;
    let ghost client_view = client_stage(client);
    let mut stages: Vec<SshDiagnosticStage> = Vec::new();
    let first = client_stage_of(client);
    stages.push(first);
    assert(stage_views(stages@) =~= seq![client_view]);
    if !available {
        return ConnectionTestStep::Finished(SshConnectionTestResult { success: false, stages });
    }
    if interactive_mode(spec) {
        let s = stage(
            "authentication",
            "interactive_required",
            String::from_str("ssh_interactive_auth_required"),
        );
        stages.push(s);
        assert(stage_views(stages@) =~= seq![client_view, interactive_stage()]);
        return ConnectionTestStep::Finished(SshConnectionTestResult { success: false, stages });
    }
    let args = ssh_probe_command(spec);
    let timeout_secs = wait_limit(spec.connect_timeout_sec, 5, 305);
    ConnectionTestStep::Probe { stages, invocation: RemoteInvocation { args, timeout_secs } }
}

/// Whether `needle` occurs in `hay` at position `i`.
fn occurs_at(hay: &Vec<char>, needle: &Vec<char>, i: usize) -> (r: bool)
    requires
        i + needle.len() <= hay.len(),
    ensures
        r == (hay@.subrange(i as int, i + needle.len()) == needle@),
{
    let mut k: usize = 0;
    while k < needle.len()
        invariant
            i + needle.len() <= hay.len(),
            k <= needle.len(),
            forall|m: int| 0 <= m < k ==> hay@[i + m] == needle@[m],
        decreases needle.len() - k,
    {
        if hay[i + k] != needle[k] {
            assert(hay@.subrange(i as int, i + needle.len())[k as int] != needle@[k as int]);
            return false;
        }
        k += 1;
    }
    assert(hay@.subrange(i as int, i + needle.len()) =~= needle@);
    true
}

/// Whether `needle` occurs in `hay`.
pub fn contains_text(hay: &str, needle: &str) -> (r: bool)
    ensures
        r == occurs_in(needle@, hay@),
{
    let h = chars_of(hay);
    let n = chars_of(needle);
    if n.len() > h.len() {
        return false;
    }
    let last = h.len() - n.len();
    let mut i: usize = 0;
    while i < last
        invariant
            h@ == hay@,
            n@ == needle@,
            n.len() <= h.len(),
            last == h.len() - n.len(),
            i <= last,
            forall|j: int| 0 <= j < i ==> #[trigger] h@.subrange(j, j + n.len()) != n@,
        decreases last - i,
    {
        if occurs_at(&h, &n, i) {
            return true;
        }
        i += 1;
    }
    if occurs_at(&h, &n, last) {
        return true;
    }
    false
}

/// Finishes a connection test with the probe's outcome: it succeeded when
/// `ssh` exited successfully and printed the marker; otherwise the detail is
/// the first line of its error output, or its exit status when it wrote none.
pub fn finish_connection_test(
    stages: Vec<SshDiagnosticStage>,
    exited_successfully: bool,
    exit_code: Option<i32>,
    stdout: &[u8],
    stderr: &[u8],
) -> (r: SshConnectionTestResult)
    ensures
        r.success == probe_succeeded(exited_successfully, stdout@),
        stage_views(r.stages@) == stage_views(stages@).push(
            connection_stage(exited_successfully, exit_code, stdout@, stderr@),
        ),
{
    let text = decode_lossy(stdout);
    let err = single_line(stderr);
    let success = exited_successfully && contains_text(text.as_str(), "CLI_MANAGER_SSH_OK");
    let status = if success {
        "passed"
    } else {
        "failed"
    };
    let detail = if success {
        String::from_str("ssh_connection_ready")
    } else if err.as_str().is_empty() {
        let code: i64 = match exit_code {
            Some(c) => c as i64,
            None => -1,
        };
        let mut d = String::from_str("ssh_exit_status_");
        push_signed_decimal(&mut d, code);
        d
    } else {
        err
    };
    let mut stages = stages;
    let ghost before = stage_views(stages@);
    stages.push(stage("connection", status, detail));
    assert(stage_views(stages@) =~= before.push(
        connection_stage(exited_successfully, exit_code, stdout@, stderr@),
    ));
    SshConnectionTestResult { success, stages }
}

/// Checks a remote path, giving back its trimmed form.
pub fn validate_remote_path(path: &str) -> (r: Result<&str, String>)
    ensures
        match remote_path_error(path@) {
            None => r matches Ok(p) && p@ == trim(path@),
            Some(e) => r matches Err(m) && m@ == e,
        },
{
    let v = chars_of(path);
    let (start, end) = trim_bounds(&v);
    let ghost p = trim(path@);
    if start == end || v[start] != '/' {
        assert(p.len() == 0 || p[0] != '/');
        return Err(String::from_str("ssh_remote_path_invalid"));
    }
    let mut i = start;
    while i < end
        invariant
            v@ == path@,
            start <= i <= end <= v.len(),
            p == trim(path@),
            p == v@.subrange(start as int, end as int),
            forall|k: int|
                0 <= k < i - start ==> p[k] != '\0' && p[k] != '\n' && #[trigger] p[k] != '\r',
        decreases end - i,
    {
        let c = v[i];
        if c == '\0' || c == '\n' || c == '\r' {
            assert(p[i - start] == c);
            assert(p.contains(c));
            return Err(String::from_str("ssh_remote_path_invalid"));
        }
        i += 1;
    }
    assert(!p.contains('\0') && !p.contains('\n') && !p.contains('\r')) by {
        assert forall|k: int| 0 <= k < p.len() implies p[k] != '\0' && p[k] != '\n' && p[k]
            != '\r' by {}
    }
    let mut j = start;
    while end - j >= 2
        invariant
            v@ == path@,
            start <= j <= end <= v.len(),
            p == trim(path@),
            p == v@.subrange(start as int, end as int),
            p.len() > 0 && p[0] == '/',
            !p.contains('\0') && !p.contains('\n') && !p.contains('\r'),
            forall|k: int|
                0 <= k < j - start && k + 2 <= p.len() ==> !(#[trigger] p[k] == '.' && p[k + 1]
                    == '.' && (k == 0 || p[k - 1] == '/') && (k + 2 == p.len() || p[k + 2]
                    == '/')),
        decreases end - j,
    {
        if v[j] == '.' && v[j + 1] == '.' && (j == start || v[j - 1] == '/') && (j + 2 == end
            || v[j + 2] == '/') {
            let ghost k = j - start;
            assert(p[k] == '.' && p[k + 1] == '.');
            assert(k == 0 || p[k - 1] == '/');
            assert(k + 2 == p.len() || p[k + 2] == '/');
            assert(has_parent_component(p));
            return Err(String::from_str("ssh_remote_path_parent_forbidden"));
        }
        proof {
            let k = j - start;
            assert(p[k] == v@[j as int] && p[k + 1] == v@[j + 1]);
            if k > 0 {
                assert(p[k - 1] == v@[j - 1]);
            }
            if k + 2 < p.len() {
                assert(p[k + 2] == v@[j + 2]);
            }
        }
        j += 1;
    }
    assert(!has_parent_component(p));
    Ok(path.substring_char(start, end))
}

/// The script for a path check.
fn path_check_script_for(quoted: &String) -> (r: String)
    ensures
        r@ == path_check_script(quoted@),
{
    let mut s = String::from_str("if [ ! -d ");
    s.append(quoted.as_str());
    s.append(" ]; then printf 'missing'; elif [ ! -x ");
    s.append(quoted.as_str());
    s.append(" ]; then printf 'inaccessible'; elif git -C ");
    s.append(quoted.as_str());
    s.append(
        " rev-parse --is-inside-work-tree >/dev/null 2>&1; then printf 'git'; else printf 'ok'; fi",
    );
    s
}

/// The script for a directory listing.
fn listing_script_for(quoted: &String) -> (r: String)
    ensures
        r@ == listing_script(quoted@),
{
    let mut s = String::from_str("find -- ");
    s.append(quoted.as_str());
    s.append(" -mindepth 1 -maxdepth 1 -type d -print0");
    s
}

/// Checks the settings and the path of a remote run, giving back the
/// trimmed path.
fn check_remote_run(spec: &SshConnectionSpec, path: &str) -> (r: Result<String, String>)
    ensures
        match remote_run_error(*spec, path@) {
            None => r matches Ok(p) && p@ == trim(path@),
            Some(e) => r matches Err(m) && m@ == e,
        },
{
    match validate_spec(spec) {
        Err(e) => return Err(e),
        Ok(()) => {},
    }
    match ensure_non_interactive(spec) {
        Err(e) => return Err(e),
        Ok(()) => {},
    }
    match validate_remote_path(path) {
        Err(e) => Err(e),
        Ok(p) => Ok(String::from_str(p)),
    }
}

/// The `ssh` run that classifies a remote directory, once the settings and
/// the path pass their checks; it waits `min(connect_timeout + 5, 305)` seconds.
pub fn plan_path_check(spec: &SshConnectionSpec, path: &str) -> (r: Result<
    RemoteInvocation,
    String,
>)
    ensures
        match remote_run_error(*spec, path@) {
            None => r matches Ok(inv) && views(inv.args@) == remote_args(
                *spec,
                path_check_script(posix_quoted(trim(path@))),
            ) && inv.timeout_secs == wait_secs(spec.connect_timeout_sec, 5, 305),
            Some(e) => r matches Err(m) && m@ == e,
        },
{
    let p = match check_remote_run(spec, path) {
        Err(e) => return Err(e),
        Ok(p) => p,
    };
    let quoted = posix_quote(p.as_str());
    let script = path_check_script_for(&quoted);
    let args = ssh_remote_command(spec, script.as_str());
    Ok(RemoteInvocation { args, timeout_secs: wait_limit(spec.connect_timeout_sec, 5, 305) })
}

/// The `ssh` run that lists the subdirectories of a remote directory, once
/// the settings and the path pass their checks; it waits
/// `min(connect_timeout + 10, 310)` seconds.
pub fn plan_directory_listing(spec: &SshConnectionSpec, path: &str) -> (r: Result<
    RemoteInvocation,
    String,
>)
    ensures
        match remote_run_error(*spec, path@) {
            None => r matches Ok(inv) && views(inv.args@) == remote_args(
                *spec,
                listing_script(posix_quoted(trim(path@))),
            ) && inv.timeout_secs == wait_secs(spec.connect_timeout_sec, 10, 310),
            Some(e) => r matches Err(m) && m@ == e,
        },
{
    let p = match check_remote_run(spec, path) {
        Err(e) => return Err(e),
        Ok(p) => p,
    };
    let quoted = posix_quote(p.as_str());
    let script = listing_script_for(&quoted);
    let args = ssh_remote_command(spec, script.as_str());
    Ok(RemoteInvocation { args, timeout_secs: wait_limit(spec.connect_timeout_sec, 10, 310) })
}

/// Reads the outcome of a path check: a failed run gives the first line of
/// its error output; otherwise the printed word decides the findings.
pub fn path_check_result(exited_successfully: bool, stdout: &[u8], stderr: &[u8]) -> (r: Result<
    SshPathCheckResult,
    String,
>)
    ensures
        !exited_successfully ==> (r matches Err(m) && m@ == first_line(utf8_lossy(stderr@))),
        exited_successfully ==> (r matches Ok(c) && (c.exists, c.accessible, c.git_repository)
            == path_verdict(trim(utf8_lossy(stdout@)))),
{
    if !exited_successfully {
        return Err(single_line(stderr));
    }
    let text = decode_lossy(stdout);
    let word = trimmed(text.as_str());
    let w = word.as_str();
    if equals_str(w, "git") {
        Ok(SshPathCheckResult { exists: true, accessible: true, git_repository: true })
    } else if equals_str(w, "ok") {
        Ok(SshPathCheckResult { exists: true, accessible: true, git_repository: false })
    } else if equals_str(w, "inaccessible") {
        Ok(SshPathCheckResult { exists: true, accessible: false, git_repository: false })
    } else {
        Ok(SshPathCheckResult { exists: false, accessible: false, git_repository: false })
    }
}

} // verus!
