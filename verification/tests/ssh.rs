use ashell::keys::{expand_key_path, load_key_file, load_session_private_key, KeyStage};
use ashell::number::Float32;
use ashell::probes::{REMOTE_PROCESS_PROBE, REMOTE_WINDOWS_PROCESS_PROBE};
use ashell::session::{AuthMethod, Session};
use ashell::ssh::{
    both_probes_failed, both_terminations_failed, command_timeout, connect_and_authenticate,
    connected_status, connecting_status, key_source_label, on_auth_event, on_task_event,
    opening_status, parse_remote_port_probe, parse_remote_process_probe,
    powershell_encoded_command, probe_commands, session_has_explicit_key, session_key_sources,
    session_passphrase, terminate_remote_process, AuthAction, AuthEvent, AuthStep, BackendCommand,
    CommandMessage, KeyOutcome, Probe, RemoteCommand, RemoteTask, SshAction, SshEvent, SshSession,
    TaskAction, TaskEvent,
};
use rand::rngs::OsRng;
use russh::keys::ssh_key::LineEnding;
use russh::keys::{Algorithm, PrivateKey};

fn session(auth: AuthMethod) -> Session {
    let mut session =
        Session::password("host".to_string(), 22, "root".to_string(), "secret".to_string());
    session.auth = auth;
    session
}

#[test]
fn output_is_gathered_until_the_channel_closes() {
    let mut command = RemoteCommand::new();
    assert!(command.receive(CommandMessage::Data(b" a".to_vec())));
    assert!(command.receive(CommandMessage::Other));
    assert!(command.receive(CommandMessage::Data(b"b\n".to_vec())));
    assert!(command.receive(CommandMessage::ExitStatus(0)));
    assert!(!command.receive(CommandMessage::Close));

    assert_eq!(command.outcome("probe"), Ok("ab".to_string()));
}

#[test]
fn output_that_is_no_text_is_read_loosely() {
    let mut command = RemoteCommand::new();
    command.receive(CommandMessage::Data(vec![0x61, 0xff]));
    command.receive(CommandMessage::ExitStatus(0));

    assert_eq!(command.outcome("probe"), Ok("a\u{fffd}".to_string()));
}

#[test]
fn a_failed_command_says_why() {
    let mut silent = RemoteCommand::new();
    assert_eq!(
        silent.outcome("probe"),
        Err("probe failed: remote command closed without an exit status".to_string())
    );
    silent.receive(CommandMessage::ExitStatus(3));
    assert_eq!(silent.outcome("probe"), Err("probe failed: exit status 3".to_string()));
    silent.receive(CommandMessage::Data(b"no such file".to_vec()));
    assert_eq!(silent.outcome("probe"), Err("probe failed: no such file".to_string()));
    assert_eq!(command_timeout("probe"), "probe timed out after 20 seconds");
}

#[test]
fn probe_output_without_rows_is_an_error() {
    let row = "PROCESS\t42\talice\t1.5\t1024\tworker";
    let reading = Some(Float32 { bits: 1.5f32.to_bits() });
    assert_eq!(parse_remote_process_probe(row, "probe", &[reading]).unwrap()[0].pid, 42);
    assert_eq!(
        parse_remote_process_probe("\n  oops \nmore", "probe", &[None, None, None]).unwrap_err(),
        "probe returned no parseable process rows: oops"
    );
    assert_eq!(
        parse_remote_process_probe("", "probe", &[]).unwrap_err(),
        "probe returned no parseable process rows: empty output"
    );
}

#[test]
fn no_output_means_no_ports() {
    assert!(parse_remote_port_probe("  \n", "probe").unwrap().is_empty());
    assert_eq!(
        parse_remote_port_probe("oops", "probe").unwrap_err(),
        "probe returned no parseable port rows: oops"
    );
    let ports = parse_remote_port_probe("PORT\ttcp\t::\t80\tLISTEN\t-\t-", "probe").unwrap();
    assert_eq!(ports[0].port, 80);
}

#[test]
fn both_errors_are_told() {
    assert_eq!(both_probes_failed("a", "b"), "Unix probe failed first: a: b");
    assert_eq!(both_terminations_failed("a", "b"), "Unix termination failed first: a: b");
}

#[test]
fn scripts_are_encoded_in_utf16() {
    assert_eq!(
        powershell_encoded_command("ls"),
        "powershell.exe -NoLogo -NoProfile -NonInteractive -EncodedCommand bABzAA=="
    );
    assert_eq!(
        powershell_encoded_command("\u{1f600}"),
        "powershell.exe -NoLogo -NoProfile -NonInteractive -EncodedCommand PdgA3g=="
    );
}

#[test]
fn the_first_processes_are_protected() {
    assert_eq!(
        terminate_remote_process(1).unwrap_err(),
        "refusing to terminate protected PID 1"
    );
    let commands = terminate_remote_process(4242).unwrap();
    assert_eq!(commands.unix, "kill -TERM 4242");
    assert_eq!(
        commands.windows,
        powershell_encoded_command(
            "$ErrorActionPreference = 'Stop'; Stop-Process -Id 4242 -ErrorAction Stop"
        )
    );
}

#[test]
fn commands_become_actions() {
    let mut state = SshSession::new();
    assert!(matches!(
        state.run(SshEvent::Command(Some(BackendCommand::Input(vec![1])))),
        SshAction::Write(bytes) if bytes == vec![1]
    ));
    assert!(matches!(
        state.run(SshEvent::Command(Some(BackendCommand::Resize { cols: 80, rows: 24 }))),
        SshAction::WindowChange { cols: 80, rows: 24 }
    ));
    assert!(matches!(
        state.run(SshEvent::Command(Some(BackendCommand::TerminateProcess { pid: 7 }))),
        SshAction::Terminate { pid: 7 }
    ));
    assert!(matches!(
        state.run(SshEvent::Command(None)),
        SshAction::Leave { send_eof: true, reason } if reason == "ssh session closed"
    ));
    assert!(matches!(
        state.run(SshEvent::WriteFailed("gone".to_string())),
        SshAction::Leave { send_eof: false, reason } if reason == "ssh write error: gone"
    ));
    assert!(matches!(
        state.run(SshEvent::Data(vec![2])),
        SshAction::Output(bytes) if bytes == vec![2]
    ));
}

#[test]
fn an_announced_close_is_not_a_loss() {
    let mut abrupt = SshSession::new();
    assert!(matches!(
        abrupt.run(SshEvent::Close),
        SshAction::Leave { reason, .. } if reason == "ssh connection lost (abrupt close)"
    ));
    assert!(matches!(
        abrupt.run(SshEvent::StreamEnd),
        SshAction::Leave { reason, .. } if reason == "ssh connection lost (network drop)"
    ));
    let mut announced = SshSession::new();
    assert!(matches!(announced.run(SshEvent::Eof), SshAction::Nothing));
    assert!(matches!(
        announced.run(SshEvent::Close),
        SshAction::Leave { reason, .. } if reason == "ssh session closed"
    ));
}

#[test]
fn statuses_name_the_target() {
    let session = session(AuthMethod::Password);

    assert_eq!(connecting_status(&session), "connecting root@host:22...");
    assert_eq!(connected_status(&session), "connected root@host");
    assert_eq!(opening_status(&session, &None), "opening tcp connection to host:22");
    assert_eq!(
        opening_status(&session, &Some(("socks5".to_string(), "p".to_string(), None))),
        "connecting to host:22 via SOCKS5 proxy p:1080"
    );
    assert_eq!(
        opening_status(&session, &Some(("http".to_string(), "p".to_string(), None))),
        "connecting to host:22 via HTTP proxy p:8080"
    );
}

#[test]
fn key_sources_have_labels() {
    let mut session = session(AuthMethod::Key);
    assert_eq!(key_source_label(&session), "unknown key source");
    session.private_key_inline = "text".to_string();
    assert_eq!(key_source_label(&session), "inline key text");
    session.private_key_path = " ~/.ssh/id ".to_string();
    assert_eq!(key_source_label(&session), "inline key or ~/.ssh/id");
    session.private_key_inline = " ".to_string();
    assert_eq!(key_source_label(&session), "~/.ssh/id");
}

#[test]
fn each_method_has_its_step() {
    let plan = connect_and_authenticate(&session(AuthMethod::Password));
    assert!(matches!(plan.step, AuthStep::Password));
    assert_eq!(
        plan.statuses,
        vec!["connected to host:22, sending password authentication for root".to_string()]
    );

    let mut with_key = session(AuthMethod::Key);
    with_key.private_key_path = "id".to_string();
    let plan = connect_and_authenticate(&with_key);
    assert!(matches!(plan.step, AuthStep::ExplicitKey));
    assert_eq!(plan.statuses, vec!["connected to host:22, loading private key from id".to_string()]);

    let mut usual = session(AuthMethod::Config);
    usual.passphrase = " word ".to_string();
    let plan = connect_and_authenticate(&usual);
    assert!(matches!(plan.step, AuthStep::DefaultKeys(Some(text)) if text == "word"));
    assert_eq!(plan.statuses.len(), 2);
    assert_eq!(
        plan.statuses[1],
        "connected to host:22, trying default keys from ~/.ssh/ for root"
    );
    assert_eq!(session_passphrase(&usual), Some("word".to_string()));
    assert_eq!(session_passphrase(&session(AuthMethod::Key)), None);
}

#[test]
fn answers_of_the_server_decide() {
    let password = session(AuthMethod::Password);
    assert!(matches!(
        on_auth_event(&password, AuthEvent::PasswordAnswer(true)),
        AuthAction::OpenShell { status }
            if status == "authentication accepted, opening shell for root@host"
    ));
    assert!(matches!(
        on_auth_event(&password, AuthEvent::PasswordAnswer(false)),
        AuthAction::Disconnect(error) if error
            == "authentication failed: server rejected password authentication for root@host:22"
    ));
}

#[test]
fn keys_are_offered_until_one_is_taken() {
    let mut key = session(AuthMethod::Key);
    key.private_key_path = "id".to_string();
    let loaded = AuthEvent::KeyLoaded { algorithm: "Ed25519".to_string(), offers: true };
    assert!(matches!(
        on_auth_event(&key, loaded),
        AuthAction::OfferKey { shown: Some(text) } if text
            == "private key loaded from id, algorithm Ed25519, sending public key authentication for root"
    ));
    let answer = |outcome: KeyOutcome, another: bool| AuthEvent::KeyAnswer {
        outcome,
        algorithm: "Ed25519".to_string(),
        another,
    };
    assert!(matches!(
        on_auth_event(&key, answer(KeyOutcome::Refused, true)),
        AuthAction::OfferNextKey
    ));
    assert!(matches!(
        on_auth_event(&key, answer(KeyOutcome::Accepted, true)),
        AuthAction::OpenShell { .. }
    ));
    assert!(matches!(
        on_auth_event(&key, answer(KeyOutcome::Failed, false)),
        AuthAction::Fail(error) if error
            == "public key authentication failed for root@host:22 using id (Ed25519)"
    ));
    key.auth = AuthMethod::Config;
    let loaded = AuthEvent::KeyLoaded { algorithm: "Ed25519".to_string(), offers: false };
    assert!(matches!(
        on_auth_event(&key, loaded),
        AuthAction::Fail(error) if error
            == "ssh-config key authentication failed for root@host:22 using id (Ed25519)"
    ));
}

#[test]
fn usual_keys_that_are_refused_end_the_attempt() {
    assert!(matches!(
        on_auth_event(&session(AuthMethod::Key), AuthEvent::DefaultKeysAnswer(false)),
        AuthAction::Fail(error) if error
            == "public key authentication failed for root@host:22 - no valid default key found in ~/.ssh/"
    ));
    assert!(matches!(
        on_auth_event(&session(AuthMethod::Config), AuthEvent::DefaultKeysAnswer(false)),
        AuthAction::Fail(error) if error
            == "ssh-config authentication failed for root@host:22 - no valid default key found"
    ));
    assert!(matches!(
        on_auth_event(&session(AuthMethod::Config), AuthEvent::DefaultKeysAnswer(true)),
        AuthAction::OpenShell { .. }
    ));
}

#[test]
fn a_key_is_needed_in_some_form() {
    assert!(matches!(
        load_session_private_key("", None, None),
        KeyStage::Failed(words) if words == "private key content or path is required"
    ));
    assert!(matches!(
        load_session_private_key("", Some("id".to_string()), None),
        KeyStage::ReadFile { path, inline_error: None } if path == "id"
    ));
}

#[test]
fn a_text_that_is_no_key_is_told() {
    let stage = load_session_private_key("nonsense", Some("id".to_string()), None);
    let words = match stage {
        KeyStage::ReadFile { inline_error: Some(words), .. } => words,
        _ => panic!("the text is no key"),
    };
    assert!(words.starts_with("decode private key content: "));
    assert_eq!(
        load_key_file("id", Err("gone".to_string()), None, &Some(words.clone())).unwrap_err(),
        format!("{words}; load key id: gone")
    );
    assert_eq!(
        load_key_file("id", Err("gone".to_string()), None, &None).unwrap_err(),
        "load key id: gone"
    );
    let other = load_key_file("id", Ok("nonsense".to_string()), None, &None).unwrap_err();
    assert!(other.starts_with("load key id: "));
    assert!(matches!(
        load_session_private_key("nonsense", None, None),
        KeyStage::Failed(other) if other == words
    ));
}

fn new_key() -> PrivateKey {
    PrivateKey::random(&mut OsRng, Algorithm::Ed25519).unwrap()
}

fn text_of_key(key: &PrivateKey) -> String {
    key.to_openssh(LineEnding::LF).unwrap().to_string()
}

#[test]
fn the_text_of_a_session_gives_its_key() {
    let key = new_key();
    let stage = load_session_private_key(&text_of_key(&key), Some("id".to_string()), None);

    assert!(matches!(stage, KeyStage::Loaded(held) if held.public_key() == key.public_key()));
}

#[test]
fn a_passphrase_opens_a_key() {
    let key = new_key();
    let text = text_of_key(&key.encrypt(&mut OsRng, "word").unwrap());

    let opened = load_session_private_key(&text, None, Some("word"));
    assert!(matches!(opened, KeyStage::Loaded(held) if held.public_key() == key.public_key()));
    let refused = load_session_private_key(&text, None, Some("other"));
    assert!(matches!(
        refused,
        KeyStage::Failed(words) if words.starts_with("decode private key content: ")
    ));
}

#[test]
fn a_key_file_gives_its_key() {
    let key = new_key();
    let held = load_key_file("id", Ok(text_of_key(&key)), None, &None).unwrap();

    assert_eq!(held.public_key(), key.public_key());
}

#[test]
fn the_configuration_uses_nothing_but_the_key_file() {
    let inline = new_key();
    let file = new_key();
    let mut configured = session(AuthMethod::Config);
    configured.private_key_inline = text_of_key(&inline);
    configured.private_key_path = " ~/.ssh/id ".to_string();
    configured.passphrase = " word ".to_string();
    let sources = session_key_sources(&configured, Some("/home/u"), false);
    assert_eq!(sources.inline, "");
    assert_eq!(sources.path.as_deref(), Some("/home/u/.ssh/id"));
    assert_eq!(sources.passphrase.as_deref(), Some("word"));

    let stage = load_session_private_key(&sources.inline, sources.path, Some("word"));
    let (path, inline_error) = match stage {
        KeyStage::ReadFile { path, inline_error } => (path, inline_error),
        _ => panic!("the file is to be read"),
    };
    assert_eq!(inline_error, None);
    let held = load_key_file(&path, Ok(text_of_key(&file)), None, &inline_error).unwrap();
    assert_eq!(held.public_key(), file.public_key());

    configured.auth = AuthMethod::Key;
    let sources = session_key_sources(&configured, Some("/home/u"), false);
    let stage = load_session_private_key(&sources.inline, sources.path, None);
    assert!(matches!(stage, KeyStage::Loaded(held) if held.public_key() == inline.public_key()));
}

#[test]
fn a_key_is_named_by_a_file_or_by_its_text() {
    let mut named = session(AuthMethod::Key);
    named.private_key_path = "  ".to_string();
    assert!(!session_has_explicit_key(&named));
    assert!(matches!(connect_and_authenticate(&named).step, AuthStep::DefaultKeys(None)));
    named.private_key_inline = "text".to_string();
    assert!(session_has_explicit_key(&named));
    assert!(matches!(connect_and_authenticate(&named).step, AuthStep::ExplicitKey));
    named.auth = AuthMethod::Config;
    assert!(matches!(connect_and_authenticate(&named).step, AuthStep::DefaultKeys(None)));
    named.private_key_path = "id".to_string();
    assert!(matches!(connect_and_authenticate(&named).step, AuthStep::ExplicitKey));
}

#[test]
fn windows_is_tried_where_unix_failed() {
    let task = RemoteTask::Terminate { pid: 4242 };
    assert!(matches!(
        on_task_event(task, TaskEvent::Asked),
        TaskAction::RunUnix { command, name }
            if command == "kill -TERM 4242" && name == "terminate Unix remote process"
    ));
    assert!(matches!(on_task_event(task, TaskEvent::UnixEnded(Ok(()))), TaskAction::Finish));
    assert!(matches!(
        on_task_event(task, TaskEvent::UnixEnded(Err("a".to_string()))),
        TaskAction::RunWindows { command, name, unix_error }
            if command == terminate_remote_process(4242).unwrap().windows
                && name == "terminate Windows remote process"
                && unix_error == "a"
    ));
    let failed = TaskEvent::WindowsEnded {
        unix_error: "a".to_string(),
        outcome: Err("b".to_string()),
    };
    assert!(matches!(
        on_task_event(task, failed),
        TaskAction::Fail(words) if words == "Unix termination failed first: a: b"
    ));
    let ended = TaskEvent::WindowsEnded { unix_error: "a".to_string(), outcome: Ok(()) };
    assert!(matches!(on_task_event(task, ended), TaskAction::Finish));
}

#[test]
fn a_probe_goes_from_unix_to_windows() {
    let task = RemoteTask::Ask(Probe::Processes);
    assert!(matches!(
        on_task_event(task, TaskEvent::Asked),
        TaskAction::RunUnix { command, name }
            if command == REMOTE_PROCESS_PROBE && name == "Unix remote process probe"
    ));
    assert!(matches!(
        on_task_event(task, TaskEvent::UnixEnded(Err("a".to_string()))),
        TaskAction::RunWindows { command, name, .. }
            if command == powershell_encoded_command(REMOTE_WINDOWS_PROCESS_PROBE)
                && name == "Windows remote process probe"
    ));
    let failed = TaskEvent::WindowsEnded {
        unix_error: "a".to_string(),
        outcome: Err("b".to_string()),
    };
    assert!(matches!(
        on_task_event(task, failed),
        TaskAction::Fail(words) if words == "Unix probe failed first: a: b"
    ));
}

#[test]
fn no_command_ends_a_protected_process() {
    for event in [TaskEvent::Asked, TaskEvent::UnixEnded(Err("a".to_string()))] {
        assert!(matches!(
            on_task_event(RemoteTask::Terminate { pid: 1 }, event),
            TaskAction::Fail(words) if words == "refusing to terminate protected PID 1"
        ));
    }
}

#[test]
fn a_tilde_stands_for_the_home_directory() {
    assert_eq!(expand_key_path("", Some("/home/u"), false), None);
    assert_eq!(expand_key_path("~", Some("/home/u"), false), Some("/home/u".to_string()));
    assert_eq!(expand_key_path("~/.ssh/id", Some("/home/u"), false), Some("/home/u/.ssh/id".to_string()));
    assert_eq!(expand_key_path("~/.ssh/id", None, false), None);
    assert_eq!(expand_key_path("~//etc/id", Some("/home/u"), false), Some("/etc/id".to_string()));
    assert_eq!(
        expand_key_path("~/.ssh\\id", Some("C:\\u"), true),
        Some("C:\\u\\.ssh\\id".to_string())
    );
    assert_eq!(expand_key_path("~//id", Some("C:\\u"), true), Some("C:/id".to_string()));
    assert_eq!(expand_key_path("/etc/id", None, false), Some("/etc/id".to_string()));
    assert_eq!(expand_key_path("~root/id", Some("/home/u"), false), Some("~root/id".to_string()));
}

#[test]
fn a_probe_has_a_command_for_each_system() {
    let commands = probe_commands(Probe::Processes);

    assert_eq!(commands.unix, REMOTE_PROCESS_PROBE);
    assert_eq!(commands.unix_name, "Unix remote process probe");
    assert_eq!(commands.windows, powershell_encoded_command(REMOTE_WINDOWS_PROCESS_PROBE));
    assert_eq!(commands.windows_name, "Windows remote process probe");
    assert_eq!(probe_commands(Probe::System).unix_name, "Unix remote metrics probe");
    assert_eq!(probe_commands(Probe::Ports).windows_name, "Windows remote port probe");
}
