use ashell::local::{
    on_read, on_write, spawn_local_terminal_at, DirectoryWatch, LocalEnvironment, ReadAction,
    ReadEvent, WriteAction, WriteEvent, POWERSHELL_CWD_REPORTER,
};
use ashell::ssh::BackendCommand;

fn bare() -> LocalEnvironment {
    LocalEnvironment { shell: None, term: None, colorterm: None, path: None, lang: None, home: None }
}

fn pair(name: &str, value: &str) -> (String, String) {
    (name.to_string(), value.to_string())
}

#[test]
fn a_shell_gets_usual_variables() {
    let plan = spawn_local_terminal_at(false, &bare(), None);

    assert_eq!(plan.program, "/bin/zsh");
    assert!(plan.args.is_empty());
    assert_eq!(plan.cwd, None);
    assert_eq!(
        plan.env,
        vec![
            pair("TERM", "xterm-256color"),
            pair("COLORTERM", "truecolor"),
            pair("TERM_PROGRAM", "ashell"),
            pair("LANG", "en_US.UTF-8"),
            pair("SHELL", "/bin/zsh"),
        ]
    );
}

#[test]
fn a_shell_inherits_what_is_set() {
    let mut environment = bare();
    environment.shell = Some("/bin/bash".to_string());
    environment.path = Some("/bin".to_string());
    environment.home = Some("/root".to_string());
    let plan = spawn_local_terminal_at(false, &environment, Some("/tmp".to_string()));

    assert_eq!(plan.program, "/bin/bash");
    assert_eq!(plan.cwd, Some("/tmp".to_string()));
    assert_eq!(plan.env[3], pair("PATH", "/bin"));
    assert_eq!(plan.env[5], pair("HOME", "/root"));
}

#[test]
fn windows_runs_powershell() {
    let plan = spawn_local_terminal_at(true, &bare(), None);

    assert_eq!(plan.program, "powershell.exe");
    assert_eq!(plan.args, vec!["-NoLogo", "-NoExit", "-Command", POWERSHELL_CWD_REPORTER]);
}

#[test]
fn what_the_shell_wrote_is_output() {
    assert!(matches!(on_read(ReadEvent::Bytes(vec![1])), ReadAction::Output(b) if b == vec![1]));
    assert!(matches!(
        on_read(ReadEvent::End),
        ReadAction::Closed(reason) if reason == "local shell closed"
    ));
    assert!(matches!(
        on_read(ReadEvent::Failed("io".to_string())),
        ReadAction::Closed(reason) if reason == "local read error: io"
    ));
}

#[test]
fn what_is_asked_of_the_shell_is_done() {
    assert!(matches!(
        on_write(WriteEvent::Command(BackendCommand::Input(vec![1]))),
        WriteAction::Write(bytes) if bytes == vec![1]
    ));
    assert!(matches!(
        on_write(WriteEvent::Command(BackendCommand::Resize { cols: 8, rows: 9 })),
        WriteAction::Resize { cols: 8, rows: 9 }
    ));
    assert!(matches!(
        on_write(WriteEvent::Command(BackendCommand::SamplePorts)),
        WriteAction::Nothing
    ));
    assert!(matches!(
        on_write(WriteEvent::Command(BackendCommand::Close)),
        WriteAction::Stop { reason: None, kill: true }
    ));
    assert!(matches!(
        on_write(WriteEvent::Idle(Some("1".to_string()))),
        WriteAction::Stop { reason: Some(words), kill: false } if words == "local shell exited: 1"
    ));
    assert!(matches!(on_write(WriteEvent::Idle(None)), WriteAction::Nothing));
    assert!(matches!(
        on_write(WriteEvent::WriteFailed("io".to_string())),
        WriteAction::Stop { reason: Some(words), kill: true } if words == "local write error: io"
    ));
    assert!(matches!(
        on_write(WriteEvent::Disconnected),
        WriteAction::Stop { reason: None, kill: true }
    ));
}

#[test]
fn the_directory_is_looked_at_now_and_then() {
    let mut watch = DirectoryWatch::new();

    assert!(watch.due(5000));
    assert!(!watch.due(5999));
    assert!(watch.due(6000));
    assert_eq!(watch.changed(Some("/a".to_string())), Some("/a".to_string()));
    assert_eq!(watch.changed(Some("/a".to_string())), None);
    assert_eq!(watch.changed(None), None);
    assert_eq!(watch.changed(Some("/b".to_string())), Some("/b".to_string()));
}
