//! A terminal on this machine: the shell that is started, and the course of its
//! two threads.
use vstd::prelude::*;

use crate::ssh::BackendCommand;
use crate::text::same_text;

verus! {

/// The variables of the environment that a shell gets, as they are set here.
#[derive(Debug)]
pub struct LocalEnvironment {
    pub shell: Option<String>,
    pub term: Option<String>,
    pub colorterm: Option<String>,
    pub path: Option<String>,
    pub lang: Option<String>,
    pub home: Option<String>,
}

/// The shell that is started: its program, its arguments, the variables that it
/// gets and the directory in which it starts.
#[derive(Debug)]
pub struct ShellPlan {
    pub program: String,
    pub args: Vec<String>,
    pub env: Vec<(String, String)>,
    pub cwd: Option<String>,
}

/// The script with which PowerShell reports its directory.
pub const POWERSHELL_CWD_REPORTER: &'static str = r#"& {
            $global:AshellOriginalPrompt = $function:prompt
            function global:prompt {
                $promptText = if ($global:AshellOriginalPrompt) { & $global:AshellOriginalPrompt } else { "PS $PWD> " }
                $cwd = $PWD.ProviderPath
                $encoded = [Convert]::ToBase64String([System.Text.Encoding]::UTF8.GetBytes($cwd))
                [Console]::Write("$([char]27)]133;D$([char]7)$([char]27)]133;A$([char]7)")
                [Console]::Write("$([char]27)]0;ASHELL_CWD_B64:$encoded$([char]7)")
                "$promptText$([char]27)]133;B$([char]7)"
            }
        }"#;

/// The text, or the other one where it is not there.
pub open spec fn text_or(text: Option<String>, other: Seq<char>) -> Seq<char> {
    match text {
        Some(t) => t@,
        None => other,
    }
}

fn text_or_else(text: &Option<String>, other: &str) -> (r: String)
    ensures
        r@ == text_or(*text, other@),
{
    match text {
        Some(t) => t.clone(),
        None => other.to_owned(),
    }
}

/// The program of the shell.
pub open spec fn shell_program(windows: bool, environment: LocalEnvironment) -> Seq<char> {
    if windows {
        "powershell.exe"@
    } else {
        text_or(environment.shell, "/bin/zsh"@)
    }
}

/// A variable that is passed on only where it is set.
pub open spec fn passed_on(name: Seq<char>, value: Option<String>) -> Seq<
    (Seq<char>, Seq<char>),
> {
    match value {
        Some(v) => seq![(name, v@)],
        None => Seq::empty(),
    }
}

/// The variables that the shell gets.
pub open spec fn shell_env(windows: bool, environment: LocalEnvironment) -> Seq<
    (Seq<char>, Seq<char>),
> {
    seq![
        ("TERM"@, text_or(environment.term, "xterm-256color"@)),
        ("COLORTERM"@, text_or(environment.colorterm, "truecolor"@)),
        ("TERM_PROGRAM"@, "ashell"@),
    ] + passed_on("PATH"@, environment.path) + seq![
        ("LANG"@, text_or(environment.lang, "en_US.UTF-8"@)),
    ] + passed_on("HOME"@, environment.home) + seq![
        ("SHELL"@, shell_program(windows, environment)),
    ]
}

pub open spec fn env_views(env: Seq<(String, String)>) -> Seq<(Seq<char>, Seq<char>)> {
    env.map_values(|e: (String, String)| (e.0@, e.1@))
}

fn set_variable(env: &mut Vec<(String, String)>, name: &str, value: String)
    ensures
        env_views(final(env)@) == env_views(old(env)@).push((name@, value@)),
{
    env.push((name.to_owned(), value));
    assert(env_views(env@) =~= env_views(old(env)@).push((name@, value@)));
}

fn pass_on(env: &mut Vec<(String, String)>, name: &str, value: &Option<String>)
    ensures
        env_views(final(env)@) == env_views(old(env)@) + passed_on(name@, *value),
{
    match value {
        Some(v) => {
            set_variable(env, name, v.clone());
            assert(env_views(env@) =~= env_views(old(env)@) + passed_on(name@, *value));
        },
        None => {
            assert(env_views(env@) =~= env_views(old(env)@) + passed_on(name@, *value));
        },
    }
}

/// The shell that is started in the given directory; `directory` is there only
/// where it is one.
pub fn spawn_local_terminal_at(
    windows: bool,
    environment: &LocalEnvironment,
    directory: Option<String>,
) -> (r: ShellPlan)
    ensures
        r.program@ == shell_program(windows, *environment),
        crate::text::texts(r.args@) == (if windows {
            seq!["-NoLogo"@, "-NoExit"@, "-Command"@, POWERSHELL_CWD_REPORTER@]
        } else {
            Seq::empty()
        }),
        env_views(r.env@) == shell_env(windows, *environment),
        r.cwd == directory,
{
    let program = if windows {
        "powershell.exe".to_owned()
    } else {
        text_or_else(&environment.shell, "/bin/zsh")
    };
    let mut args: Vec<String> = Vec::new();
    if windows {
        args.push("-NoLogo".to_owned());
        args.push("-NoExit".to_owned());
        args.push("-Command".to_owned());
        args.push(POWERSHELL_CWD_REPORTER.to_owned());
        assert(crate::text::texts(args@) =~= seq![
            "-NoLogo"@,
            "-NoExit"@,
            "-Command"@,
            POWERSHELL_CWD_REPORTER@,
        ]);
    } else {
        assert(crate::text::texts(args@) =~= Seq::empty());
    }
    let mut env: Vec<(String, String)> = Vec::new();
    assert(env_views(env@) =~= Seq::empty());
    set_variable(&mut env, "TERM", text_or_else(&environment.term, "xterm-256color"));
    set_variable(&mut env, "COLORTERM", text_or_else(&environment.colorterm, "truecolor"));
    set_variable(&mut env, "TERM_PROGRAM", "ashell".to_owned());
    pass_on(&mut env, "PATH", &environment.path);
    set_variable(&mut env, "LANG", text_or_else(&environment.lang, "en_US.UTF-8"));
    pass_on(&mut env, "HOME", &environment.home);
    set_variable(&mut env, "SHELL", program.clone());
    assert(env_views(env@) =~= shell_env(windows, *environment));
    ShellPlan { program, args, env, cwd: directory }
}

/// What the thread that reads from the shell got.
#[derive(Debug)]
pub enum ReadEvent {
    Bytes(Vec<u8>),
    End,
    Failed(String),
}

/// What the thread that reads from the shell has to do.
#[derive(Debug)]
pub enum ReadAction {
    Output(Vec<u8>),
    /// Report that the terminal was closed, for this reason, and stop.
    Closed(String),
}

/// What to do with what the shell wrote.
pub fn on_read(event: ReadEvent) -> (r: ReadAction)
    ensures
        match event {
            ReadEvent::Bytes(bytes) => r == ReadAction::Output(bytes),
            ReadEvent::End => r is Closed && r->Closed_0@ == "local shell closed"@,
            ReadEvent::Failed(error) => r is Closed && r->Closed_0@ == "local read error: "@
                + error@,
        },
{
    match event {
        ReadEvent::Bytes(bytes) => ReadAction::Output(bytes),
        ReadEvent::End => ReadAction::Closed("local shell closed".to_owned()),
        ReadEvent::Failed(error) => {
            let mut reason = "local read error: ".to_owned();
            reason.append(error.as_str());
            ReadAction::Closed(reason)
        },
    }
}

/// What the thread that writes to the shell got.
#[derive(Debug)]
pub enum WriteEvent {
    Command(BackendCommand),
    WriteFailed(String),
    /// Nothing came for a while; with the exit status where the shell has ended.
    Idle(Option<String>),
    /// Nobody can ask for anything any more.
    Disconnected,
}

/// What the thread that writes to the shell has to do.
#[derive(Debug)]
pub enum WriteAction {
    Nothing,
    Write(Vec<u8>),
    Resize { cols: u16, rows: u16 },
    /// Report the reason, where there is one, and stop; the shell is ended where
    /// it still runs.
    Stop { reason: Option<String>, kill: bool },
}

/// Whether the action stops with the given reason.
pub open spec fn stops(action: WriteAction, words: Option<Seq<char>>, ends_shell: bool) -> bool {
    match action {
        WriteAction::Stop { reason, kill } => kill == ends_shell && match reason {
            Some(text) => words == Some(text@),
            None => words is None,
        },
        _ => false,
    }
}

/// What to do with what was asked of the shell. A local terminal has nothing to
/// sample and no remote process to end.
pub fn on_write(event: WriteEvent) -> (r: WriteAction)
    ensures
        match event {
            WriteEvent::Command(BackendCommand::Input(bytes)) => r == WriteAction::Write(bytes),
            WriteEvent::Command(BackendCommand::Resize { cols, rows }) => r == (
            WriteAction::Resize { cols, rows }),
            WriteEvent::Command(BackendCommand::Close) => stops(r, None, true),
            WriteEvent::Command(_) => r == WriteAction::Nothing,
            WriteEvent::WriteFailed(error) => stops(
                r,
                Some("local write error: "@ + error@),
                true,
            ),
            WriteEvent::Idle(Some(status)) => stops(
                r,
                Some("local shell exited: "@ + status@),
                false,
            ),
            WriteEvent::Idle(None) => r == WriteAction::Nothing,
            WriteEvent::Disconnected => stops(r, None, true),
        },
{
    match event {
        WriteEvent::Command(command) => match command {
            BackendCommand::Input(bytes) => WriteAction::Write(bytes),
            BackendCommand::Resize { cols, rows } => WriteAction::Resize { cols, rows },
            BackendCommand::Close => WriteAction::Stop { reason: None, kill: true },
            BackendCommand::SampleMetrics
            | BackendCommand::SampleProcesses
            | BackendCommand::SamplePorts
            | BackendCommand::TerminateProcess { .. } => WriteAction::Nothing,
        },
        WriteEvent::WriteFailed(error) => {
            let mut reason = "local write error: ".to_owned();
            reason.append(error.as_str());
            WriteAction::Stop { reason: Some(reason), kill: true }
        },
        WriteEvent::Idle(status) => match status {
            Some(status) => {
                let mut reason = "local shell exited: ".to_owned();
                reason.append(status.as_str());
                WriteAction::Stop { reason: Some(reason), kill: false }
            },
            None => WriteAction::Nothing,
        },
        WriteEvent::Disconnected => WriteAction::Stop { reason: None, kill: true },
    }
}

/// How many milliseconds lie at least between two looks at the shell's
/// directory.
pub const DIRECTORY_POLL_INTERVAL: u64 = 1000;

/// The directory of the shell as it was reported last, and when it was looked
/// at.
#[derive(Debug)]
pub struct DirectoryWatch {
    pub last_directory: Option<String>,
    pub last_check: Option<u64>,
}

impl DirectoryWatch {
    pub fn new() -> (r: DirectoryWatch)
        ensures
            r.last_directory is None,
            r.last_check is None,
    {
        DirectoryWatch { last_directory: None, last_check: None }
    }

    /// Whether it is time to look at the directory; if so, the time is noted.
    pub fn due(&mut self, now: u64) -> (r: bool)
        ensures
            r == (match old(self).last_check {
                Some(checked) => now - checked >= DIRECTORY_POLL_INTERVAL,
                None => true,
            }),
            final(self).last_directory == old(self).last_directory,
            final(self).last_check == (if r {
                Some(now)
            } else {
                old(self).last_check
            }),
    {
        let due = match self.last_check {
            Some(checked) => now >= checked && now - checked >= DIRECTORY_POLL_INTERVAL,
            None => true,
        };
        if due {
            self.last_check = Some(now);
        }
        due
    }

    /// The directory to report: the one that was found, where it is another than
    /// the last one.
    pub fn changed(&mut self, found: Option<String>) -> (r: Option<String>)
        ensures
            final(self).last_check == old(self).last_check,
            match found {
                None => r is None && final(self).last_directory == old(self).last_directory,
                Some(directory) => match old(self).last_directory {
                    Some(last) => if last@ == directory@ {
                        r is None && final(self).last_directory == old(self).last_directory
                    } else {
                        r == Some(directory) && final(self).last_directory == Some(directory)
                    },
                    None => r == Some(directory) && final(self).last_directory == Some(directory),
                },
            },
    {
        match found {
            None => None,
            Some(directory) => {
                let same = match &self.last_directory {
                    Some(last) => same_text(last.as_str(), directory.as_str()),
                    None => false,
                };
                if same {
                    None
                } else {
                    self.last_directory = Some(directory.clone());
                    Some(directory)
                }
            },
        }
    }
}

/// A shell on this machine is PowerShell on Windows, and elsewhere the user's own, which
/// is told to it too.
pub proof fn the_shell_is_the_users_own(environment: LocalEnvironment)
    ensures
        shell_program(true, environment) == "powershell.exe"@,
        environment.shell matches Some(shell) ==> shell_program(false, environment) == shell@,
        environment.shell is None ==> shell_program(false, environment) == "/bin/zsh"@,
{
}

/// A shell sees what the environment sets for its terminal, language, home and path, with
/// the usual values for the terminal and the language where it sets none. Nothing is set
/// twice.
pub proof fn the_shell_sees_its_environment(windows: bool, environment: LocalEnvironment)
    ensures
        ({
            let env = shell_env(windows, environment);
            &&& environment.term matches Some(term) ==> env.contains(("TERM"@, term@))
            &&& environment.term is None ==> env.contains(("TERM"@, "xterm-256color"@))
            &&& environment.colorterm matches Some(term) ==> env.contains(("COLORTERM"@, term@))
            &&& environment.colorterm is None ==> env.contains(("COLORTERM"@, "truecolor"@))
            &&& env.contains(("TERM_PROGRAM"@, "ashell"@))
            &&& environment.lang matches Some(lang) ==> env.contains(("LANG"@, lang@))
            &&& environment.lang is None ==> env.contains(("LANG"@, "en_US.UTF-8"@))
            &&& environment.path matches Some(path) ==> env.contains(("PATH"@, path@))
            &&& environment.home matches Some(home) ==> env.contains(("HOME"@, home@))
            &&& env.contains(("SHELL"@, shell_program(windows, environment)))
            &&& env.len() == 5 + (if environment.path is Some {
                1int
            } else {
                0
            }) + (if environment.home is Some {
                1int
            } else {
                0
            })
        }),
{
    let env = shell_env(windows, environment);
    let p = passed_on("PATH"@, environment.path).len() as int;
    let h = passed_on("HOME"@, environment.home).len() as int;
    assert(env[0] == ("TERM"@, text_or(environment.term, "xterm-256color"@)));
    assert(env[1] == ("COLORTERM"@, text_or(environment.colorterm, "truecolor"@)));
    assert(env[2] == ("TERM_PROGRAM"@, "ashell"@));
    if let Some(path) = environment.path {
        assert(env[3] == ("PATH"@, path@));
    }
    assert(env[3 + p] == ("LANG"@, text_or(environment.lang, "en_US.UTF-8"@)));
    if let Some(home) = environment.home {
        assert(env[4 + p] == ("HOME"@, home@));
    }
    assert(env[4 + p + h] == ("SHELL"@, shell_program(windows, environment)));
}

} // verus!
