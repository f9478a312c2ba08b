//! A terminal over SSH: the commands that are run on the remote machine, the
//! course of a session and the way in which it proves who the user is.
use vstd::prelude::*;

use crate::crypto::{base64_encode, base64_text};
use crate::keys::{expand_key_path, expanded_path, key_stage, optional_text, KeyStage};
use crate::number::{decimal, decimal_text, Float32};
use crate::probes::{
    REMOTE_PORT_PROBE, REMOTE_PROCESS_PROBE, REMOTE_SYSTEM_PROBE, REMOTE_WINDOWS_PORT_PROBE,
    REMOTE_WINDOWS_PROCESS_PROBE, REMOTE_WINDOWS_SYSTEM_PROBE,
};
use crate::proxy::{address, address_text};
use crate::session::{AuthMethod, Session};
use crate::system::{
    port_rows, port_views, process_rows, process_views, remote_ports_from_probe,
    remote_processes_from_ps, RemotePort, RemoteProcess,
};
use crate::text::{
    chars_of, line_chars, lines, lossy_text, option_text, same_text, text_from_bytes, text_of, trim,
    trim_chars, trim_text, uppercase, uppercase_text, views,
};

verus! {

/// What the channel of a remote command brings.
#[derive(Debug)]
pub enum CommandMessage {
    /// Output of the command, on either stream.
    Data(Vec<u8>),
    ExitStatus(u32),
    Close,
    Other,
}

/// A command that runs on the remote machine, with what came of it so far.
pub struct RemoteCommand {
    pub output: Vec<u8>,
    pub exit_status: Option<u32>,
}

impl RemoteCommand {
    pub fn new() -> (r: RemoteCommand)
        ensures
            r.output@ == Seq::<u8>::empty(),
            r.exit_status is None,
    {
        RemoteCommand { output: Vec::new(), exit_status: None }
    }

    /// Takes what the channel brought. False means that the channel was closed.
    pub fn receive(&mut self, message: CommandMessage) -> (r: bool)
        ensures
            match message {
                CommandMessage::Data(bytes) => r && final(self).output@ == old(self).output@
                    + bytes@ && final(self).exit_status == old(self).exit_status,
                CommandMessage::ExitStatus(status) => r && final(self).output@ == old(self).output@
                    && final(self).exit_status == Some(status),
                CommandMessage::Close => !r && *final(self) == *old(self),
                CommandMessage::Other => r && *final(self) == *old(self),
            },
    {
        match message {
            CommandMessage::Data(bytes) => {
                let mut bytes = bytes;
                self.output.append(&mut bytes);
                true
            },
            CommandMessage::ExitStatus(status) => {
                self.exit_status = Some(status);
                true
            },
            CommandMessage::Close => false,
            CommandMessage::Other => true,
        }
    }

    /// What the command gave: its output, or what went wrong.
    pub fn outcome(&self, operation: &str) -> (r: Result<String, String>)
        ensures
            outcome_is(r, operation@, trim(lossy_text(self.output@)), self.exit_status),
    {
        let text = text_from_bytes(self.output.as_slice());
        let trimmed = trim_text(text.as_str());
        command_outcome(operation, trimmed, self.exit_status)
    }
}

/// What is said of a command that failed: its output, or how it ended.
pub open spec fn failure_detail(output: Seq<char>, exit_status: Option<u32>) -> Seq<char> {
    if output.len() > 0 {
        output
    } else {
        match exit_status {
            Some(status) => "exit status "@ + decimal(status as nat),
            None => "remote command closed without an exit status"@,
        }
    }
}

/// Whether a result is the one for a command with the given output and exit
/// status: only the status zero means success.
pub open spec fn outcome_is(
    r: Result<String, String>,
    operation: Seq<char>,
    output: Seq<char>,
    exit_status: Option<u32>,
) -> bool {
    match r {
        Ok(text) => exit_status == Some(0u32) && text@ == output,
        Err(text) => exit_status != Some(0u32) && text@ == operation + " failed: "@
            + failure_detail(output, exit_status),
    }
}

/// What a remote command gave, by its output and its exit status.
pub fn command_outcome(operation: &str, output: String, exit_status: Option<u32>) -> (r: Result<
    String,
    String,
>)
    ensures
        outcome_is(r, operation@, output@, exit_status),
{
    let mut words = operation.to_owned();
    words.append(" failed: ");
    match exit_status {
        Some(status) => {
            if status == 0 {
                return Ok(output);
            }
            if output.as_str().is_empty() {
                words.append("exit status ");
                let number = decimal_text(status as u64);
                words.append(number.as_str());
                assert(words@ =~= operation@ + " failed: "@ + ("exit status "@ + decimal(
                    status as nat,
                )));
            } else {
                words.append(output.as_str());
            }
        },
        None => {
            if output.as_str().is_empty() {
                words.append("remote command closed without an exit status");
            } else {
                words.append(output.as_str());
            }
        },
    }
    Err(words)
}

/// How many seconds a remote command may take.
pub const REMOTE_COMMAND_TIMEOUT_SECONDS: u64 = 20;

/// What is said of a command that took too long.
pub fn command_timeout(operation: &str) -> (r: String)
    ensures
        r@ == operation@ + " timed out after 20 seconds"@,
{
    let mut r = operation.to_owned();
    r.append(" timed out after 20 seconds");
    r
}

/// The first line that is not blank, without white space at its ends.
pub open spec fn first_line(ls: Seq<Seq<char>>) -> Seq<char>
    decreases ls.len(),
{
    if ls.len() == 0 {
        "empty output"@
    } else if trim(ls[0]).len() > 0 {
        trim(ls[0])
    } else {
        first_line(ls.skip(1))
    }
}

fn first_line_of(output: &str) -> (r: String)
    ensures
        r@ == first_line(lines(output@)),
{
    let cs = chars_of(output);
    let ls = line_chars(cs.as_slice());
    let ghost all = lines(output@);
    let mut i: usize = 0;
    assert(all.skip(0) =~= all);
    while i < ls.len()
        invariant
            i <= ls.len(),
            views(ls@) == all,
            all == lines(output@),
            first_line(all) == first_line(all.skip(i as int)),
        decreases ls.len() - i,
    {
        assert(all.skip(i as int)[0] == ls@[i as int]@);
        assert(all.skip(i as int).skip(1) =~= all.skip(i + 1));
        let trimmed = trim_chars(ls[i].as_slice());
        if trimmed.len() > 0 {
            return text_of(trimmed);
        }
        i += 1;
    }
    "empty output".to_owned()
}

/// The processes that a probe printed; output without any is an error. The
/// readings are those of `remote_processes_from_ps`.
pub fn parse_remote_process_probe(
    output: &str,
    operation: &str,
    readings: &[Option<Float32>],
) -> (r: Result<Vec<RemoteProcess>, String>)
    ensures
        match r {
            Ok(processes) => process_rows(lines(output@), readings@).len() > 0 && process_views(
                processes@,
            ) == process_rows(lines(output@), readings@),
            Err(words) => process_rows(lines(output@), readings@).len() == 0 && words@
                == operation@ + " returned no parseable process rows: "@ + first_line(
                lines(output@),
            ),
        },
{
    let processes = remote_processes_from_ps(output, readings);
    assert(process_views(processes@).len() == processes@.len());
    if processes.len() > 0 {
        return Ok(processes);
    }
    let detail = first_line_of(output);
    let mut words = operation.to_owned();
    words.append(" returned no parseable process rows: ");
    words.append(detail.as_str());
    Err(words)
}

/// The ports that a probe printed. No output means no ports; output without any
/// is an error.
pub fn parse_remote_port_probe(output: &str, operation: &str) -> (r: Result<
    Vec<RemotePort>,
    String,
>)
    ensures
        match r {
            Ok(ports) => port_views(ports@) == port_rows(lines(output@)) && (port_rows(
                lines(output@),
            ).len() > 0 || trim(output@).len() == 0),
            Err(words) => port_rows(lines(output@)).len() == 0 && trim(output@).len() > 0 && words@
                == operation@ + " returned no parseable port rows: "@ + first_line(lines(output@)),
        },
{
    let ports = remote_ports_from_probe(output);
    assert(port_views(ports@).len() == ports@.len());
    if ports.len() > 0 {
        return Ok(ports);
    }
    let cs = chars_of(output);
    if trim_chars(cs.as_slice()).len() == 0 {
        return Ok(ports);
    }
    let detail = first_line_of(output);
    let mut words = operation.to_owned();
    words.append(" returned no parseable port rows: ");
    words.append(detail.as_str());
    Err(words)
}

/// What is said where neither the Unix form nor the Windows form of a probe
/// gave a result.
pub fn both_probes_failed(unix_error: &str, windows_error: &str) -> (r: String)
    ensures
        r@ == "Unix probe failed first: "@ + unix_error@ + ": "@ + windows_error@,
{
    let mut r = "Unix probe failed first: ".to_owned();
    r.append(unix_error);
    r.append(": ");
    r.append(windows_error);
    r
}

/// The bytes of a text in UTF-16, low byte first.
pub open spec fn utf16_bytes(s: Seq<char>) -> Seq<u8>
    decreases s.len(),
{
    if s.len() == 0 {
        Seq::empty()
    } else {
        utf16_bytes(s.drop_last()) + unit_pairs(s.last() as int)
    }
}

/// The two bytes of one unit, low byte first.
pub open spec fn low_first(unit: int) -> Seq<u8> {
    seq![(unit % 256) as u8, (unit / 256) as u8]
}

/// The bytes of one character: one unit, or two for a character beyond the
/// first 65536.
pub open spec fn unit_pairs(c: int) -> Seq<u8> {
    if c < 0x10000 {
        low_first(c)
    } else {
        low_first(0xd800 + (c - 0x10000) / 0x400) + low_first(0xdc00 + (c - 0x10000) % 0x400)
    }
}

fn push_unit(bytes: &mut Vec<u8>, unit: u32)
    requires
        unit < 0x10000,
    ensures
        final(bytes)@ == old(bytes)@ + low_first(unit as int),
{
    bytes.push((unit % 256) as u8);
    bytes.push((unit / 256) as u8);
    assert(bytes@ =~= old(bytes)@ + low_first(unit as int));
}

fn char_number(c: char) -> (r: u32)
    ensures
        r == c as int,
        r <= 0x10ffff,
{
    c as u32
}

fn utf16_of(s: &str) -> (r: Vec<u8>)
    ensures
        r@ == utf16_bytes(s@),
{
    let cs = chars_of(s);
    let mut r: Vec<u8> = Vec::new();
    let mut i: usize = 0;
    assert(r@ =~= utf16_bytes(cs@.take(0)));
    while i < cs.len()
        invariant
            i <= cs.len(),
            r@ == utf16_bytes(cs@.take(i as int)),
        decreases cs.len() - i,
    {
        let ghost before = r@;
        assert(cs@.take(i + 1).drop_last() =~= cs@.take(i as int));
        let c: char = cs[i];
        let n: u32 = char_number(c);
        if n < 0x10000 {
            push_unit(&mut r, n);
        } else {
            let above: u32 = n - 0x10000;
            push_unit(&mut r, 0xd800 + above / 0x400);
            push_unit(&mut r, 0xdc00 + above % 0x400);
            assert(r@ =~= before + unit_pairs(n as int));
        }
        i += 1;
    }
    assert(cs@.take(i as int) =~= cs@);
    r
}

/// The command that runs a PowerShell script: the script in UTF-16 as Base64.
pub fn powershell_encoded_command(script: &str) -> (r: String)
    ensures
        r@
            == "powershell.exe -NoLogo -NoProfile -NonInteractive -EncodedCommand "@ + base64_text(
            utf16_bytes(script@),
        ),
{
    let bytes = utf16_of(script);
    let encoded = base64_encode(bytes.as_slice());
    let mut r = "powershell.exe -NoLogo -NoProfile -NonInteractive -EncodedCommand ".to_owned();
    r.append(encoded.as_str());
    r
}

/// What a remote machine is asked for.
#[derive(Debug, Clone, Copy, PartialEq, Eq, Structural)]
pub enum Probe {
    System,
    Processes,
    Ports,
}

/// The commands of a probe, each with the name under which its errors are told. The one
/// for Windows is run where the one for Unix gives nothing.
#[derive(Debug)]
pub struct ProbeCommands {
    pub unix: String,
    pub unix_name: String,
    pub windows: String,
    pub windows_name: String,
}

/// The script of a probe for Unix, and the one for Windows.
pub open spec fn probe_scripts(probe: Probe) -> (Seq<char>, Seq<char>) {
    match probe {
        Probe::System => (REMOTE_SYSTEM_PROBE@, REMOTE_WINDOWS_SYSTEM_PROBE@),
        Probe::Processes => (REMOTE_PROCESS_PROBE@, REMOTE_WINDOWS_PROCESS_PROBE@),
        Probe::Ports => (REMOTE_PORT_PROBE@, REMOTE_WINDOWS_PORT_PROBE@),
    }
}

/// The name of a probe behind that of the system.
pub open spec fn probe_name(probe: Probe) -> Seq<char> {
    match probe {
        Probe::System => " remote metrics probe"@,
        Probe::Processes => " remote process probe"@,
        Probe::Ports => " remote port probe"@,
    }
}

/// The commands of a probe.
pub fn probe_commands(probe: Probe) -> (r: ProbeCommands)
    ensures
        probe is System ==> r.unix@ == REMOTE_SYSTEM_PROBE@ && r.windows@ == powershell(
            REMOTE_WINDOWS_SYSTEM_PROBE@,
        ),
        probe is Processes ==> r.unix@ == REMOTE_PROCESS_PROBE@ && r.windows@ == powershell(
            REMOTE_WINDOWS_PROCESS_PROBE@,
        ),
        probe is Ports ==> r.unix@ == REMOTE_PORT_PROBE@ && r.windows@ == powershell(
            REMOTE_WINDOWS_PORT_PROBE@,
        ),
        r.unix@ == probe_scripts(probe).0,
        r.unix_name@ == "Unix"@ + probe_name(probe),
        r.windows@
            == "powershell.exe -NoLogo -NoProfile -NonInteractive -EncodedCommand "@ + base64_text(
            utf16_bytes(probe_scripts(probe).1),
        ),
        r.windows_name@ == "Windows"@ + probe_name(probe),
{
    let (unix, windows, name) = match probe {
        Probe::System => (
            REMOTE_SYSTEM_PROBE,
            REMOTE_WINDOWS_SYSTEM_PROBE,
            " remote metrics probe",
        ),
        Probe::Processes => (
            REMOTE_PROCESS_PROBE,
            REMOTE_WINDOWS_PROCESS_PROBE,
            " remote process probe",
        ),
        Probe::Ports => (REMOTE_PORT_PROBE, REMOTE_WINDOWS_PORT_PROBE, " remote port probe"),
    };
    let mut unix_name = "Unix".to_owned();
    unix_name.append(name);
    let mut windows_name = "Windows".to_owned();
    windows_name.append(name);
    ProbeCommands {
        unix: unix.to_owned(),
        unix_name,
        windows: powershell_encoded_command(windows),
        windows_name,
    }
}

/// The commands that end a remote process.
#[derive(Debug)]
pub struct TerminateCommands {
    pub unix: String,
    pub windows: String,
}

/// The script that ends a process on Windows.
pub open spec fn stop_script(pid: u32) -> Seq<char> {
    "$ErrorActionPreference = 'Stop'; Stop-Process -Id "@ + decimal(pid as nat)
        + " -ErrorAction Stop"@
}

/// The commands that end the remote process. The first processes of a machine
/// are not ended.
pub fn terminate_remote_process(pid: u32) -> (r: Result<TerminateCommands, String>)
    ensures
        match r {
            Ok(commands) => {
                &&& pid > 1
                &&& commands.unix@ == "kill -TERM "@ + decimal(pid as nat)
                &&& commands.windows@
                    == "powershell.exe -NoLogo -NoProfile -NonInteractive -EncodedCommand "@
                    + base64_text(utf16_bytes(stop_script(pid)))
            },
            Err(words) => pid <= 1 && words@ == "refusing to terminate protected PID "@ + decimal(
                pid as nat,
            ),
        },
{
    let number = decimal_text(pid as u64);
    if pid <= 1 {
        let mut words = "refusing to terminate protected PID ".to_owned();
        words.append(number.as_str());
        return Err(words);
    }
    let mut unix = "kill -TERM ".to_owned();
    unix.append(number.as_str());
    let mut script = "$ErrorActionPreference = 'Stop'; Stop-Process -Id ".to_owned();
    script.append(number.as_str());
    script.append(" -ErrorAction Stop");
    Ok(TerminateCommands { unix, windows: powershell_encoded_command(script.as_str()) })
}

/// What is said where a process could be ended in neither way.
pub fn both_terminations_failed(unix_error: &str, windows_error: &str) -> (r: String)
    ensures
        r@ == "Unix termination failed first: "@ + unix_error@ + ": "@ + windows_error@,
{
    let mut r = "Unix termination failed first: ".to_owned();
    r.append(unix_error);
    r.append(": ");
    r.append(windows_error);
    r
}

/// What is run on a remote machine whose system is not known.
#[derive(Debug, Clone, Copy, PartialEq, Eq, Structural)]
pub enum RemoteTask {
    /// Ask the machine for something.
    Ask(Probe),
    /// End a process.
    Terminate { pid: u32 },
}

/// What became of a remote task so far.
#[derive(Debug)]
pub enum TaskEvent {
    /// Nothing was run yet.
    Asked,
    /// The command for Unix ended, or gave nothing of use for the reason told.
    UnixEnded(Result<(), String>),
    /// So did the one for Windows. `unix_error` tells how the first one failed.
    WindowsEnded { unix_error: String, outcome: Result<(), String> },
}

/// What to do next for a remote task.
#[derive(Debug)]
pub enum TaskAction {
    /// Run the command for Unix; its errors are told under the name.
    RunUnix { command: String, name: String },
    /// Run the command for Windows, and hand the first error on.
    RunWindows { command: String, name: String, unix_error: String },
    /// The last command did what it should.
    Finish,
    /// The task failed.
    Fail(String),
}

/// The PowerShell command that runs a script.
pub open spec fn powershell(script: Seq<char>) -> Seq<char> {
    "powershell.exe -NoLogo -NoProfile -NonInteractive -EncodedCommand "@ + base64_text(
        utf16_bytes(script),
    )
}

/// The command of a task for Unix, and its name.
pub open spec fn unix_task(task: RemoteTask) -> (Seq<char>, Seq<char>) {
    match task {
        RemoteTask::Ask(probe) => (probe_scripts(probe).0, "Unix"@ + probe_name(probe)),
        RemoteTask::Terminate { pid } => (
            "kill -TERM "@ + decimal(pid as nat),
            "terminate Unix remote process"@,
        ),
    }
}

/// The command of a task for Windows, and its name.
pub open spec fn windows_task(task: RemoteTask) -> (Seq<char>, Seq<char>) {
    match task {
        RemoteTask::Ask(probe) => (
            powershell(probe_scripts(probe).1),
            "Windows"@ + probe_name(probe),
        ),
        RemoteTask::Terminate { pid } => (
            powershell(stop_script(pid)),
            "terminate Windows remote process"@,
        ),
    }
}

/// What is said where both commands of a task failed.
pub open spec fn task_failure(
    task: RemoteTask,
    unix_error: Seq<char>,
    windows_error: Seq<char>,
) -> Seq<char> {
    (if task is Ask {
        "Unix probe failed first: "@
    } else {
        "Unix termination failed first: "@
    }) + unix_error + ": "@ + windows_error
}

/// Whether the action is the one for the event: the command for Unix comes
/// first, the one for Windows where the first one failed. The first processes of
/// a machine are not ended.
pub open spec fn task_action(task: RemoteTask, event: TaskEvent, action: TaskAction) -> bool {
    if task matches RemoteTask::Terminate { pid } && pid <= 1 {
        action matches TaskAction::Fail(words) && words@ == "refusing to terminate protected PID "@
            + decimal(task->pid as nat)
    } else {
        match event {
            TaskEvent::Asked => {
                &&& action matches TaskAction::RunUnix { command, name }
                &&& (command@, name@) == unix_task(task)
            },
            TaskEvent::UnixEnded(Ok(_)) => action is Finish,
            TaskEvent::UnixEnded(Err(error)) => {
                &&& action matches TaskAction::RunWindows { command, name, unix_error }
                &&& (command@, name@) == windows_task(task)
                &&& unix_error@ == error@
            },
            TaskEvent::WindowsEnded { unix_error, outcome } => match outcome {
                Ok(_) => action is Finish,
                Err(error) => action matches TaskAction::Fail(words) && words@ == task_failure(
                    task,
                    unix_error@,
                    error@,
                ),
            },
        }
    }
}

/// The first action of a task that is not refused.
fn start_task(task: RemoteTask) -> (r: TaskAction)
    requires
        task matches RemoteTask::Terminate { pid } ==> pid > 1,
    ensures
        task_action(task, TaskEvent::Asked, r),
{
    match task {
        RemoteTask::Ask(probe) => {
            let commands = probe_commands(probe);
            TaskAction::RunUnix { command: commands.unix, name: commands.unix_name }
        },
        RemoteTask::Terminate { pid } => match terminate_remote_process(pid) {
            Ok(commands) => TaskAction::RunUnix {
                command: commands.unix,
                name: "terminate Unix remote process".to_owned(),
            },
            Err(words) => TaskAction::Fail(words),
        },
    }
}

/// The action of a task that is not refused, once its command for Unix failed.
fn retry_task(task: RemoteTask, unix_error: String) -> (r: TaskAction)
    requires
        task matches RemoteTask::Terminate { pid } ==> pid > 1,
    ensures
        task_action(task, TaskEvent::UnixEnded(Err(unix_error)), r),
{
    match task {
        RemoteTask::Ask(probe) => {
            let commands = probe_commands(probe);
            TaskAction::RunWindows {
                command: commands.windows,
                name: commands.windows_name,
                unix_error,
            }
        },
        RemoteTask::Terminate { pid } => match terminate_remote_process(pid) {
            Ok(commands) => TaskAction::RunWindows {
                command: commands.windows,
                name: "terminate Windows remote process".to_owned(),
                unix_error,
            },
            Err(words) => TaskAction::Fail(words),
        },
    }
}

/// What to do next for a remote task.
pub fn on_task_event(task: RemoteTask, event: TaskEvent) -> (r: TaskAction)
    ensures
        task_action(task, event, r),
{
    if let RemoteTask::Terminate { pid } = task {
        if let Err(words) = terminate_remote_process(pid) {
            return TaskAction::Fail(words);
        }
    }
    match event {
        TaskEvent::Asked => start_task(task),
        TaskEvent::UnixEnded(outcome) => match outcome {
            Ok(_) => TaskAction::Finish,
            Err(error) => retry_task(task, error),
        },
        TaskEvent::WindowsEnded { unix_error, outcome } => match outcome {
            Ok(_) => TaskAction::Finish,
            Err(error) => match task {
                RemoteTask::Ask(_) => TaskAction::Fail(
                    both_probes_failed(unix_error.as_str(), error.as_str()),
                ),
                RemoteTask::Terminate { .. } => TaskAction::Fail(
                    both_terminations_failed(unix_error.as_str(), error.as_str()),
                ),
            },
        },
    }
}

/// The command for Windows is run only after the one for Unix failed, and with
/// what that one said.
pub proof fn windows_comes_after_a_failure_on_unix(
    task: RemoteTask,
    event: TaskEvent,
    action: TaskAction,
)
    requires
        task_action(task, event, action),
        action is RunWindows,
    ensures
        event matches TaskEvent::UnixEnded(Err(error)) && action->RunWindows_unix_error@ == error@,
{
}

/// For the first processes of a machine no command is run at all.
pub proof fn protected_processes_are_left_alone(pid: u32, event: TaskEvent, action: TaskAction)
    requires
        pid <= 1,
        task_action(RemoteTask::Terminate { pid }, event, action),
    ensures
        action is Fail,
{
}

/// What a terminal asks of its connection.
#[derive(Debug)]
pub enum BackendCommand {
    Input(Vec<u8>),
    Resize { cols: u16, rows: u16 },
    SampleMetrics,
    SampleProcesses,
    SamplePorts,
    TerminateProcess { pid: u32 },
    Close,
}

/// What happens to a session that is open.
#[derive(Debug)]
pub enum SshEvent {
    /// The terminal asks for something; nothing more comes where it is gone.
    Command(Option<BackendCommand>),
    /// Writing to the channel failed.
    WriteFailed(String),
    /// The channel brings output, on either stream.
    Data(Vec<u8>),
    ExitStatus,
    Eof,
    /// The channel was closed.
    Close,
    /// The stream below the channel ended.
    StreamEnd,
    Other,
}

/// What has to be done in a session.
#[derive(Debug)]
pub enum SshAction {
    Nothing,
    Write(Vec<u8>),
    WindowChange { cols: u16, rows: u16 },
    SampleMetrics,
    SampleProcesses,
    SamplePorts,
    Terminate { pid: u32 },
    /// Hand this output to the terminal.
    Output(Vec<u8>),
    /// Leave the session with this reason, after an end-of-file where asked.
    Leave { send_eof: bool, reason: String },
}

/// The state of an open session: whether the server said that it was about to
/// close it.
#[derive(Debug, Clone, Copy, PartialEq, Eq, Structural)]
pub struct SshSession {
    pub is_graceful_close: bool,
}

/// Whether the action leaves the session with the given reason.
pub open spec fn leaves(action: SshAction, with_eof: bool, words: Seq<char>) -> bool {
    match action {
        SshAction::Leave { send_eof, reason } => send_eof == with_eof && reason@ == words,
        _ => false,
    }
}

/// Whether the action is the one for the event.
pub open spec fn answers(state: SshSession, event: SshEvent, action: SshAction) -> bool {
    match event {
        SshEvent::Command(None) => leaves(action, true, "ssh session closed"@),
        SshEvent::Command(Some(command)) => match command {
            BackendCommand::Input(bytes) => action == SshAction::Write(bytes),
            BackendCommand::Resize { cols, rows } => action == (SshAction::WindowChange {
                cols,
                rows,
            }),
            BackendCommand::SampleMetrics => action == SshAction::SampleMetrics,
            BackendCommand::SampleProcesses => action == SshAction::SampleProcesses,
            BackendCommand::SamplePorts => action == SshAction::SamplePorts,
            BackendCommand::TerminateProcess { pid } => action == (SshAction::Terminate { pid }),
            BackendCommand::Close => leaves(action, true, "ssh session closed"@),
        },
        SshEvent::WriteFailed(error) => leaves(action, false, "ssh write error: "@ + error@),
        SshEvent::Data(bytes) => action == SshAction::Output(bytes),
        SshEvent::ExitStatus => action == SshAction::Nothing,
        SshEvent::Eof => action == SshAction::Nothing,
        SshEvent::Close => leaves(
            action,
            false,
            if state.is_graceful_close {
                "ssh session closed"@
            } else {
                "ssh connection lost (abrupt close)"@
            },
        ),
        SshEvent::StreamEnd => leaves(
            action,
            false,
            if state.is_graceful_close {
                "ssh session closed"@
            } else {
                "ssh connection lost (network drop)"@
            },
        ),
        SshEvent::Other => action == SshAction::Nothing,
    }
}

fn leave(send_eof: bool, reason: &str) -> (r: SshAction)
    ensures
        leaves(r, send_eof, reason@),
{
    SshAction::Leave { send_eof, reason: reason.to_owned() }
}

impl SshSession {
    pub fn new() -> (r: SshSession)
        ensures
            !r.is_graceful_close,
    {
        SshSession { is_graceful_close: false }
    }

    /// Takes what happened to the session and says what has to be done.
    pub fn run(&mut self, event: SshEvent) -> (r: SshAction)
        ensures
            answers(*old(self), event, r),
            final(self).is_graceful_close == (old(self).is_graceful_close
                || event is ExitStatus || event is Eof),
    {
        match event {
            SshEvent::Command(command) => match command {
                None => leave(true, "ssh session closed"),
                Some(command) => match command {
                    BackendCommand::Input(bytes) => SshAction::Write(bytes),
                    BackendCommand::Resize { cols, rows } => SshAction::WindowChange { cols, rows },
                    BackendCommand::SampleMetrics => SshAction::SampleMetrics,
                    BackendCommand::SampleProcesses => SshAction::SampleProcesses,
                    BackendCommand::SamplePorts => SshAction::SamplePorts,
                    BackendCommand::TerminateProcess { pid } => SshAction::Terminate { pid },
                    BackendCommand::Close => leave(true, "ssh session closed"),
                },
            },
            SshEvent::WriteFailed(error) => {
                let mut reason = "ssh write error: ".to_owned();
                reason.append(error.as_str());
                SshAction::Leave { send_eof: false, reason }
            },
            SshEvent::Data(bytes) => SshAction::Output(bytes),
            SshEvent::ExitStatus | SshEvent::Eof => {
                self.is_graceful_close = true;
                SshAction::Nothing
            },
            SshEvent::Close => if self.is_graceful_close {
                leave(false, "ssh session closed")
            } else {
                leave(false, "ssh connection lost (abrupt close)")
            },
            SshEvent::StreamEnd => if self.is_graceful_close {
                leave(false, "ssh session closed")
            } else {
                leave(false, "ssh connection lost (network drop)")
            },
            SshEvent::Other => SshAction::Nothing,
        }
    }
}

/// What is shown while a session is being opened.
pub fn connecting_status(session: &Session) -> (r: String)
    ensures
        r@ == "connecting "@ + session.user@ + "@"@ + address(session.host@, session.port)
            + "..."@,
{
    let at = address_text(session.host.as_str(), session.port);
    let mut r = "connecting ".to_owned();
    r.append(session.user.as_str());
    r.append("@");
    r.append(at.as_str());
    r.append("...");
    r
}

/// What is shown once a session is open.
pub fn connected_status(session: &Session) -> (r: String)
    ensures
        r@ == "connected "@ + session.user@ + "@"@ + session.host@,
{
    let mut r = "connected ".to_owned();
    r.append(session.user.as_str());
    r.append("@");
    r.append(session.host.as_str());
    r
}

/// What is shown before the connection is made, with the proxy through which it
/// goes, if any. A proxy without a port has the usual one of its type.
pub fn opening_status(session: &Session, proxy: &Option<(String, String, Option<u16>)>) -> (r:
    String)
    ensures
        r@ == (match *proxy {
            Some((proxy_type, host, port)) => {
                let number = match port {
                    Some(p) => p,
                    None => if proxy_type@ == "http"@ {
                        8080
                    } else {
                        1080
                    },
                };
                "connecting to "@ + address(session.host@, session.port) + " via "@ + uppercase(
                    proxy_type@,
                ) + " proxy "@ + address(host@, number)
            },
            None => "opening tcp connection to "@ + address(session.host@, session.port),
        }),
{
    let at = address_text(session.host.as_str(), session.port);
    match proxy {
        Some((proxy_type, host, port)) => {
            let number: u16 = match port {
                Some(p) => *p,
                None => if same_text(proxy_type.as_str(), "http") {
                    8080
                } else {
                    1080
                },
            };
            let name = uppercase_text(proxy_type.as_str());
            let proxy_at = address_text(host.as_str(), number);
            let mut r = "connecting to ".to_owned();
            r.append(at.as_str());
            r.append(" via ");
            r.append(name.as_str());
            r.append(" proxy ");
            r.append(proxy_at.as_str());
            r
        },
        None => {
            let mut r = "opening tcp connection to ".to_owned();
            r.append(at.as_str());
            r
        },
    }
}

/// Where the private key of a session comes from, in words.
pub open spec fn key_source(session: Session) -> Seq<char> {
    let path = trim(session.private_key_path@);
    let has_inline = trim(session.private_key_inline@).len() > 0;
    if path.len() > 0 && has_inline {
        "inline key or "@ + path
    } else if path.len() > 0 {
        path
    } else if has_inline {
        "inline key text"@
    } else {
        "unknown key source"@
    }
}

pub fn key_source_label(session: &Session) -> (r: String)
    ensures
        r@ == key_source(*session),
{
    let path = trim_text(session.private_key_path.as_str());
    let inline = trim_text(session.private_key_inline.as_str());
    let has_inline = !inline.as_str().is_empty();
    if !path.as_str().is_empty() {
        if has_inline {
            let mut r = "inline key or ".to_owned();
            r.append(path.as_str());
            r
        } else {
            path
        }
    } else if has_inline {
        "inline key text".to_owned()
    } else {
        "unknown key source".to_owned()
    }
}

/// How a session proves who the user is.
#[derive(Debug)]
pub enum AuthStep {
    /// Send the password.
    Password,
    /// Load the session's key and offer it.
    ExplicitKey,
    /// Offer the usual keys of the user, opened with this passphrase.
    DefaultKeys(Option<String>),
}

/// What is shown and done once the connection is there.
#[derive(Debug)]
pub struct AuthPlan {
    pub statuses: Vec<String>,
    pub step: AuthStep,
}

/// What is shown before the session's key is loaded.
pub open spec fn loading_key(session: Session) -> Seq<char> {
    "connected to "@ + address(session.host@, session.port) + ", loading private key from "@
        + key_source(session)
}

/// What is shown before the usual keys are tried.
pub open spec fn trying_keys(session: Session) -> Seq<char> {
    "connected to "@ + address(session.host@, session.port)
        + ", trying default keys from ~/.ssh/ for "@ + session.user@
}

/// Whether the session names a key: a file, or the key itself.
pub open spec fn explicit_key(session: Session) -> bool {
    trim(session.private_key_path@).len() > 0 || trim(session.private_key_inline@).len() > 0
}

/// Whether the session names a key: a file, or the key itself.
pub fn session_has_explicit_key(session: &Session) -> (r: bool)
    ensures
        r == explicit_key(*session),
{
    let path = trim_text(session.private_key_path.as_str());
    if !path.as_str().is_empty() {
        return true;
    }
    let inline = trim_text(session.private_key_inline.as_str());
    !inline.as_str().is_empty()
}

/// Whether the session brings a key of its own. One that follows the SSH
/// configuration does where that names a file.
pub open spec fn own_key(session: Session) -> bool {
    match session.auth {
        AuthMethod::Password => false,
        AuthMethod::Key => explicit_key(session),
        AuthMethod::Config => trim(session.private_key_path@).len() > 0,
    }
}

/// The key text that the session uses: one that follows the SSH configuration
/// uses none.
pub open spec fn used_inline_key(session: Session) -> Seq<char> {
    if session.auth == AuthMethod::Key {
        trim(session.private_key_inline@)
    } else {
        Seq::empty()
    }
}

/// The key file that the session uses.
pub open spec fn used_key_path(
    session: Session,
    home: Option<Seq<char>>,
    windows: bool,
) -> Option<Seq<char>> {
    expanded_path(trim(session.private_key_path@), home, windows)
}

/// Where a session's own key comes from.
#[derive(Debug)]
pub struct KeySources {
    /// The key itself; empty where there is none.
    pub inline: String,
    /// The file that holds the key.
    pub path: Option<String>,
    /// The passphrase that opens the key.
    pub passphrase: Option<String>,
}

/// Where the session's own key comes from. `home` is the user's home directory,
/// where it is known.
pub fn session_key_sources(session: &Session, home: Option<&str>, windows: bool) -> (r: KeySources)
    ensures
        r.inline@ == used_inline_key(*session),
        option_text(r.path) == used_key_path(*session, optional_text(home), windows),
        option_text(r.passphrase) == used_passphrase(*session),
{
    let inline = match session.auth {
        AuthMethod::Key => trim_text(session.private_key_inline.as_str()),
        _ => "".to_owned(),
    };
    proof {
        reveal_strlit("");
        assert(""@ =~= Seq::<char>::empty());
    }
    let path_text = trim_text(session.private_key_path.as_str());
    let path = expand_key_path(path_text.as_str(), home, windows);
    let passphrase = session_passphrase(session);
    KeySources { inline, path, passphrase }
}

/// A session that follows the SSH configuration never uses the key text that it
/// holds: nothing but the key file is read, and nothing is said of the text.
pub proof fn the_configuration_names_the_only_key(
    session: Session,
    path: Option<String>,
    stage: KeyStage,
)
    requires
        session.auth == AuthMethod::Config,
        key_stage(stage, used_inline_key(session), path, used_passphrase(session)),
    ensures
        stage !is Loaded,
        path matches Some(file) ==> (stage matches KeyStage::ReadFile { path: read, inline_error }
            && read == file && inline_error is None),
{
}

/// The texts that the plan shows.
pub open spec fn auth_statuses(session: Session) -> Seq<Seq<char>> {
    match session.auth {
        AuthMethod::Password => seq![
            "connected to "@ + address(session.host@, session.port)
                + ", sending password authentication for "@ + session.user@,
        ],
        AuthMethod::Key => if own_key(session) {
            seq![loading_key(session)]
        } else {
            seq![trying_keys(session)]
        },
        AuthMethod::Config => if own_key(session) {
            seq![loading_key(session)]
        } else {
            seq![loading_key(session), trying_keys(session)]
        },
    }
}

/// The passphrase that is used: one that is blank counts as none.
pub open spec fn used_passphrase(session: Session) -> Option<Seq<char>> {
    if trim(session.passphrase@).len() > 0 {
        Some(trim(session.passphrase@))
    } else {
        None
    }
}

/// Whether the step is the one for the session.
pub open spec fn auth_step(session: Session, step: AuthStep) -> bool {
    match step {
        AuthStep::Password => session.auth == AuthMethod::Password,
        AuthStep::ExplicitKey => session.auth != AuthMethod::Password && own_key(session),
        AuthStep::DefaultKeys(passphrase) => {
            &&& session.auth != AuthMethod::Password
            &&& !own_key(session)
            &&& match passphrase {
                Some(text) => used_passphrase(session) == Some(text@),
                None => used_passphrase(session) is None,
            }
        },
    }
}

/// The passphrase of the session's key, without white space at its ends; none
/// where it is blank.
pub fn session_passphrase(session: &Session) -> (r: Option<String>)
    ensures
        match r {
            Some(text) => used_passphrase(*session) == Some(text@),
            None => used_passphrase(*session) is None,
        },
{
    let text = trim_text(session.passphrase.as_str());
    if text.as_str().is_empty() {
        None
    } else {
        Some(text)
    }
}

fn connected_to(session: &Session, rest: &str) -> (r: String)
    ensures
        r@ == "connected to "@ + address(session.host@, session.port) + rest@,
{
    let at = address_text(session.host.as_str(), session.port);
    let mut r = "connected to ".to_owned();
    r.append(at.as_str());
    r.append(rest);
    r
}

/// What to show and to do once the connection is there.
pub fn connect_and_authenticate(session: &Session) -> (r: AuthPlan)
    ensures
        crate::text::texts(r.statuses@) == auth_statuses(*session),
        auth_step(*session, r.step),
{
    let mut statuses: Vec<String> = Vec::new();
    match session.auth {
        AuthMethod::Password => {
            let mut status = connected_to(session, ", sending password authentication for ");
            status.append(session.user.as_str());
            statuses.push(status);
            assert(crate::text::texts(statuses@) =~= auth_statuses(*session));
            AuthPlan { statuses, step: AuthStep::Password }
        },
        AuthMethod::Key => {
            if session_has_explicit_key(session) {
                let mut status = connected_to(session, ", loading private key from ");
                let source = key_source_label(session);
                status.append(source.as_str());
                statuses.push(status);
                assert(crate::text::texts(statuses@) =~= auth_statuses(*session));
                AuthPlan { statuses, step: AuthStep::ExplicitKey }
            } else {
                let mut status = connected_to(session, ", trying default keys from ~/.ssh/ for ");
                status.append(session.user.as_str());
                statuses.push(status);
                assert(crate::text::texts(statuses@) =~= auth_statuses(*session));
                AuthPlan { statuses, step: AuthStep::DefaultKeys(session_passphrase(session)) }
            }
        },
        AuthMethod::Config => {
            let mut status = connected_to(session, ", loading private key from ");
            let source = key_source_label(session);
            status.append(source.as_str());
            statuses.push(status);
            let path = trim_text(session.private_key_path.as_str());
            if !path.as_str().is_empty() {
                assert(crate::text::texts(statuses@) =~= auth_statuses(*session));
                AuthPlan { statuses, step: AuthStep::ExplicitKey }
            } else {
                let mut second = connected_to(session, ", trying default keys from ~/.ssh/ for ");
                second.append(session.user.as_str());
                statuses.push(second);
                assert(crate::text::texts(statuses@) =~= auth_statuses(*session));
                AuthPlan { statuses, step: AuthStep::DefaultKeys(session_passphrase(session)) }
            }
        },
    }
}

/// The user, the host and the port of a session.
pub open spec fn full_target(session: Session) -> Seq<char> {
    session.user@ + "@"@ + address(session.host@, session.port)
}

fn full_target_text(session: &Session) -> (r: String)
    ensures
        r@ == full_target(*session),
{
    let mut r = session.user.clone();
    r.append("@");
    let at = address_text(session.host.as_str(), session.port);
    r.append(at.as_str());
    r
}

/// What is shown once the session's key was loaded; nothing for a session that
/// follows the SSH configuration.
pub fn key_loaded_status(session: &Session, algorithm: &str) -> (r: Option<String>)
    ensures
        crate::text::option_text(r) == key_loaded_text(*session, algorithm@),
{
    match session.auth {
        AuthMethod::Key => {
            let source = key_source_label(session);
            let mut r = "private key loaded from ".to_owned();
            r.append(source.as_str());
            r.append(", algorithm ");
            r.append(algorithm);
            r.append(", sending public key authentication for ");
            r.append(session.user.as_str());
            Some(r)
        },
        _ => None,
    }
}

/// How the server took a key.
#[derive(Debug, Clone, Copy, PartialEq, Eq, Structural)]
pub enum KeyOutcome {
    Accepted,
    Refused,
    Failed,
}

/// Whether the next key is offered, after the server took the last one in the
/// given way.
pub fn offers_next_key(last: KeyOutcome) -> (r: bool)
    ensures
        r == (last != KeyOutcome::Accepted),
{
    match last {
        KeyOutcome::Accepted => false,
        KeyOutcome::Refused | KeyOutcome::Failed => true,
    }
}

/// What is said where the server takes none of the session's keys.
pub fn explicit_key_failure(session: &Session, algorithm: &str) -> (r: String)
    ensures
        r@ == explicit_key_text(*session, algorithm@),
{
    let mut r = match session.auth {
        AuthMethod::Config => "ssh-config key authentication failed for ".to_owned(),
        _ => "public key authentication failed for ".to_owned(),
    };
    let target = full_target_text(session);
    let source = key_source_label(session);
    r.append(target.as_str());
    r.append(" using ");
    r.append(source.as_str());
    r.append(" (");
    r.append(algorithm);
    r.append(")");
    r
}

/// What is said where the server takes none of the user's usual keys.
pub fn default_keys_failure(session: &Session) -> (r: String)
    ensures
        r@ == default_keys_text(*session),
{
    let target = full_target_text(session);
    match session.auth {
        AuthMethod::Config => {
            let mut r = "ssh-config authentication failed for ".to_owned();
            r.append(target.as_str());
            r.append(" - no valid default key found");
            r
        },
        _ => {
            let mut r = "public key authentication failed for ".to_owned();
            r.append(target.as_str());
            r.append(" - no valid default key found in ~/.ssh/");
            r
        },
    }
}

/// What is said where the server did not accept the user.
pub fn rejection(session: &Session) -> (r: String)
    ensures
        r@ == rejection_text(*session),
{
    let target = full_target_text(session);
    match session.auth {
        AuthMethod::Password => {
            let mut r =
                "authentication failed: server rejected password authentication for ".to_owned();
            r.append(target.as_str());
            r
        },
        AuthMethod::Key => {
            let mut r =
                "authentication failed: server rejected public key authentication for ".to_owned();
            r.append(target.as_str());
            r.append(" using ");
            let source = key_source_label(session);
            r.append(source.as_str());
            r
        },
        AuthMethod::Config => {
            let mut r =
                "authentication failed: server rejected ssh-config authentication for ".to_owned();
            r.append(target.as_str());
            r
        },
    }
}

/// What is shown once the server accepted the user.
pub fn accepted_status(session: &Session) -> (r: String)
    ensures
        r@ == accepted_text(*session),
{
    let mut r = "authentication accepted, opening shell for ".to_owned();
    r.append(session.user.as_str());
    r.append("@");
    r.append(session.host.as_str());
    r
}

/// What came of a step of the authentication.
#[derive(Debug)]
pub enum AuthEvent {
    /// The server answered whether it takes the password.
    PasswordAnswer(bool),
    /// The session's key was loaded; `offers` says whether there is a form of it
    /// that can be offered.
    KeyLoaded { algorithm: String, offers: bool },
    /// The server answered to a form of the session's key; `another` says whether
    /// there is a further one.
    KeyAnswer { outcome: KeyOutcome, algorithm: String, another: bool },
    /// The usual keys were offered; one of them was taken or none.
    DefaultKeysAnswer(bool),
}

/// What has to be done in the authentication.
#[derive(Debug)]
pub enum AuthAction {
    /// Show this text, where there is one, and offer the first form of the key.
    OfferKey { shown: Option<String> },
    OfferNextKey,
    /// Give up with this error.
    Fail(String),
    /// End the connection, and give up with this error.
    Disconnect(String),
    /// Show this text, and open the shell.
    OpenShell { status: String },
}

/// The text that is shown before the session's key is offered.
pub open spec fn key_loaded_text(session: Session, algorithm: Seq<char>) -> Option<Seq<char>> {
    if session.auth == AuthMethod::Key {
        Some(
            "private key loaded from "@ + key_source(session) + ", algorithm "@ + algorithm
                + ", sending public key authentication for "@ + session.user@,
        )
    } else {
        None
    }
}

/// The error where the server takes no form of the session's key.
pub open spec fn explicit_key_text(session: Session, algorithm: Seq<char>) -> Seq<char> {
    (if session.auth == AuthMethod::Config {
        "ssh-config key authentication failed for "@
    } else {
        "public key authentication failed for "@
    }) + full_target(session) + " using "@ + key_source(session) + " ("@ + algorithm + ")"@
}

/// The error where the server takes none of the usual keys.
pub open spec fn default_keys_text(session: Session) -> Seq<char> {
    if session.auth == AuthMethod::Config {
        "ssh-config authentication failed for "@ + full_target(session)
            + " - no valid default key found"@
    } else {
        "public key authentication failed for "@ + full_target(session)
            + " - no valid default key found in ~/.ssh/"@
    }
}

/// The error where the server did not accept the user.
pub open spec fn rejection_text(session: Session) -> Seq<char> {
    match session.auth {
        AuthMethod::Password =>
            "authentication failed: server rejected password authentication for "@ + full_target(
            session,
        ),
        AuthMethod::Key =>
            "authentication failed: server rejected public key authentication for "@
            + full_target(session) + " using "@ + key_source(session),
        AuthMethod::Config =>
            "authentication failed: server rejected ssh-config authentication for "@
            + full_target(session),
    }
}

/// The text that is shown once the server accepted the user.
pub open spec fn accepted_text(session: Session) -> Seq<char> {
    "authentication accepted, opening shell for "@ + session.user@ + "@"@ + session.host@
}

/// Whether the action opens the shell.
pub open spec fn opens_shell(session: Session, action: AuthAction) -> bool {
    match action {
        AuthAction::OpenShell { status } => status@ == accepted_text(session),
        _ => false,
    }
}

/// Whether the action gives up with the given error.
pub open spec fn gives_up(action: AuthAction, words: Seq<char>) -> bool {
    match action {
        AuthAction::Fail(error) => error@ == words,
        _ => false,
    }
}

/// Whether the action is the one for the event.
pub open spec fn auth_answers(session: Session, event: AuthEvent, action: AuthAction) -> bool {
    match event {
        AuthEvent::PasswordAnswer(taken) => if taken {
            opens_shell(session, action)
        } else {
            match action {
                AuthAction::Disconnect(error) => error@ == rejection_text(session),
                _ => false,
            }
        },
        AuthEvent::KeyLoaded { algorithm, offers } => if offers {
            match action {
                AuthAction::OfferKey { shown } => crate::text::option_text(shown)
                    == key_loaded_text(session, algorithm@),
                _ => false,
            }
        } else {
            gives_up(action, explicit_key_text(session, algorithm@))
        },
        AuthEvent::KeyAnswer { outcome, algorithm, another } => if outcome
            == KeyOutcome::Accepted {
            opens_shell(session, action)
        } else if another {
            action == AuthAction::OfferNextKey
        } else {
            gives_up(action, explicit_key_text(session, algorithm@))
        },
        AuthEvent::DefaultKeysAnswer(taken) => if taken {
            opens_shell(session, action)
        } else {
            gives_up(action, default_keys_text(session))
        },
    }
}

/// What has to be done after a step of the authentication.
pub fn on_auth_event(session: &Session, event: AuthEvent) -> (r: AuthAction)
    ensures
        auth_answers(*session, event, r),
{
    match event {
        AuthEvent::PasswordAnswer(taken) => if taken {
            AuthAction::OpenShell { status: accepted_status(session) }
        } else {
            AuthAction::Disconnect(rejection(session))
        },
        AuthEvent::KeyLoaded { algorithm, offers } => if offers {
            AuthAction::OfferKey { shown: key_loaded_status(session, algorithm.as_str()) }
        } else {
            AuthAction::Fail(explicit_key_failure(session, algorithm.as_str()))
        },
        AuthEvent::KeyAnswer { outcome, algorithm, another } => if !offers_next_key(outcome) {
            AuthAction::OpenShell { status: accepted_status(session) }
        } else if another {
            AuthAction::OfferNextKey
        } else {
            AuthAction::Fail(explicit_key_failure(session, algorithm.as_str()))
        },
        AuthEvent::DefaultKeysAnswer(taken) => if taken {
            AuthAction::OpenShell { status: accepted_status(session) }
        } else {
            AuthAction::Fail(default_keys_failure(session))
        },
    }
}

/// The shell is opened only after the server took the password or a key.
pub proof fn only_an_accepted_user_gets_a_shell(
    session: Session,
    event: AuthEvent,
    action: AuthAction,
)
    requires
        auth_answers(session, event, action),
    ensures
        action is OpenShell <==> match event {
            AuthEvent::PasswordAnswer(taken) => taken,
            AuthEvent::KeyLoaded { .. } => false,
            AuthEvent::KeyAnswer { outcome, .. } => outcome == KeyOutcome::Accepted,
            AuthEvent::DefaultKeysAnswer(taken) => taken,
        },
{
}

/// A probe first runs its own script for Unix as it is, and once that failed its own
/// script for Windows, encoded for PowerShell.
pub proof fn each_probe_runs_its_own_scripts(probe: Probe, event: TaskEvent, action: TaskAction)
    requires
        task_action(RemoteTask::Ask(probe), event, action),
    ensures
        event is Asked <==> action is RunUnix,
        (event matches TaskEvent::UnixEnded(Err(_))) <==> action is RunWindows,
        action matches TaskAction::RunUnix { command, name } ==> match probe {
            Probe::System => command@ == REMOTE_SYSTEM_PROBE@ && name@
                == "Unix remote metrics probe"@,
            Probe::Processes => command@ == REMOTE_PROCESS_PROBE@ && name@
                == "Unix remote process probe"@,
            Probe::Ports => command@ == REMOTE_PORT_PROBE@ && name@ == "Unix remote port probe"@,
        },
        action matches TaskAction::RunWindows { command, name, unix_error } ==> match probe {
            Probe::System => command@ == powershell(REMOTE_WINDOWS_SYSTEM_PROBE@) && name@
                == "Windows remote metrics probe"@,
            Probe::Processes => command@ == powershell(REMOTE_WINDOWS_PROCESS_PROBE@) && name@
                == "Windows remote process probe"@,
            Probe::Ports => command@ == powershell(REMOTE_WINDOWS_PORT_PROBE@) && name@
                == "Windows remote port probe"@,
        },
{
    reveal_strlit("Unix");
    reveal_strlit("Windows");
    reveal_strlit(" remote metrics probe");
    reveal_strlit(" remote process probe");
    reveal_strlit(" remote port probe");
    reveal_strlit("Unix remote metrics probe");
    reveal_strlit("Unix remote process probe");
    reveal_strlit("Unix remote port probe");
    reveal_strlit("Windows remote metrics probe");
    reveal_strlit("Windows remote process probe");
    reveal_strlit("Windows remote port probe");
    assert("Unix"@ + " remote metrics probe"@ =~= "Unix remote metrics probe"@);
    assert("Unix"@ + " remote process probe"@ =~= "Unix remote process probe"@);
    assert("Unix"@ + " remote port probe"@ =~= "Unix remote port probe"@);
    assert("Windows"@ + " remote metrics probe"@ =~= "Windows remote metrics probe"@);
    assert("Windows"@ + " remote process probe"@ =~= "Windows remote process probe"@);
    assert("Windows"@ + " remote port probe"@ =~= "Windows remote port probe"@);
}

/// To end a process its own number is named, with the ordinary signal on Unix and in a
/// command for PowerShell on Windows; and what failed on both is told in that order.
pub proof fn the_process_named_is_the_one_ended(pid: u32, event: TaskEvent, action: TaskAction)
    requires
        pid > 1,
        task_action(RemoteTask::Terminate { pid }, event, action),
    ensures
        event is Asked <==> action is RunUnix,
        (event matches TaskEvent::UnixEnded(Err(_))) <==> action is RunWindows,
        action matches TaskAction::RunUnix { command, name } ==> command@ == "kill -TERM "@
            + decimal(pid as nat),
        action matches TaskAction::RunWindows { command, name, unix_error } ==> command@
            == powershell(
            "$ErrorActionPreference = 'Stop'; Stop-Process -Id "@ + decimal(pid as nat)
                + " -ErrorAction Stop"@,
        ),
        event matches TaskEvent::WindowsEnded { unix_error, outcome: Err(error) } ==> (
        action matches TaskAction::Fail(words) && words@ == "Unix termination failed first: "@
            + unix_error@ + ": "@ + error@),
{
}

proof fn lemma_low_first(c: char)
    requires
        c as int <= 0xffff,
    ensures
        low_first(c as int)[0] as int + 256 * low_first(c as int)[1] == c as int,
{
    assert(0 <= c as int / 256 <= 255);
}

/// In the encoding for PowerShell every character of 16 bits takes two bytes, the low
/// one first.
pub proof fn each_character_is_encoded_low_byte_first(s: Seq<char>)
    requires
        forall|i: int| 0 <= i < s.len() ==> (#[trigger] s[i]) as int <= 0xffff,
    ensures
        utf16_bytes(s).len() == 2 * s.len(),
        forall|i: int|
            0 <= i < s.len() ==> utf16_bytes(s)[2 * i] as int + 256 * utf16_bytes(s)[2 * i + 1]
                == (#[trigger] s[i]) as int,
    decreases s.len(),
{
    if s.len() > 0 {
        let init = s.drop_last();
        assert forall|i: int| 0 <= i < init.len() implies (#[trigger] init[i]) as int <= 0xffff by {
            assert(init[i] == s[i]);
        }
        each_character_is_encoded_low_byte_first(init);
        let n = s.len() - 1;
        assert(s[n] as int <= 0xffff);
        assert forall|i: int| 0 <= i < s.len() implies utf16_bytes(s)[2 * i] as int + 256
            * utf16_bytes(s)[2 * i + 1] == (#[trigger] s[i]) as int by {
            let b = utf16_bytes(init);
            if i < n {
                assert(init[i] == s[i]);
                assert(b[2 * i] as int + 256 * b[2 * i + 1] == init[i] as int);
                assert(utf16_bytes(s)[2 * i] == b[2 * i]);
                assert(utf16_bytes(s)[2 * i + 1] == b[2 * i + 1]);
            } else {
                assert(s[i] == s.last());
                assert(utf16_bytes(s)[2 * i] == low_first(s[i] as int)[0]);
                assert(utf16_bytes(s)[2 * i + 1] == low_first(s[i] as int)[1]);
                lemma_low_first(s[i]);
            }
        }
    }
}

/// A character beyond 16 bits takes four bytes: two units, of which the first holds its
/// upper ten bits and the second its lower ten, counted from 0x10000.
pub proof fn a_wide_character_is_encoded_as_two_units(s: Seq<char>, c: char)
    requires
        c as int > 0xffff,
    ensures
        ({
            let b = utf16_bytes(s.push(c));
            let n = utf16_bytes(s).len() as int;
            let high = b[n] as int + 256 * b[n + 1] - 0xd800;
            let low = b[n + 2] as int + 256 * b[n + 3] - 0xdc00;
            &&& b.len() == n + 4
            &&& b.take(n) == utf16_bytes(s)
            &&& 0 <= high < 0x400
            &&& 0 <= low < 0x400
            &&& c as int == 0x10000 + high * 0x400 + low
        }),
{
    assert(s.push(c).drop_last() =~= s);
    let b = utf16_bytes(s.push(c));
    assert(b.take(utf16_bytes(s).len() as int) =~= utf16_bytes(s));
    assert(c as int <= 0x10ffff);
}

/// The line by which an empty answer is told is the first one with something in it.
pub proof fn the_first_line_with_text_is_told(
    blank: Seq<Seq<char>>,
    line: Seq<char>,
    rest: Seq<Seq<char>>,
)
    requires
        forall|i: int| 0 <= i < blank.len() ==> trim(#[trigger] blank[i]).len() == 0,
    ensures
        first_line(blank) == "empty output"@,
        trim(line).len() > 0 ==> first_line(blank + seq![line] + rest) == trim(line),
    decreases blank.len(),
{
    let all = blank + seq![line] + rest;
    if blank.len() > 0 {
        assert forall|i: int| 0 <= i < blank.skip(1).len() implies trim(
            #[trigger] blank.skip(1)[i],
        ).len() == 0 by {
            assert(blank.skip(1)[i] == blank[i + 1]);
        }
        the_first_line_with_text_is_told(blank.skip(1), line, rest);
        assert(all[0] == blank[0]);
        assert(all.skip(1) =~= blank.skip(1) + seq![line] + rest);
    } else {
        assert(all[0] == line);
    }
}

/// A command did what it should exactly where it ended with status zero; of one that
/// failed its own words are told, then its status, and else that it had none.
pub proof fn a_failed_command_is_told_in_its_own_words(
    r: Result<String, String>,
    operation: Seq<char>,
    output: Seq<char>,
    exit_status: Option<u32>,
)
    requires
        outcome_is(r, operation, output, exit_status),
    ensures
        r is Ok <==> exit_status == Some(0u32),
        r matches Ok(text) ==> text@ == output,
        r matches Err(text) ==> text@ == operation + " failed: "@ + if output.len() > 0 {
            output
        } else if exit_status is Some {
            "exit status "@ + decimal(exit_status->Some_0 as nat)
        } else {
            "remote command closed without an exit status"@
        },
{
}

/// A session does at once what its terminal asks, with exactly what was typed or the size
/// that was given, and shows exactly what comes from the machine.
pub proof fn a_session_passes_on_what_it_gets(
    state: SshSession,
    event: SshEvent,
    action: SshAction,
)
    requires
        answers(state, event, action),
    ensures
        event matches SshEvent::Command(Some(BackendCommand::Input(bytes))) ==> (
        action matches SshAction::Write(sent) && sent == bytes),
        event matches SshEvent::Command(Some(BackendCommand::Resize { cols, rows })) ==> (
        action matches SshAction::WindowChange { cols: c, rows: r } && c == cols && r == rows),
        event matches SshEvent::Command(Some(BackendCommand::TerminateProcess { pid })) ==> (
        action matches SshAction::Terminate { pid: p } && p == pid),
        event matches SshEvent::Data(bytes) ==> (action matches SshAction::Output(shown) && shown
            == bytes),
        action matches SshAction::Write(sent) ==> (event matches SshEvent::Command(
            Some(BackendCommand::Input(bytes)),
        ) && sent == bytes),
        action matches SshAction::Output(shown) ==> (event matches SshEvent::Data(bytes) && shown
            == bytes),
        action is SampleMetrics <==> (event matches SshEvent::Command(
            Some(BackendCommand::SampleMetrics),
        )),
        action is SampleProcesses <==> (event matches SshEvent::Command(
            Some(BackendCommand::SampleProcesses),
        )),
        action is SamplePorts <==> (event matches SshEvent::Command(
            Some(BackendCommand::SamplePorts),
        )),
{
}

/// A session ends when the terminal closes or is gone, with a last word to the machine;
/// when writing fails; and when the machine closes or is gone, which counts as a loss
/// unless the machine said before that it was done. Nothing else ends it.
pub proof fn a_session_ends_for_a_reason(state: SshSession, event: SshEvent, action: SshAction)
    requires
        answers(state, event, action),
    ensures
        action is Leave <==> (event matches SshEvent::Command(None)) || (
        event matches SshEvent::Command(Some(BackendCommand::Close))) || event is WriteFailed
            || event is Close || event is StreamEnd,
        action matches SshAction::Leave { send_eof, reason } ==> {
            &&& send_eof <==> event is Command
            &&& event is Command ==> reason@ == "ssh session closed"@
            &&& ((event is Close || event is StreamEnd) && state.is_graceful_close) ==> reason@
                == "ssh session closed"@
            &&& (event is Close && !state.is_graceful_close) ==> reason@
                == "ssh connection lost (abrupt close)"@
            &&& (event is StreamEnd && !state.is_graceful_close) ==> reason@
                == "ssh connection lost (network drop)"@
            &&& event matches SshEvent::WriteFailed(error) ==> reason@ == "ssh write error: "@
                + error@
        },
{
}

/// The way to prove who the user is follows the session: with a password only where it is
/// to; else with the key that it names, and without one with the usual keys. The
/// passphrase goes along without the white space around it.
pub proof fn the_session_decides_how_to_authenticate(session: Session, step: AuthStep)
    requires
        auth_step(session, step),
    ensures
        step is Password <==> session.auth == AuthMethod::Password,
        (session.auth == AuthMethod::Key && trim(session.private_key_inline@).len() > 0)
            ==> step is ExplicitKey,
        (session.auth != AuthMethod::Password && trim(session.private_key_path@).len() > 0)
            ==> step is ExplicitKey,
        (session.auth == AuthMethod::Key && trim(session.private_key_path@).len() == 0 && trim(
            session.private_key_inline@,
        ).len() == 0) ==> step is DefaultKeys,
        (session.auth == AuthMethod::Config && trim(session.private_key_path@).len() == 0)
            ==> step is DefaultKeys,
        step matches AuthStep::DefaultKeys(Some(text)) ==> text@ == trim(session.passphrase@)
            && text@.len() > 0,
        step matches AuthStep::DefaultKeys(None) ==> trim(session.passphrase@).len() == 0,
{
}

/// A key of the SSH configuration is the file that the session names, and never one given
/// in full; a session's own key may be both.
pub proof fn the_keys_of_a_session_are_its_own(
    session: Session,
    home: Option<Seq<char>>,
    windows: bool,
)
    ensures
        session.auth == AuthMethod::Key ==> used_inline_key(session) == trim(
            session.private_key_inline@,
        ),
        session.auth != AuthMethod::Key ==> used_inline_key(session).len() == 0,
        trim(session.private_key_path@).len() == 0 ==> used_key_path(session, home, windows)
            is None,
        (trim(session.private_key_path@).len() > 0 && trim(session.private_key_path@)[0] != '~')
            ==> used_key_path(session, home, windows) == Some(trim(session.private_key_path@)),
{
    reveal_strlit("~");
    reveal_strlit("~/");
    let path = trim(session.private_key_path@);
    if path.len() > 0 && path[0] != '~' {
        assert("~"@[0] == '~');
        if crate::text::after_prefix(path, "~/"@) is Some {
            assert(path.subrange(0, 2)[0] == path[0]);
        }
    }
}

/// While keys are left they are offered one by one; where the last one is refused, the
/// attempt is given up, and with a password the connection is ended. What is told names
/// the user and the machine.
pub proof fn keys_are_offered_until_one_is_taken(
    session: Session,
    event: AuthEvent,
    action: AuthAction,
)
    requires
        auth_answers(session, event, action),
    ensures
        action is OfferNextKey <==> (event matches AuthEvent::KeyAnswer {
            outcome,
            algorithm,
            another,
        } && outcome != KeyOutcome::Accepted && another),
        action is OfferKey <==> (event matches AuthEvent::KeyLoaded { algorithm, offers }
            && offers),
        action is Disconnect <==> (event matches AuthEvent::PasswordAnswer(taken) && !taken),
        action matches AuthAction::OpenShell { status } ==> status@
            == "authentication accepted, opening shell for "@ + session.user@ + "@"@
            + session.host@,
        (action is Disconnect && session.auth == AuthMethod::Password) ==> (
        action matches AuthAction::Disconnect(error) && error@
            == "authentication failed: server rejected password authentication for "@ + (
        session.user@ + "@"@ + (session.host@ + ":"@ + decimal(session.port as nat)))),
        (event matches AuthEvent::DefaultKeysAnswer(taken) && !taken) ==> action is Fail,
{
}

/// Where a key comes from is told by its path, as a key given in full, or as both.
pub proof fn the_source_of_a_key_is_told(session: Session)
    ensures
        ({
            let path = trim(session.private_key_path@);
            let inline = trim(session.private_key_inline@).len() > 0;
            &&& path.len() > 0 && !inline ==> key_source(session) == path
            &&& path.len() > 0 && inline ==> key_source(session) == "inline key or "@ + path
            &&& path.len() == 0 && inline ==> key_source(session) == "inline key text"@
            &&& path.len() == 0 && !inline ==> key_source(session) == "unknown key source"@
        }),
{
}

/// What is told while a session authenticates fits the way it takes: about the password,
/// about the key that it names, or about the usual keys.
pub proof fn each_way_to_authenticate_is_told(session: Session)
    ensures
        ({
            let told = auth_statuses(session);
            let at = "connected to "@ + (session.host@ + ":"@ + decimal(session.port as nat));
            &&& session.auth == AuthMethod::Password ==> told == seq![
                at + ", sending password authentication for "@ + session.user@,
            ]
            &&& (session.auth == AuthMethod::Key && explicit_key(session)) ==> told == seq![
                at + ", loading private key from "@ + key_source(session),
            ]
            &&& (session.auth != AuthMethod::Password && !explicit_key(session)) ==> told.last()
                == at + ", trying default keys from ~/.ssh/ for "@ + session.user@
            &&& session.auth != AuthMethod::Config ==> told.len() == 1
            &&& (session.auth == AuthMethod::Config && trim(session.private_key_path@).len() > 0)
                ==> told == seq![at + ", loading private key from "@ + key_source(session)]
        }),
{
}

} // verus!
