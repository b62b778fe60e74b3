//! The rules of a bounded package-manager process.
//!
//! Spawning, reading and killing are done outside. What happened is handed in
//! as an event, and the answer says what to do next.

use vstd::prelude::*;

use crate::paths::FsPath;
use crate::text;

verus! {

/// How long one query may take, in milliseconds.
pub const NPM_PROCESS_TIMEOUT_MS: u64 = 5_000;

/// How much one query may print.
pub const MAX_NPM_PROCESS_OUTPUT_BYTES: usize = 65_536;

/// How long one installation at startup may take, in milliseconds.
pub const NPM_STARTUP_REMEDIATION_TIMEOUT_MS: u64 = 120_000;

/// How much one installation at startup may print.
pub const MAX_NPM_STARTUP_REMEDIATION_OUTPUT_BYTES: usize = 1_048_576;

/// Where a process runs.
pub enum NpmProcessCwd {
    /// Outside the caller's working tree, so that the configuration of a
    /// project that has not passed its trust gate is not consulted.
    Isolated,
    /// In a project directory that the caller has established trust in.
    Trusted(FsPath),
}

impl NpmProcessCwd {
    /// The place for an operation at startup: the project's directory where
    /// it is trusted.
    pub fn startup(trusted_project_cwd: Option<FsPath>) -> (r: NpmProcessCwd)
        ensures
            r == (match trusted_project_cwd {
                Some(path) => NpmProcessCwd::Trusted(path),
                None => NpmProcessCwd::Isolated,
            }),
    {
        match trusted_project_cwd {
            Some(path) => NpmProcessCwd::Trusted(path),
            None => NpmProcessCwd::Isolated,
        }
    }
}

/// Why a process gave no output.
pub enum NpmProcessError {
    Setup(String),
    Spawn(String),
    Read(String),
    Wait(String),
    Cancelled,
    TimedOut,
    OutputLimitExceeded { limit: usize },
}

/// The model of `NpmProcessError`.
pub enum ErrorModel {
    Setup(Seq<char>),
    Spawn(Seq<char>),
    Read(Seq<char>),
    Wait(Seq<char>),
    Cancelled,
    TimedOut,
    OutputLimitExceeded { limit: usize },
}

impl View for NpmProcessError {
    type V = ErrorModel;

    open spec fn view(&self) -> ErrorModel {
        match self {
            NpmProcessError::Setup(m) => ErrorModel::Setup(m@),
            NpmProcessError::Spawn(m) => ErrorModel::Spawn(m@),
            NpmProcessError::Read(m) => ErrorModel::Read(m@),
            NpmProcessError::Wait(m) => ErrorModel::Wait(m@),
            NpmProcessError::Cancelled => ErrorModel::Cancelled,
            NpmProcessError::TimedOut => ErrorModel::TimedOut,
            NpmProcessError::OutputLimitExceeded { limit } => ErrorModel::OutputLimitExceeded {
                limit: *limit,
            },
        }
    }
}

/// The text that an error is shown as.
pub open spec fn error_text(error: ErrorModel) -> Seq<char> {
    match error {
        ErrorModel::Setup(m) => "could not prepare npm process: "@ + m,
        ErrorModel::Spawn(m) => "could not start npm process: "@ + m,
        ErrorModel::Read(m) => "could not read npm process output: "@ + m,
        ErrorModel::Wait(m) => "could not wait for npm process: "@ + m,
        ErrorModel::Cancelled => "npm process was cancelled"@,
        ErrorModel::TimedOut => "npm process timed out"@,
        ErrorModel::OutputLimitExceeded { limit } => "npm process exceeded the "@
            + text::digits_of(limit as nat) + " byte output limit"@,
    }
}

impl NpmProcessError {
    /// The text that the error is shown as.
    pub fn message(&self) -> (out: String)
        ensures
            out@ == error_text(self@),
    {
        match self {
            NpmProcessError::Setup(m) => text::cat("could not prepare npm process: ", m.as_str()),
            NpmProcessError::Spawn(m) => text::cat("could not start npm process: ", m.as_str()),
            NpmProcessError::Read(m) => text::cat(
                "could not read npm process output: ",
                m.as_str(),
            ),
            NpmProcessError::Wait(m) => text::cat("could not wait for npm process: ", m.as_str()),
            NpmProcessError::Cancelled => "npm process was cancelled".to_owned(),
            NpmProcessError::TimedOut => "npm process timed out".to_owned(),
            NpmProcessError::OutputLimitExceeded { limit } => {
                let digits = text::number_text(*limit as u64);
                text::cat3("npm process exceeded the ", digits.as_str(), " byte output limit")
            },
        }
    }
}

/// What one process may use.
#[derive(Debug, Clone, Copy, PartialEq, Eq, Structural)]
pub struct NpmProcessLimits {
    pub timeout_ms: u64,
    pub max_output_bytes: usize,
}

impl Default for NpmProcessLimits {
    /// The limits of one query.
    fn default() -> (r: NpmProcessLimits)
        ensures
            r.timeout_ms == NPM_PROCESS_TIMEOUT_MS,
            r.max_output_bytes == MAX_NPM_PROCESS_OUTPUT_BYTES,
    {
        NpmProcessLimits {
            timeout_ms: NPM_PROCESS_TIMEOUT_MS,
            max_output_bytes: MAX_NPM_PROCESS_OUTPUT_BYTES,
        }
    }
}

impl NpmProcessLimits {
    /// The limits of one installation at startup.
    pub fn startup_remediation() -> (r: NpmProcessLimits)
        ensures
            r.timeout_ms == NPM_STARTUP_REMEDIATION_TIMEOUT_MS,
            r.max_output_bytes == MAX_NPM_STARTUP_REMEDIATION_OUTPUT_BYTES,
    {
        NpmProcessLimits {
            timeout_ms: NPM_STARTUP_REMEDIATION_TIMEOUT_MS,
            max_output_bytes: MAX_NPM_STARTUP_REMEDIATION_OUTPUT_BYTES,
        }
    }
}

/// How many more bytes fit, where two streams hold `used` bytes together.
pub open spec fn room(used: nat, max: nat) -> nat {
    if used <= max {
        (max - used) as nat
    } else {
        0
    }
}

/// As much of `bytes` as fits in `space`.
pub open spec fn accepted(bytes: Seq<u8>, space: nat) -> Seq<u8> {
    if bytes.len() <= space {
        bytes
    } else {
        bytes.take(space as int)
    }
}

/// Appends to one stream what fits in the budget that it shares with the
/// other, and says whether all of it did.
pub fn append_bounded(
    destination: &mut Vec<u8>,
    bytes: &[u8],
    other_stream_len: usize,
    max_output_bytes: usize,
) -> (all: bool)
    ensures
        final(destination)@ == old(destination)@ + accepted(
            bytes@,
            room(old(destination)@.len() + other_stream_len as nat, max_output_bytes as nat),
        ),
        all == (bytes@.len() <= room(
            old(destination)@.len() + other_stream_len as nat,
            max_output_bytes as nat,
        )),
{
    let size: usize = destination.len();
    let space: usize = if size <= max_output_bytes && other_stream_len <= max_output_bytes - size {
        max_output_bytes - size - other_stream_len
    } else {
        0
    };
    let count: usize = if bytes.len() <= space {
        bytes.len()
    } else {
        space
    };
    let mut i: usize = 0;
    while i < count
        invariant
            i <= count <= bytes@.len(),
            destination@ =~= old(destination)@ + bytes@.take(i as int),
        decreases count - i,
    {
        destination.push(bytes[i]);
        i += 1;
    }
    assert(bytes@.take(bytes@.len() as int) =~= bytes@);
    count == bytes.len()
}

/// What happened to a running process, in the order in which the loop looks:
/// cancellation, exit, the deadline, the two streams.
pub enum ProcessEvent {
    Cancelled,
    Exited,
    WaitFailed(String),
    DeadlinePassed,
    /// Bytes of the output stream; none at its end.
    Stdout(Vec<u8>),
    /// Bytes of the error stream; none at its end.
    Stderr(Vec<u8>),
    ReadFailed(String),
    /// Nothing happened for one poll interval.
    Idle,
}

/// What to do next.
pub enum ProcessAction {
    /// Look again.
    Continue,
    /// Reap the process; its output is complete.
    Finish,
    /// Kill the process and all it started, then report the error.
    Terminate(NpmProcessError),
}

/// The model of `ProcessAction`.
pub enum ActionModel {
    Continue,
    Finish,
    Terminate(ErrorModel),
}

impl View for ProcessAction {
    type V = ActionModel;

    open spec fn view(&self) -> ActionModel {
        match self {
            ProcessAction::Continue => ActionModel::Continue,
            ProcessAction::Finish => ActionModel::Finish,
            ProcessAction::Terminate(e) => ActionModel::Terminate(e@),
        }
    }
}

/// A running process, as far as the rules know it.
pub struct BoundedProcess {
    pub limits: NpmProcessLimits,
    pub stdout: Vec<u8>,
    pub stderr: Vec<u8>,
    pub stdout_done: bool,
    pub stderr_done: bool,
    pub exited: bool,
}

/// The model of `BoundedProcess`.
#[verifier::ext_equal]
pub struct ProcessModel {
    pub limits: NpmProcessLimits,
    pub stdout: Seq<u8>,
    pub stderr: Seq<u8>,
    pub stdout_done: bool,
    pub stderr_done: bool,
    pub exited: bool,
}

impl View for BoundedProcess {
    type V = ProcessModel;

    open spec fn view(&self) -> ProcessModel {
        ProcessModel {
            limits: self.limits,
            stdout: self.stdout@,
            stderr: self.stderr@,
            stdout_done: self.stdout_done,
            stderr_done: self.stderr_done,
            exited: self.exited,
        }
    }
}

/// Whether the captured output is within its budget.
pub open spec fn in_budget(p: ProcessModel) -> bool {
    p.stdout.len() + p.stderr.len() <= p.limits.max_output_bytes
}

/// What is done where nothing is wrong: a process that has exited and whose
/// streams have ended is finished.
pub open spec fn settled(p: ProcessModel) -> ActionModel {
    if p.exited && p.stdout_done && p.stderr_done {
        ActionModel::Finish
    } else {
        ActionModel::Continue
    }
}

/// One step: the state after an event, and what to do.
pub open spec fn step_of(p: ProcessModel, event: ProcessEvent) -> (ProcessModel, ActionModel) {
    let space = room(p.stdout.len() + p.stderr.len(), p.limits.max_output_bytes as nat);
    let exceeded = ActionModel::Terminate(
        ErrorModel::OutputLimitExceeded { limit: p.limits.max_output_bytes },
    );
    match event {
        ProcessEvent::Cancelled => (p, ActionModel::Terminate(ErrorModel::Cancelled)),
        ProcessEvent::Exited => {
            let next = ProcessModel { exited: true, ..p };
            (next, settled(next))
        },
        ProcessEvent::WaitFailed(m) => (p, ActionModel::Terminate(ErrorModel::Wait(m@))),
        ProcessEvent::DeadlinePassed => (p, ActionModel::Terminate(ErrorModel::TimedOut)),
        ProcessEvent::ReadFailed(m) => (p, ActionModel::Terminate(ErrorModel::Read(m@))),
        ProcessEvent::Idle => (p, settled(p)),
        ProcessEvent::Stdout(bytes) => {
            let next = ProcessModel {
                stdout: p.stdout + accepted(bytes@, space),
                stdout_done: p.stdout_done || bytes@.len() == 0,
                ..p
            };
            if bytes@.len() > space {
                (next, exceeded)
            } else {
                (next, settled(next))
            }
        },
        ProcessEvent::Stderr(bytes) => {
            let next = ProcessModel {
                stderr: p.stderr + accepted(bytes@, space),
                stderr_done: p.stderr_done || bytes@.len() == 0,
                ..p
            };
            if bytes@.len() > space {
                (next, exceeded)
            } else {
                (next, settled(next))
            }
        },
    }
}

impl BoundedProcess {
    /// A process that has just started.
    pub fn start(limits: NpmProcessLimits) -> (p: BoundedProcess)
        ensures
            p@ == (ProcessModel {
                limits,
                stdout: seq![],
                stderr: seq![],
                stdout_done: false,
                stderr_done: false,
                exited: false,
            }),
            in_budget(p@),
    {
        let p = BoundedProcess {
            limits,
            stdout: Vec::new(),
            stderr: Vec::new(),
            stdout_done: false,
            stderr_done: false,
            exited: false,
        };
        assert(p@.stdout =~= seq![] && p@.stderr =~= seq![]);
        p
    }

    fn settle(&self) -> (action: ProcessAction)
        ensures
            action@ == settled(self@),
    {
        if self.exited && self.stdout_done && self.stderr_done {
            ProcessAction::Finish
        } else {
            ProcessAction::Continue
        }
    }

    /// Takes in what happened, and says what to do. The output that is kept
    /// never exceeds the budget, whatever is read.
    pub fn step(&mut self, event: ProcessEvent) -> (action: ProcessAction)
        ensures
            (final(self)@, action@) == step_of(old(self)@, event),
            in_budget(old(self)@) ==> in_budget(final(self)@),
    {
        match event {
            ProcessEvent::Cancelled => ProcessAction::Terminate(NpmProcessError::Cancelled),
            ProcessEvent::Exited => {
                self.exited = true;
                self.settle()
            },
            ProcessEvent::WaitFailed(m) => ProcessAction::Terminate(NpmProcessError::Wait(m)),
            ProcessEvent::DeadlinePassed => ProcessAction::Terminate(NpmProcessError::TimedOut),
            ProcessEvent::ReadFailed(m) => ProcessAction::Terminate(NpmProcessError::Read(m)),
            ProcessEvent::Idle => self.settle(),
            ProcessEvent::Stdout(bytes) => {
                if bytes.len() == 0 {
                    self.stdout_done = true;
                    assert(self@.stdout =~= old(self)@.stdout + bytes@);
                    return self.settle();
                }
                let other = self.stderr.len();
                let max = self.limits.max_output_bytes;
                let all = append_bounded(&mut self.stdout, bytes.as_slice(), other, max);
                if all {
                    self.settle()
                } else {
                    ProcessAction::Terminate(NpmProcessError::OutputLimitExceeded { limit: max })
                }
            },
            ProcessEvent::Stderr(bytes) => {
                if bytes.len() == 0 {
                    self.stderr_done = true;
                    assert(self@.stderr =~= old(self)@.stderr + bytes@);
                    return self.settle();
                }
                let other = self.stdout.len();
                let max = self.limits.max_output_bytes;
                let all = append_bounded(&mut self.stderr, bytes.as_slice(), other, max);
                if all {
                    self.settle()
                } else {
                    ProcessAction::Terminate(NpmProcessError::OutputLimitExceeded { limit: max })
                }
            },
        }
    }
}

/// The directory that a process may start in: a trusted one must be there
/// and be a directory.
pub fn trusted_directory(path: &FsPath, metadata: Result<bool, String>) -> (r: Result<
    (),
    NpmProcessError,
>)
    ensures
        match (metadata, r) {
            (Ok(true), Ok(_)) => true,
            (Ok(false), Err(e)) => e@ == ErrorModel::Setup(
                "trusted npm cwd is not a directory: "@ + crate::paths::path_text(path@),
            ),
            (Err(m), Err(e)) => e@ == ErrorModel::Setup(m@),
            _ => false,
        },
{
    match metadata {
        Ok(true) => Ok(()),
        Ok(false) => {
            let shown = path.to_text();
            Err(
                NpmProcessError::Setup(
                    text::cat("trusted npm cwd is not a directory: ", shown.as_str()),
                ),
            )
        },
        Err(m) => Err(NpmProcessError::Setup(m)),
    }
}

/// A process whose output stays within its budget is never stopped for its
/// output, and one that is stopped for it printed more than the budget.
pub proof fn lemma_limit_is_exact(p: ProcessModel, event: ProcessEvent)
    requires
        in_budget(p),
    ensures
        step_of(p, event).1 == ActionModel::Terminate(
            ErrorModel::OutputLimitExceeded { limit: p.limits.max_output_bytes },
        ) <==> match event {
            ProcessEvent::Stdout(b) => p.stdout.len() + p.stderr.len() + b@.len()
                > p.limits.max_output_bytes,
            ProcessEvent::Stderr(b) => p.stdout.len() + p.stderr.len() + b@.len()
                > p.limits.max_output_bytes,
            _ => false,
        },
        in_budget(step_of(p, event).0),
{
}

/// A process is finished only once it has exited and both of its streams
/// have ended.
pub proof fn lemma_finish_is_complete(p: ProcessModel, event: ProcessEvent)
    ensures
        step_of(p, event).1 == ActionModel::Finish ==> step_of(p, event).0.exited && step_of(
            p,
            event,
        ).0.stdout_done && step_of(p, event).0.stderr_done,
{
}

} // verus!
