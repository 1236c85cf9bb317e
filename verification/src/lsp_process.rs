//! Plain-value decisions of the language-server process supervisor: its
//! identities, failures, configuration checks and stop reasons.
use crate::text::{decimal, usize_to_decimal};
use vstd::prelude::*;
use vstd::string::StringExecFns;

verus! {

/// Bound on the bytes of an executable or working-directory path.
pub const MAX_PATH_BYTES: usize = 4096;

/// Bound on the arguments of the server.
pub const MAX_ARGUMENTS: usize = 64;

/// Bound on the bytes of one argument.
pub const MAX_ARGUMENT_BYTES: usize = 4096;

/// Bound on the bytes of the whole configuration.
pub const MAX_CONFIGURATION_BYTES: usize = 65536;

/// Bound on the bytes of one message to the server.
pub const MAX_MESSAGE_BYTES: usize = 16777216;

/// Bound on the payload bytes retained in flight.
pub const MAX_RETAINED_PAYLOAD_BYTES: usize = 16777216;

/// Inputs queued to the server at once.
pub const INPUT_CAPACITY: usize = 4;

#[verifier::external_type_specification]
#[verifier::external_body]
pub struct ExErrorKind(std::io::ErrorKind);

/// Which workspace revision and start a process belongs to; both parts are
/// non-zero.
#[derive(Clone, Copy, Debug, Eq, PartialEq, Structural)]
pub struct ProcessIdentity {
    pub workspace_revision: u64,
    pub generation: u64,
}

impl ProcessIdentity {
    /// The identity of the given revision and generation; none when either
    /// is zero.
    pub fn new(workspace_revision: u64, generation: u64) -> (r: Option<ProcessIdentity>)
        ensures
            (workspace_revision == 0 || generation == 0) ==> r is None,
            !(workspace_revision == 0 || generation == 0) ==> r == Some(
                ProcessIdentity { workspace_revision, generation },
            ),
    {
        if workspace_revision == 0 || generation == 0 {
            return None;
        }
        Some(ProcessIdentity { workspace_revision, generation })
    }
}

/// Which output stream a chunk came from.
#[derive(Clone, Copy, Debug, Eq, PartialEq, Structural)]
pub enum ProcessStream {
    Stdout,
    Stderr,
}

/// Why the supervisor stopped a process.
#[derive(Clone, Copy, Debug, Eq, PartialEq, Structural)]
pub enum StopReason {
    Restart,
    OutputOverflow,
    EventOverflow,
}

/// Where in the process's life an operation failed.
#[derive(Clone, Copy, Debug, Eq, PartialEq, Structural)]
pub enum ProcessStage {
    SpawnChild,
    SpawnInput,
    SpawnStdout,
    SpawnStderr,
    Input,
    Output,
    Wait,
    ThreadJoin,
}

/// The name of a stage, as `Debug` writes it.
pub open spec fn stage_name(s: ProcessStage) -> Seq<char> {
    match s {
        ProcessStage::SpawnChild => "SpawnChild"@,
        ProcessStage::SpawnInput => "SpawnInput"@,
        ProcessStage::SpawnStdout => "SpawnStdout"@,
        ProcessStage::SpawnStderr => "SpawnStderr"@,
        ProcessStage::Input => "Input"@,
        ProcessStage::Output => "Output"@,
        ProcessStage::Wait => "Wait"@,
        ProcessStage::ThreadJoin => "ThreadJoin"@,
    }
}

impl ProcessStage {
    /// The name, as `Debug` writes it.
    pub fn name(self) -> (n: &'static str)
        ensures
            n@ == stage_name(self),
    {
        match self {
            ProcessStage::SpawnChild => "SpawnChild",
            ProcessStage::SpawnInput => "SpawnInput",
            ProcessStage::SpawnStdout => "SpawnStdout",
            ProcessStage::SpawnStderr => "SpawnStderr",
            ProcessStage::Input => "Input",
            ProcessStage::Output => "Output",
            ProcessStage::Wait => "Wait",
            ProcessStage::ThreadJoin => "ThreadJoin",
        }
    }
}

/// What kind of failure a process operation met.
#[derive(Clone, Copy, Debug, Eq, PartialEq)]
pub enum FailureKind {
    Io(std::io::ErrorKind),
    RetainedBudget,
    QueueSaturated,
    ThreadPanicked,
}

/// A failed process operation.
#[derive(Clone, Copy, Debug, Eq, PartialEq)]
pub struct ProcessFailure {
    pub stage: ProcessStage,
    pub kind: FailureKind,
    pub raw_os_error: Option<i32>,
}

impl ProcessFailure {
    /// The failure of a payload over the retained budget at `stage`.
    pub fn retained(stage: ProcessStage) -> (f: ProcessFailure)
        ensures
            f.stage == stage,
            f.kind == FailureKind::RetainedBudget,
            f.raw_os_error is None,
    {
        ProcessFailure { stage, kind: FailureKind::RetainedBudget, raw_os_error: None }
    }

    /// The failure of a full queue at `stage`.
    pub fn saturated(stage: ProcessStage) -> (f: ProcessFailure)
        ensures
            f.stage == stage,
            f.kind == FailureKind::QueueSaturated,
            f.raw_os_error is None,
    {
        ProcessFailure { stage, kind: FailureKind::QueueSaturated, raw_os_error: None }
    }

    /// The failure of a helper thread that panicked.
    pub fn panicked() -> (f: ProcessFailure)
        ensures
            f.stage == ProcessStage::ThreadJoin,
            f.kind == FailureKind::ThreadPanicked,
            f.raw_os_error is None,
    {
        ProcessFailure { stage: ProcessStage::ThreadJoin, kind: FailureKind::ThreadPanicked, raw_os_error: None }
    }
}

/// What `Debug` writes for an `io::ErrorKind`: a function of the kind alone.
pub uninterp spec fn error_kind_debug(kind: std::io::ErrorKind) -> Seq<char>;

/// `format!("{:?}")` of an `io::ErrorKind`: its text is named by
/// `error_kind_debug`, not spelled out.
#[verifier::external_body]
fn error_kind_text(kind: std::io::ErrorKind) -> (s: String)
    ensures
        s@ == error_kind_debug(kind),
{
    format!("{kind:?}")
}

/// The decimal text of a signed integer, as `Display` writes it.
pub open spec fn signed_decimal(x: int) -> Seq<char> {
    if x < 0 {
        "-"@ + decimal((-x) as nat)
    } else {
        decimal(x as nat)
    }
}

/// `x` written in decimal, with a sign when negative.
pub fn i32_to_decimal(x: i32) -> (s: String)
    ensures
        s@ == signed_decimal(x as int),
{
    if x < 0 {
        let magnitude = (-(x as i64)) as usize;
        let mut s = String::from_str("-");
        s.append(usize_to_decimal(magnitude).as_str());
        s
    } else {
        usize_to_decimal(x as usize)
    }
}

/// The text of a failure kind, as `Debug` writes it.
pub open spec fn failure_kind_text(kind: FailureKind) -> Seq<char> {
    match kind {
        FailureKind::Io(k) => "Io("@ + error_kind_debug(k) + ")"@,
        FailureKind::RetainedBudget => "RetainedBudget"@,
        FailureKind::QueueSaturated => "QueueSaturated"@,
        FailureKind::ThreadPanicked => "ThreadPanicked"@,
    }
}

fn failure_kind_string(kind: FailureKind) -> (s: String)
    ensures
        s@ == failure_kind_text(kind),
{
    match kind {
        FailureKind::Io(k) => {
            let t = error_kind_text(k);
            let mut s = String::from_str("Io(");
            s.append(t.as_str());
            s.append(")");
            assert(s@ == failure_kind_text(kind));
            s
        },
        FailureKind::RetainedBudget => {
            let s = String::from_str("RetainedBudget");
            assert(s@ == failure_kind_text(kind));
            s
        },
        FailureKind::QueueSaturated => {
            let s = String::from_str("QueueSaturated");
            assert(s@ == failure_kind_text(kind));
            s
        },
        FailureKind::ThreadPanicked => {
            let s = String::from_str("ThreadPanicked");
            assert(s@ == failure_kind_text(kind));
            s
        },
    }
}

/// The text of a failure, as `Debug` writes it.
pub open spec fn failure_debug(f: ProcessFailure) -> Seq<char> {
    "ProcessFailure { stage: "@ + stage_name(f.stage) + ", kind: "@ + failure_kind_text(f.kind)
        + ", raw_os_error: "@ + match f.raw_os_error {
        Some(code) => "Some("@ + signed_decimal(code as int) + ")"@,
        None => "None"@,
    } + " }"@
}

impl ProcessFailure {
    /// A human-readable description naming the stage and the kind.
    pub fn message(&self) -> (m: String)
        ensures
            m@ == "language-server process failed at "@ + stage_name(self.stage) + ": "@ + failure_kind_text(
                self.kind,
            ),
    {
        let mut m = String::from_str("language-server process failed at ");
        m.append(self.stage.name());
        m.append(": ");
        let kind = failure_kind_string(self.kind);
        m.append(kind.as_str());
        m
    }

    /// The failure as `Debug` writes it.
    pub fn debug_text(&self) -> (m: String)
        ensures
            m@ == failure_debug(*self),
    {
        let mut m = String::from_str("ProcessFailure { stage: ");
        m.append(self.stage.name());
        m.append(", kind: ");
        let kind = failure_kind_string(self.kind);
        m.append(kind.as_str());
        m.append(", raw_os_error: ");
        match self.raw_os_error {
            Some(code) => {
                m.append("Some(");
                m.append(i32_to_decimal(code).as_str());
                m.append(")");
            },
            None => m.append("None"),
        }
        m.append(" }");
        proof {
            assert(m@ =~= failure_debug(*self));
        }
        m
    }
}

/// Why the server's configuration was refused.
#[derive(Clone, Copy, Debug, Eq, PartialEq, Structural)]
pub enum ConfigError {
    MissingExecutable,
    ExecutableNotFile,
    PathTooLong,
    WorkingDirectoryNotDirectory,
    TooManyArguments,
    ArgumentTooLong,
    ConfigurationTooLarge,
    ContainsNul,
}

/// The text of a configuration error.
pub open spec fn config_error_message(e: ConfigError) -> Seq<char> {
    match e {
        ConfigError::MissingExecutable => "language-server executable is missing"@,
        ConfigError::ExecutableNotFile => "language-server executable is not a regular file"@,
        ConfigError::PathTooLong => "language-server path is too long"@,
        ConfigError::WorkingDirectoryNotDirectory => "language-server working directory is not a directory"@,
        ConfigError::TooManyArguments => "language-server has too many arguments"@,
        ConfigError::ArgumentTooLong => "language-server argument is too long"@,
        ConfigError::ConfigurationTooLarge => "language-server configuration is too large"@,
        ConfigError::ContainsNul => "language-server configuration contains NUL"@,
    }
}

impl ConfigError {
    /// A human-readable description.
    pub fn message(&self) -> (m: String)
        ensures
            m@ == config_error_message(*self),
    {
        match self {
            ConfigError::MissingExecutable => String::from_str("language-server executable is missing"),
            ConfigError::ExecutableNotFile => String::from_str("language-server executable is not a regular file"),
            ConfigError::PathTooLong => String::from_str("language-server path is too long"),
            ConfigError::WorkingDirectoryNotDirectory => String::from_str(
                "language-server working directory is not a directory",
            ),
            ConfigError::TooManyArguments => String::from_str("language-server has too many arguments"),
            ConfigError::ArgumentTooLong => String::from_str("language-server argument is too long"),
            ConfigError::ConfigurationTooLarge => String::from_str("language-server configuration is too large"),
            ConfigError::ContainsNul => String::from_str("language-server configuration contains NUL"),
        }
    }
}

/// Whether `bytes` holds a NUL byte.
pub open spec fn has_nul(bytes: Seq<u8>) -> bool {
    exists|i: int| 0 <= i < bytes.len() && bytes[i] == 0
}

/// Refuses encoded OS text that holds a NUL byte.
pub fn reject_nul(bytes: &[u8]) -> (r: Result<(), ConfigError>)
    ensures
        r is Ok <==> !has_nul(bytes@),
        r matches Err(e) ==> e == ConfigError::ContainsNul,
{
    let mut i: usize = 0;
    while i < bytes.len()
        invariant
            i <= bytes@.len(),
            forall|j: int| 0 <= j < i ==> bytes@[j] != 0,
        decreases bytes@.len() - i,
    {
        if bytes[i] == 0 {
            return Err(ConfigError::ContainsNul);
        }
        i += 1;
    }
    Ok(())
}

/// Checks the encoded bytes of a canonical path: no NUL and within the
/// path bound.
pub fn validate_path(bytes: &[u8]) -> (r: Result<(), ConfigError>)
    ensures
        has_nul(bytes@) ==> r == Err::<(), ConfigError>(ConfigError::ContainsNul),
        !has_nul(bytes@) && bytes@.len() > MAX_PATH_BYTES ==> r == Err::<(), ConfigError>(
            ConfigError::PathTooLong,
        ),
        !has_nul(bytes@) && bytes@.len() <= MAX_PATH_BYTES ==> r is Ok,
{
    reject_nul(bytes)?;
    if bytes.len() > MAX_PATH_BYTES {
        return Err(ConfigError::PathTooLong);
    }
    Ok(())
}

/// The bytes a configuration retains once `arguments[..i]` are admitted,
/// or the refusal of the first that is not admitted.
pub open spec fn arguments_outcome(arguments: Seq<Vec<u8>>, i: int, retained: int) -> Result<int, ConfigError>
    decreases arguments.len() - i,
{
    if i < 0 || i >= arguments.len() {
        Ok(retained)
    } else if i >= MAX_ARGUMENTS {
        Err(ConfigError::TooManyArguments)
    } else if has_nul(arguments[i]@) {
        Err(ConfigError::ContainsNul)
    } else if arguments[i]@.len() > MAX_ARGUMENT_BYTES {
        Err(ConfigError::ArgumentTooLong)
    } else if retained + arguments[i]@.len() > usize::MAX {
        Err(ConfigError::ConfigurationTooLarge)
    } else {
        arguments_outcome(arguments, i + 1, retained + arguments[i]@.len())
    }
}

/// The bytes a configuration retains: its paths' and arguments' encoded
/// bytes, refused past the argument, argument-size, NUL and total bounds.
pub open spec fn configuration_outcome(path_bytes: usize, arguments: Seq<Vec<u8>>) -> Result<usize, ConfigError> {
    match arguments_outcome(arguments, 0, path_bytes as int) {
        Err(e) => Err(e),
        Ok(total) => if total > MAX_CONFIGURATION_BYTES {
            Err(ConfigError::ConfigurationTooLarge)
        } else {
            Ok(total as usize)
        },
    }
}

/// Checks the encoded arguments of a server configuration whose paths take
/// `path_bytes`, returning the bytes the configuration retains.
pub fn validate_configuration(path_bytes: usize, arguments: &Vec<Vec<u8>>) -> (r: Result<usize, ConfigError>)
    ensures
        r == configuration_outcome(path_bytes, arguments@),
{
    let mut retained = path_bytes;
    let mut i: usize = 0;
    while i < arguments.len()
        invariant
            i <= arguments@.len(),
            i <= MAX_ARGUMENTS,
            arguments_outcome(arguments@, 0, path_bytes as int) == arguments_outcome(
                arguments@,
                i as int,
                retained as int,
            ),
            configuration_outcome(path_bytes, arguments@) == match arguments_outcome(
                arguments@,
                0,
                path_bytes as int,
            ) {
                Err(e) => Err(e),
                Ok(total) => if total > MAX_CONFIGURATION_BYTES {
                    Err(ConfigError::ConfigurationTooLarge)
                } else {
                    Ok(total as usize)
                },
            },
        decreases arguments@.len() - i,
    {
        if i == MAX_ARGUMENTS {
            return Err(ConfigError::TooManyArguments);
        }
        let argument = arguments[i].as_slice();
        reject_nul(argument)?;
        let bytes = argument.len();
        if bytes > MAX_ARGUMENT_BYTES {
            return Err(ConfigError::ArgumentTooLong);
        }
        if retained > usize::MAX - bytes {
            return Err(ConfigError::ConfigurationTooLarge);
        }
        retained = retained + bytes;
        i += 1;
    }
    if retained > MAX_CONFIGURATION_BYTES {
        return Err(ConfigError::ConfigurationTooLarge);
    }
    Ok(retained)
}

/// Why a submission to the process was refused.
#[derive(Clone, Copy, Debug, Eq, PartialEq, Structural)]
pub enum SubmitError {
    MessageTooLarge,
    RetainedBudget,
    Saturated,
    Closed,
    SequenceExhausted,
    EpochExhausted,
    StaleRestart,
}

/// The name of a submission error, as `Debug` writes it.
pub open spec fn submit_error_name(e: SubmitError) -> Seq<char> {
    match e {
        SubmitError::MessageTooLarge => "MessageTooLarge"@,
        SubmitError::RetainedBudget => "RetainedBudget"@,
        SubmitError::Saturated => "Saturated"@,
        SubmitError::Closed => "Closed"@,
        SubmitError::SequenceExhausted => "SequenceExhausted"@,
        SubmitError::EpochExhausted => "EpochExhausted"@,
        SubmitError::StaleRestart => "StaleRestart"@,
    }
}

impl SubmitError {
    /// The name, as `Debug` writes it.
    pub fn name(self) -> (n: &'static str)
        ensures
            n@ == submit_error_name(self),
    {
        match self {
            SubmitError::MessageTooLarge => "MessageTooLarge",
            SubmitError::RetainedBudget => "RetainedBudget",
            SubmitError::Saturated => "Saturated",
            SubmitError::Closed => "Closed",
            SubmitError::SequenceExhausted => "SequenceExhausted",
            SubmitError::EpochExhausted => "EpochExhausted",
            SubmitError::StaleRestart => "StaleRestart",
        }
    }

    /// A human-readable description that names the variant.
    pub fn message(self) -> (m: String)
        ensures
            m@ == "language-server submission failed: "@ + submit_error_name(self),
    {
        let mut m = String::from_str("language-server submission failed: ");
        m.append(self.name());
        m
    }
}

/// The supervisor thread is gone.
#[derive(Clone, Copy, Debug, Eq, PartialEq, Structural)]
pub struct SupervisorStopped;

impl SupervisorStopped {
    /// A human-readable description.
    pub fn message(self) -> (m: String)
        ensures
            m@ == "language-server supervisor stopped"@,
    {
        String::from_str("language-server supervisor stopped")
    }
}

/// What a wait on the child decided.
#[derive(Clone, Copy, Debug, Eq, PartialEq, Structural)]
pub enum WaitDecision {
    Running,
    Exited,
    Terminate,
}

/// The stop reason to keep: the latest one, else the current one.
pub fn merge_stop_reason(current: Option<StopReason>, latest: Option<StopReason>) -> (r: Option<StopReason>)
    ensures
        r == (if latest is Some {
            latest
        } else {
            current
        }),
{
    match latest {
        Some(reason) => Some(reason),
        None => current,
    }
}

/// Whether a wait ended the child, and the stop it calls for.
pub fn interpret_wait(decision: WaitDecision) -> (r: (bool, Option<StopReason>))
    ensures
        r == (match decision {
            WaitDecision::Running => (false, None),
            WaitDecision::Exited => (true, None),
            WaitDecision::Terminate => (false, Some(StopReason::OutputOverflow)),
        }),
{
    match decision {
        WaitDecision::Running => (false, None),
        WaitDecision::Exited => (true, None),
        WaitDecision::Terminate => (false, Some(StopReason::OutputOverflow)),
    }
}

/// Events the supervisor holds for the client at once.
pub const EVENT_CAPACITY: usize = 16;

/// Event slots kept free for the events that end a process.
pub const TERMINAL_EVENT_RESERVE: usize = 2;

/// The sequence number a message of `len` bytes gets after input
/// `last_sequence`, or why it is refused: too large, sequence numbers
/// exhausted, or the supervisor gone.
pub fn admit_submission(len: usize, last_sequence: u64, open: bool) -> (r: Result<u64, SubmitError>)
    ensures
        r == if len > MAX_MESSAGE_BYTES {
            Err(SubmitError::MessageTooLarge)
        } else if last_sequence == u64::MAX {
            Err(SubmitError::SequenceExhausted)
        } else if !open {
            Err(SubmitError::Closed)
        } else {
            Ok::<u64, SubmitError>((last_sequence + 1) as u64)
        },
{
    if len > MAX_MESSAGE_BYTES {
        return Err(SubmitError::MessageTooLarge);
    }
    if last_sequence == u64::MAX {
        return Err(SubmitError::SequenceExhausted);
    }
    if !open {
        return Err(SubmitError::Closed);
    }
    Ok(last_sequence + 1)
}

/// The outstanding inputs after admitting one more, within the input
/// capacity; none when the capacity is taken.
pub fn take_input_permit(outstanding: usize) -> (r: Option<usize>)
    ensures
        r == if outstanding < INPUT_CAPACITY {
            Some((outstanding + 1) as usize)
        } else {
            None::<usize>
        },
{
    if outstanding < INPUT_CAPACITY {
        Some(outstanding + 1)
    } else {
        None
    }
}

/// The retained payload bytes after retaining `len` more, within the
/// budget; none past it.
pub fn reserve_payload(retained: usize, len: usize) -> (r: Option<usize>)
    ensures
        r == if retained + len <= MAX_RETAINED_PAYLOAD_BYTES {
            Some((retained + len) as usize)
        } else {
            None::<usize>
        },
{
    if retained <= MAX_RETAINED_PAYLOAD_BYTES && len <= MAX_RETAINED_PAYLOAD_BYTES - retained {
        Some(retained + len)
    } else {
        None
    }
}

/// The epoch a restart from `current` to `next` gets after `epoch`, or why
/// it is refused: not a later generation, epochs exhausted, or the
/// supervisor gone.
pub fn admit_restart(current: ProcessIdentity, next: ProcessIdentity, epoch: u64, open: bool) -> (r: Result<
    u64,
    SubmitError,
>)
    ensures
        r == if next.generation <= current.generation {
            Err(SubmitError::StaleRestart)
        } else if epoch == u64::MAX {
            Err(SubmitError::EpochExhausted)
        } else if !open {
            Err(SubmitError::Closed)
        } else {
            Ok::<u64, SubmitError>((epoch + 1) as u64)
        },
{
    if next.generation <= current.generation {
        return Err(SubmitError::StaleRestart);
    }
    if epoch == u64::MAX {
        return Err(SubmitError::EpochExhausted);
    }
    if !open {
        return Err(SubmitError::Closed);
    }
    Ok(epoch + 1)
}

/// Whether an event may be queued with `queued` events waiting: an
/// ordinary event leaves the terminal reserve free; a terminal event may
/// use it.
pub fn event_has_room(queued: usize, terminal: bool) -> (r: bool)
    ensures
        r == (terminal || queued < EVENT_CAPACITY - TERMINAL_EVENT_RESERVE),
{
    terminal || queued < EVENT_CAPACITY - TERMINAL_EVENT_RESERVE
}

/// Whether an event of process `event` at `event_epoch` belongs to the
/// current process `current` at `epoch`; any other is stale.
pub fn event_is_current(event: ProcessIdentity, event_epoch: u64, current: ProcessIdentity, epoch: u64) -> (r: bool)
    ensures
        r == (event == current && event_epoch == epoch),
{
    event.workspace_revision == current.workspace_revision && event.generation == current.generation
        && event_epoch == epoch
}

} // verus!
