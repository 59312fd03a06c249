//! The command executor: from a payload to the calls against the store and
//! to the invocation's terminal state.
//!
//! `begin` decodes the payload and names the first call, or ends at once
//! where the payload holds no command. `resume` takes each reply. Whoever
//! runs the loop makes the calls; `respond` puts the request identifier to
//! the terminal state that the loop ends with.

use crate::engine::{
    EngineCall, EngineCallView, EngineErrorView, EngineReply, EngineReplyView, Fault,
};
use crate::model::{ErrorKind, Field, TableSpec, TableSpecView};

use crate::record::Record;
use crate::request::{
    create_command, decode_create, decode_read, read_command, Command, CommandView,
    MalformedRequest, Payload, PayloadValueView,
};
use crate::store::{
    create_advance, create_begin, scan_advance, scan_begin, CreatePhase, CreateProgress,
    CreateProgressView, CreateTable, CreateTableView, Scan, ScanLimits, ScanProgress,
    ScanProgressView, ScanView, StoreError, StoreErrorKind, StoreErrorView, store_fault,
};
use crate::text::views;
use vstd::prelude::*;

verus! {

/// The two handlers: one creates a table, one reads a table.
#[derive(Clone, Copy, PartialEq, Eq, Debug, Structural)]
pub enum Handler {
    Create,
    Read,
}

/// The rows that a read returns, in the order in which the engine gave them.
pub type ScanResult = Vec<Record>;

/// What is handed back for an invocation.
#[derive(Debug)]
pub enum CommandOutcome {
    /// The table exists as it was asked for.
    Created(TableSpec),
    /// The table's rows under the projection asked for.
    Rows(ScanResult),
    /// The invocation failed: the kind of failure and its detail.
    Failure(ErrorKind, String),
}

pub enum CommandOutcomeView {
    Created(TableSpecView),
    Rows(Seq<Map<Seq<char>, Seq<char>>>),
    Failure(ErrorKind, Seq<char>),
}

impl View for CommandOutcome {
    type V = CommandOutcomeView;

    open spec fn view(&self) -> CommandOutcomeView {
        match self {
            CommandOutcome::Created(spec) => CommandOutcomeView::Created(spec@),
            CommandOutcome::Rows(rows) => CommandOutcomeView::Rows(views(rows@)),
            CommandOutcome::Failure(kind, detail) => CommandOutcomeView::Failure(*kind, detail@),
        }
    }
}

/// Why an invocation was turned down.
#[derive(Clone, Debug, PartialEq, Eq)]
pub enum Rejection {
    /// The payload holds no command: the field that is missing or wrong.
    MalformedRequest(Field),
    /// The table of this name exists with another specification.
    ConflictError(String),
}

pub enum RejectionView {
    MalformedRequest(Field),
    ConflictError(Seq<char>),
}

impl View for Rejection {
    type V = RejectionView;

    open spec fn view(&self) -> RejectionView {
        match self {
            Rejection::MalformedRequest(field) => RejectionView::MalformedRequest(*field),
            Rejection::ConflictError(table) => RejectionView::ConflictError(table@),
        }
    }
}

/// The state in which an invocation ends.
#[derive(Debug)]
pub enum Terminal {
    /// The command was carried out. The outcome is no failure.
    Succeeded(CommandOutcome),
    /// The command was turned down, and the store is as it was.
    Rejected(Rejection),
    /// The store failed.
    Failed(StoreError),
}

pub enum TerminalView {
    Succeeded(CommandOutcomeView),
    Rejected(RejectionView),
    Failed(StoreErrorView),
}

impl View for Terminal {
    type V = TerminalView;

    open spec fn view(&self) -> TerminalView {
        match self {
            Terminal::Succeeded(outcome) => TerminalView::Succeeded(outcome@),
            Terminal::Rejected(rejection) => TerminalView::Rejected(rejection@),
            Terminal::Failed(failure) => TerminalView::Failed(failure@),
        }
    }
}

/// An invocation that waits for the reply to a call.
#[derive(Debug)]
pub enum Pending {
    Create(CreateTable),
    Read(Scan),
}

pub enum PendingView {
    Create(CreateTableView),
    Read(ScanView),
}

impl PendingView {
    /// Whether a read that is under way is within its limits.
    pub open spec fn within_limits(self) -> bool {
        match self {
            PendingView::Create(_) => true,
            PendingView::Read(operation) => operation.within_limits(),
        }
    }

    /// A bound on the number of calls that the invocation will still ask
    /// for after the one it waits on.
    pub open spec fn calls_left(self) -> nat {
        match self {
            PendingView::Create(operation) => match operation.phase {
                CreatePhase::Creating => 1,
                CreatePhase::Confirming => 0,
            },
            PendingView::Read(operation) => operation.pages_left(),
        }
    }
}

impl View for Pending {
    type V = PendingView;

    open spec fn view(&self) -> PendingView {
        match self {
            Pending::Create(operation) => PendingView::Create(operation@),
            Pending::Read(operation) => PendingView::Read(operation@),
        }
    }
}

/// The next thing to do for an invocation.
#[derive(Debug)]
pub enum Step {
    /// Make this call and come back with its reply.
    Call(Pending, EngineCall),
    /// The invocation has ended.
    Finished(Terminal),
}

pub enum StepView {
    Call(PendingView, EngineCallView),
    Finished(TerminalView),
}

impl View for Step {
    type V = StepView;

    open spec fn view(&self) -> StepView {
        match self {
            Step::Call(pending, call) => StepView::Call(pending@, call@),
            Step::Finished(terminal) => StepView::Finished(terminal@),
        }
    }
}

/// The terminal state for a failure of the store on a creation: a conflict
/// turns the command down, every other failure is the store's.
pub open spec fn create_failure(failure: StoreErrorView) -> TerminalView {
    if failure.kind == StoreErrorKind::Conflict {
        TerminalView::Rejected(RejectionView::ConflictError(failure.detail))
    } else {
        TerminalView::Failed(failure)
    }
}

/// The step that the creation of `spec` is at.
pub open spec fn create_step(progress: CreateProgressView, spec: TableSpecView) -> StepView {
    match progress {
        CreateProgressView::Call(operation, call) => StepView::Call(
            PendingView::Create(operation),
            call,
        ),
        CreateProgressView::Done(Ok(())) => StepView::Finished(
            TerminalView::Succeeded(CommandOutcomeView::Created(spec)),
        ),
        CreateProgressView::Done(Err(failure)) => StepView::Finished(create_failure(failure)),
    }
}

/// The step that a read is at.
pub open spec fn read_step(progress: ScanProgressView) -> StepView {
    match progress {
        ScanProgressView::Call(operation, call) => StepView::Call(
            PendingView::Read(operation),
            call,
        ),
        ScanProgressView::Done(Ok(rows)) => StepView::Finished(
            TerminalView::Succeeded(CommandOutcomeView::Rows(rows)),
        ),
        ScanProgressView::Done(Err(failure)) => StepView::Finished(TerminalView::Failed(failure)),
    }
}

/// The terminal state for a payload that holds no command.
pub open spec fn turned_down(field: Field) -> StepView {
    StepView::Finished(TerminalView::Rejected(RejectionView::MalformedRequest(field)))
}

/// How a command starts. One with an empty name is turned down like a
/// payload that lacks the name.
pub open spec fn started(command: CommandView, limits: ScanLimits) -> StepView {
    match command {
        CommandView::CreateTable { table_name, key_name } => if table_name.len() == 0 {
            turned_down(Field::TableName)
        } else if key_name.len() == 0 {
            turned_down(Field::KeyName)
        } else {
            let spec = TableSpecView { name: table_name, partition_key: key_name };
            create_step(create_begin(spec), spec)
        },
        CommandView::ReadAll { table_name, projection } => if table_name.len() == 0 {
            turned_down(Field::TableName)
        } else {
            read_step(scan_begin(table_name, projection, limits))
        },
    }
}

/// The command that `handler` reads from a payload.
pub open spec fn decoded(handler: Handler, payload: Map<Seq<char>, PayloadValueView>) -> Result<
    CommandView,
    MalformedRequest,
> {
    match handler {
        Handler::Create => create_command(payload),
        Handler::Read => read_command(payload),
    }
}

/// How an invocation starts.
pub open spec fn begun(
    handler: Handler,
    payload: Map<Seq<char>, PayloadValueView>,
    limits: ScanLimits,
) -> StepView {
    match decoded(handler, payload) {
        Ok(command) => started(command, limits),
        Err(malformed) => turned_down(malformed.field),
    }
}

/// How an invocation goes on after a reply.
pub open spec fn resumed(pending: PendingView, reply: EngineReplyView) -> StepView {
    match pending {
        PendingView::Create(operation) => create_step(
            create_advance(operation, reply),
            operation.spec,
        ),
        PendingView::Read(operation) => read_step(scan_advance(operation, reply)),
    }
}

/// Whether an invocation that goes on keeps a read within its limits.
pub open spec fn step_within_limits(step: StepView) -> bool {
    match step {
        StepView::Call(pending, _) => pending.within_limits(),
        StepView::Finished(_) => true,
    }
}

fn create_step_of(progress: CreateProgress, spec: TableSpec) -> (step: Step)
    ensures
        step@ == create_step(progress@, spec@),
{
    match progress {
        CreateProgress::Call(operation, call) => Step::Call(Pending::Create(operation), call),
        CreateProgress::Done(Ok(())) => Step::Finished(
            Terminal::Succeeded(CommandOutcome::Created(spec)),
        ),
        CreateProgress::Done(Err(failure)) => match failure.kind {
            StoreErrorKind::Conflict => Step::Finished(
                Terminal::Rejected(Rejection::ConflictError(failure.detail)),
            ),
            _ => Step::Finished(Terminal::Failed(failure)),
        },
    }
}

fn read_step_of(progress: ScanProgress) -> (step: Step)
    ensures
        step@ == read_step(progress@),
{
    match progress {
        ScanProgress::Call(operation, call) => Step::Call(Pending::Read(operation), call),
        ScanProgress::Done(Ok(rows)) => Step::Finished(
            Terminal::Succeeded(CommandOutcome::Rows(rows)),
        ),
        ScanProgress::Done(Err(failure)) => Step::Finished(Terminal::Failed(failure)),
    }
}

/// Starts a command.
pub fn start(command: Command, limits: ScanLimits) -> (step: Step)
    ensures
        step@ == started(command@, limits),
        step_within_limits(step@),
{
    match command {
        Command::CreateTable { table_name, key_name } => {
            let no_table = table_name.as_str().unicode_len() == 0;
            match TableSpec::new(table_name, key_name) {
                Some(spec) => {
                    let copy = spec.clone();
                    create_step_of(CreateTable::begin(spec), copy)
                },
                None => {
                    let field = if no_table {
                        Field::TableName
                    } else {
                        Field::KeyName
                    };
                    Step::Finished(Terminal::Rejected(Rejection::MalformedRequest(field)))
                },
            }
        },
        Command::ReadAll { table_name, projection } => {
            if table_name.as_str().unicode_len() == 0 {
                Step::Finished(Terminal::Rejected(Rejection::MalformedRequest(Field::TableName)))
            } else {
                read_step_of(Scan::begin(table_name, projection, limits))
            }
        },
    }
}

/// Starts an invocation of `handler` on `payload`. A read holds itself to
/// `limits`.
pub fn begin(handler: Handler, payload: &Payload, limits: ScanLimits) -> (step: Step)
    ensures
        step@ == begun(handler, payload@, limits),
        step_within_limits(step@),
{
    let decoded = match handler {
        Handler::Create => decode_create(payload),
        Handler::Read => decode_read(payload),
    };
    match decoded {
        Ok(command) => start(command, limits),
        Err(malformed) => Step::Finished(
            Terminal::Rejected(Rejection::MalformedRequest(malformed.field)),
        ),
    }
}

/// Goes on with the reply to the call that was asked for last.
pub fn resume(pending: Pending, reply: EngineReply) -> (step: Step)
    ensures
        step@ == resumed(pending@, reply@),
        step_within_limits(step@),
{
    match pending {
        Pending::Create(operation) => {
            let spec = operation.spec().clone();
            create_step_of(operation.advance(reply), spec)
        },
        Pending::Read(operation) => read_step_of(operation.advance(reply)),
    }
}

/// What is handed back for an invocation that ended in `terminal`.
pub open spec fn outcome_of(terminal: TerminalView) -> CommandOutcomeView {
    match terminal {
        TerminalView::Succeeded(outcome) => outcome,
        TerminalView::Rejected(RejectionView::MalformedRequest(field)) => {
            CommandOutcomeView::Failure(ErrorKind::MalformedRequest, field.key())
        },
        TerminalView::Rejected(RejectionView::ConflictError(table)) => {
            CommandOutcomeView::Failure(ErrorKind::ConflictError, table)
        },
        TerminalView::Failed(failure) => CommandOutcomeView::Failure(
            failure.kind.reported(),
            failure.detail,
        ),
    }
}

impl Terminal {
    /// What is handed back for the invocation.
    pub fn into_outcome(self) -> (outcome: CommandOutcome)
        ensures
            outcome@ == outcome_of(self@),
    {
        match self {
            Terminal::Succeeded(outcome) => outcome,
            Terminal::Rejected(Rejection::MalformedRequest(field)) => CommandOutcome::Failure(
                ErrorKind::MalformedRequest,
                field.name(),
            ),
            Terminal::Rejected(Rejection::ConflictError(table)) => CommandOutcome::Failure(
                ErrorKind::ConflictError,
                table,
            ),
            Terminal::Failed(failure) => CommandOutcome::Failure(
                failure.kind.error_kind(),
                failure.detail,
            ),
        }
    }
}

/// An outcome with the identifier of the request that it answers.
#[derive(Debug)]
pub struct Response {
    pub req_id: String,
    pub outcome: CommandOutcome,
}

pub struct ResponseView {
    pub req_id: Seq<char>,
    pub outcome: CommandOutcomeView,
}

impl View for Response {
    type V = ResponseView;

    open spec fn view(&self) -> ResponseView {
        ResponseView { req_id: self.req_id@, outcome: self.outcome@ }
    }
}

/// The message that tells of the table `table`.
pub open spec fn created_message(table: Seq<char>) -> Seq<char> {
    "table  "@ + table + " created."@
}

/// Puts the request identifier to the outcome of an invocation.
pub fn respond(req_id: String, terminal: Terminal) -> (response: Response)
    ensures
        response@ == (ResponseView { req_id: req_id@, outcome: outcome_of(terminal@) }),
{
    Response { req_id, outcome: terminal.into_outcome() }
}

impl Response {
    /// The message of a response that tells of a created table.
    pub fn message(&self) -> (message: Option<String>)
        ensures
            match self@.outcome {
                CommandOutcomeView::Created(spec) => message is Some && message.unwrap()@
                    == created_message(spec.name),
                _ => message is None,
            },
    {
        match &self.outcome {
            CommandOutcome::Created(spec) => {
                let mut message = String::from_str("table  ");
                message.append(spec.name());
                message.append(" created.");
                Some(message)
            },
            _ => None,
        }
    }

    /// The kind of failure that the response reports, if it reports one.
    pub fn error_kind(&self) -> (kind: Option<ErrorKind>)
        ensures
            match self@.outcome {
                CommandOutcomeView::Failure(reported, _) => kind == Some(reported),
                _ => kind is None,
            },
    {
        match &self.outcome {
            CommandOutcome::Failure(kind, _) => Some(*kind),
            _ => None,
        }
    }
}

/// An invocation asks for finitely many calls: each call that it goes on to
/// leaves fewer to ask for, whatever the engine replies.
pub proof fn calls_are_bounded(pending: PendingView, reply: EngineReplyView)
    requires
        pending.within_limits(),
    ensures
        match resumed(pending, reply) {
            StepView::Call(next, _) => next.within_limits() && next.calls_left()
                < pending.calls_left(),
            StepView::Finished(_) => true,
        },
{
}

/// An invocation that ends well hands back no failure, and one that does
/// not end well hands back nothing else.
pub proof fn outcome_follows_terminal(pending: PendingView, reply: EngineReplyView)
    ensures
        match resumed(pending, reply) {
            StepView::Finished(TerminalView::Succeeded(outcome)) => !(outcome is Failure),
            StepView::Finished(terminal) => outcome_of(terminal) is Failure,
            StepView::Call(_, _) => true,
        },
{
}

/// A read whose call fails ends as failed, with the store's failure for the
/// call and with none of the rows that were read before. Where the call
/// timed out or did not get through, the failure is that the store is
/// unavailable.
pub proof fn failed_read_returns_nothing(operation: ScanView, error: EngineErrorView)
    ensures
        resumed(PendingView::Read(operation), EngineReplyView::Failed(error)) == StepView::Finished(
            TerminalView::Failed(store_fault(error, true)),
        ),
        error.fault == Fault::Timeout || error.fault == Fault::Transport ==> store_fault(
            error,
            true,
        ).kind == StoreErrorKind::StoreUnavailable,
{
}

} // verus!
