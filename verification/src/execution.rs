//! One dispatch attempt from creation to terminal outcome: the execution
//! record, its result, and the state machine Created → Assigned → Started →
//! Completed, with Unknown as the absorbing error state. A result is
//! attached at most once, on entering a terminal state.

use vstd::prelude::*;

verus! {

use crate::types::{ExitKind, Id, JsonData, TimeStamp};
use crate::catalog::FunctionId;
use crate::worker::WorkerId;

/// An invocation's request payload.
pub struct Input(pub JsonData);

/// An invocation's response payload.
pub struct Output(pub JsonData);

impl Output {
    /// Parses response bytes into a payload: a payload exactly when the
    /// bytes are one well-formed JSON document, the error exactly otherwise.
    pub fn try_from(value: Vec<u8>) -> (r: Result<Output, crate::types::MalformedPayload>)
        ensures
            r is Ok <==> crate::types::json_wf(value@),
    {
        match JsonData::try_from(value) {
            Ok(data) => Ok(Output(data)),
            Err(e) => Err(e),
        }
    }
}

/// The identity of one execution request.
#[derive(Clone, Copy, Debug, PartialEq, Eq, Structural, PartialOrd, Ord, Hash)]
pub struct ExecutionRequestId(pub Id);

/// One inbound invocation: immutable once created.
pub struct ExecutionRequest {
    pub id: ExecutionRequestId,
    pub create_time: TimeStamp,
    pub input: Input,
    pub target_function: FunctionId,
}

/// Where one execution stands.
#[derive(Clone, Copy, Debug, PartialEq, Eq, Structural)]
pub enum ExecutionStatus {
    /// Request stored; no worker chosen yet.
    Created,
    /// An available worker has been selected.
    Assigned,
    /// The worker acknowledged the call and is running it.
    Started,
    /// A result is attached; no further state change, whatever the exit.
    Completed,
    /// No worker was available, the call could not be completed, or the
    /// worker disappeared. Terminal and absorbing.
    Unknown,
}

/// A status that no transition leaves.
pub open spec fn is_terminal(s: ExecutionStatus) -> bool {
    s == ExecutionStatus::Completed || s == ExecutionStatus::Unknown
}

/// The transitions the state machine allows.
pub open spec fn can_step(a: ExecutionStatus, b: ExecutionStatus) -> bool {
    ||| (a == ExecutionStatus::Created && b == ExecutionStatus::Assigned)
    ||| (a == ExecutionStatus::Assigned && b == ExecutionStatus::Started)
    ||| (a == ExecutionStatus::Started && b == ExecutionStatus::Completed)
    ||| (!is_terminal(a) && b == ExecutionStatus::Unknown)
}

/// Terminal states are absorbing: no transition leaves Completed or Unknown.
pub proof fn lemma_terminal_absorbing(a: ExecutionStatus, b: ExecutionStatus)
    ensures
        is_terminal(a) ==> !can_step(a, b),
{
}

/// The identity of one execution result.
#[derive(Clone, Copy, Debug, PartialEq, Eq, Structural, PartialOrd, Ord, Hash)]
pub struct ExecutionResultId(pub Id);

/// The outcome of one execution, created exactly once, when the worker call
/// returns or definitively fails.
pub struct ExecutionResult {
    pub id: ExecutionResultId,
    pub create_time: TimeStamp,
    pub output_data: Option<Output>,
    pub exit: ExitKind,
    pub worker: WorkerId,
    pub complete_time: Option<TimeStamp>,
}

/// The identity of one execution.
#[derive(Clone, Copy, Debug, PartialEq, Eq, Structural, PartialOrd, Ord, Hash)]
pub struct ExecutionId(pub Id);

/// The aggregate root for one dispatch attempt, owned by the dispatcher for
/// its whole lifetime.
pub struct Execution {
    pub id: ExecutionId,
    pub request: ExecutionRequest,
    pub result: Option<ExecutionResult>,
    pub status: ExecutionStatus,
}

impl Execution {
    /// A result is attached exactly on the terminal states that carry one:
    /// always on Completed, possibly on Unknown, never earlier.
    pub open spec fn wf(&self) -> bool {
        &&& (self.result is Some ==> is_terminal(self.status))
        &&& (self.status == ExecutionStatus::Completed ==> self.result is Some)
    }

    /// A fresh execution for a request: status Created, no result.
    pub fn new(id: ExecutionId, request: ExecutionRequest) -> (r: Execution)
        ensures
            r.wf(),
            r.id == id,
            r.request == request,
            r.result is None,
            r.status == ExecutionStatus::Created,
    {
        Execution { id, request, result: None, status: ExecutionStatus::Created }
    }

    /// Records that a worker has been selected and the call is about to be
    /// sent.
    pub fn assign(&mut self)
        requires
            old(self).wf(),
            old(self).status == ExecutionStatus::Created,
        ensures
            final(self).wf(),
            can_step(old(self).status, final(self).status),
            final(self).status == ExecutionStatus::Assigned,
            final(self).result == old(self).result,
            final(self).id == old(self).id,
            final(self).request == old(self).request,
    {
        self.status = ExecutionStatus::Assigned;
    }

    /// Records that the worker accepted the call and began executing.
    pub fn start(&mut self)
        requires
            old(self).wf(),
            old(self).status == ExecutionStatus::Assigned,
        ensures
            final(self).wf(),
            can_step(old(self).status, final(self).status),
            final(self).status == ExecutionStatus::Started,
            final(self).result == old(self).result,
            final(self).id == old(self).id,
            final(self).request == old(self).request,
    {
        self.status = ExecutionStatus::Started;
    }

    /// Attaches the one result and completes: no further state change,
    /// whatever the exit kind says.
    pub fn complete(&mut self, result: ExecutionResult)
        requires
            old(self).wf(),
            old(self).status == ExecutionStatus::Started,
        ensures
            final(self).wf(),
            can_step(old(self).status, final(self).status),
            final(self).status == ExecutionStatus::Completed,
            old(self).result is None,
            final(self).result == Some(result),
            final(self).id == old(self).id,
            final(self).request == old(self).request,
    {
        self.result = Some(result);
        self.status = ExecutionStatus::Completed;
    }

    /// Moves a non-terminal execution to the absorbing Unknown state,
    /// attaching a diagnostic result where one exists (a timed-out call).
    pub fn fail(&mut self, result: Option<ExecutionResult>)
        requires
            old(self).wf(),
            !is_terminal(old(self).status),
        ensures
            final(self).wf(),
            can_step(old(self).status, final(self).status),
            final(self).status == ExecutionStatus::Unknown,
            old(self).result is None,
            final(self).result == result,
            final(self).id == old(self).id,
            final(self).request == old(self).request,
    {
        self.result = result;
        self.status = ExecutionStatus::Unknown;
    }
}

} // verus!
