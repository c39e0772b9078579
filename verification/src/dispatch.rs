//! The dispatch policy and the reconciliation of a worker's answer into the
//! execution state machine. Selection is deterministic — the available
//! worker with the lowest identifier — and an empty available set fails
//! immediately, never blocking. Transport itself lives outside; this module
//! decides, and classifies what came back.
//!
//! Concurrency policy, chosen explicitly: a worker serves any number of
//! concurrent calls; dispatch never moves a worker to Occupied, so an
//! Available worker stays eligible while a call is in flight.

use vstd::prelude::*;

verus! {

use crate::types::{ExitKind, Id, JsonData, JsonShape, TimeStamp};
use crate::worker::{Worker, WorkerId, WorkerStatus};
use crate::execution::{Execution, ExecutionResult, ExecutionResultId, ExecutionStatus, Output};
use crate::catalog::{Function, FunctionCatalog, Root, SubPath, spec_resolve, spec_shape_accepts, shape_accepts};

/// Why a dispatch attempt failed.
#[derive(Clone, Copy, Debug, PartialEq, Eq, Structural)]
pub enum DispatchError {
    /// The path is not bound to any function.
    NotFound,
    /// No worker was available at dispatch time; the caller may retry.
    ServiceUnavailable,
    /// The worker was reachable but answered a non-success status, which is
    /// preserved for diagnostics, or an unparseable body.
    BadGateway { status: u16 },
    /// The payload's top-level shape does not fit the function's declared
    /// input descriptor; rejected before any worker is chosen.
    InvalidInput,
}

/// A dispatch decision: the function the path resolved to and the worker
/// the call goes to.
pub struct DispatchPlan {
    pub function: Function,
    pub worker: Worker,
}

/// Routes one inbound invocation: resolves the path (an unbound path is
/// NotFound and reaches no worker), checks the payload's top-level shape
/// against the function's declared input descriptor, then selects the
/// available worker with the lowest identifier; with no available worker
/// the attempt fails immediately with ServiceUnavailable.
pub fn route_invocation(
    catalog: &FunctionCatalog,
    root: &Root,
    sub_path: &SubPath,
    shape: JsonShape,
    workers: &Vec<Worker>,
) -> (r: Result<DispatchPlan, DispatchError>)
    requires
        catalog.wf(),
    ensures
        (match spec_resolve(catalog.paths@, root.0@, sub_path.0@) {
            Some(f) => {
                &&& (!spec_shape_accepts(f.input_type, shape) ==> r == Err::<
                    DispatchPlan,
                    DispatchError,
                >(DispatchError::InvalidInput))
                &&& (spec_shape_accepts(f.input_type, shape) ==> (match r {
                    Ok(plan) => {
                        &&& plan.function == f
                        &&& plan.worker.status == WorkerStatus::Available
                        &&& exists|i: int|
                            0 <= i < workers@.len() && workers@[i] == plan.worker
                        &&& forall|i: int|
                            0 <= i < workers@.len() && workers@[i].status
                                == WorkerStatus::Available ==> plan.worker.id.0.value
                                <= workers@[i].id.0.value
                    },
                    Err(e) => e == DispatchError::ServiceUnavailable && !some_available(
                        workers@,
                    ),
                }))
            },
            None => r == Err::<DispatchPlan, DispatchError>(DispatchError::NotFound),
        }),
{
    let function = match catalog.resolve(root, sub_path) {
        Some(f) => f,
        None => {
            return Err(DispatchError::NotFound);
        },
    };
    if !shape_accepts(&function.input_type, shape) {
        return Err(DispatchError::InvalidInput);
    }
    match select_worker(workers) {
        Ok(worker) => Ok(DispatchPlan { function, worker }),
        Err(e) => Err(e),
    }
}

/// Is some worker in the snapshot available?
pub open spec fn some_available(s: Seq<Worker>) -> bool {
    exists|i: int| 0 <= i < s.len() && s[i].status == WorkerStatus::Available
}

/// Picks the available worker with the lowest identifier; fails immediately
/// with ServiceUnavailable — never blocking, never picking an occupied,
/// disabled or unknown worker — exactly when none is available.
pub fn select_worker(workers: &Vec<Worker>) -> (r: Result<Worker, DispatchError>)
    ensures
        match r {
            Ok(w) => {
                &&& some_available(workers@)
                &&& w.status == WorkerStatus::Available
                &&& exists|i: int| 0 <= i < workers@.len() && workers@[i] == w
                &&& forall|i: int|
                    0 <= i < workers@.len() && workers@[i].status == WorkerStatus::Available
                        ==> w.id.0.value <= workers@[i].id.0.value
            },
            Err(e) => e == DispatchError::ServiceUnavailable && !some_available(workers@),
        },
{
    let n = workers.len();
    let mut best: Option<usize> = None;
    let mut i: usize = 0;
    while i < n
        invariant
            n == workers.len(),
            i <= n,
            match best {
                Some(b) => {
                    &&& b < i
                    &&& workers@[b as int].status == WorkerStatus::Available
                    &&& forall|k: int|
                        0 <= k < i && workers@[k].status == WorkerStatus::Available
                            ==> workers@[b as int].id.0.value <= workers@[k].id.0.value
                },
                None => forall|k: int| 0 <= k < i ==> workers@[k].status != WorkerStatus::Available,
            },
        decreases n - i,
    {
        if workers[i].status == WorkerStatus::Available {
            match best {
                Some(b) => {
                    if workers[i].id.0.value < workers[b].id.0.value {
                        best = Some(i);
                    }
                },
                None => {
                    best = Some(i);
                },
            }
        }
        i = i + 1;
    }
    match best {
        Some(b) => Ok(workers[b].clone()),
        None => Err(DispatchError::ServiceUnavailable),
    }
}

/// What came back from the worker call, as the transport reports it.
pub enum WorkerAnswer {
    /// An HTTP-success answer with the response body's bytes.
    Responded { body: Vec<u8> },
    /// The worker answered a non-success status.
    HttpError { status: u16 },
    /// The worker could not be reached or the connection failed.
    TransportFailed,
    /// The bounded wait for the worker's answer ran out.
    TimedOut,
}

/// Reconciles a worker's answer into a started execution. A parsed success
/// body completes the execution with a Success result carrying the output;
/// a non-success status, an unparseable body or a transport failure moves
/// it to Unknown; a timed-out wait moves it to Unknown with a TimeOut
/// result attached for diagnostics. Exactly one outcome per execution.
pub fn reconcile(
    exec: &mut Execution,
    answer: WorkerAnswer,
    worker: WorkerId,
    now: TimeStamp,
) -> (r: Result<(), DispatchError>)
    requires
        old(exec).wf(),
        old(exec).status == ExecutionStatus::Started,
    ensures
        final(exec).wf(),
        final(exec).id == old(exec).id,
        final(exec).request == old(exec).request,
        crate::execution::can_step(old(exec).status, final(exec).status),
        old(exec).result is None,
        match answer {
            WorkerAnswer::Responded { body } => {
                &&& (crate::types::json_wf(body@) ==> {
                    &&& r == Ok::<(), DispatchError>(())
                    &&& final(exec).status == ExecutionStatus::Completed
                    &&& (match final(exec).result {
                        Some(res) => res.exit == ExitKind::Success && res.output_data is Some
                            && res.worker == worker && res.complete_time == Some(now),
                        None => false,
                    })
                })
                &&& (!crate::types::json_wf(body@) ==> {
                    &&& r == Err::<(), DispatchError>(DispatchError::BadGateway { status: 502u16 })
                    &&& final(exec).status == ExecutionStatus::Unknown
                    &&& final(exec).result is None
                })
            },
            WorkerAnswer::HttpError { status } => r == Err::<(), DispatchError>(
                DispatchError::BadGateway { status },
            ) && final(exec).status == ExecutionStatus::Unknown && final(exec).result is None,
            WorkerAnswer::TransportFailed => r == Err::<(), DispatchError>(
                DispatchError::BadGateway { status: 502u16 },
            ) && final(exec).status == ExecutionStatus::Unknown && final(exec).result is None,
            WorkerAnswer::TimedOut => {
                &&& r == Err::<(), DispatchError>(DispatchError::BadGateway { status: 504u16 })
                &&& final(exec).status == ExecutionStatus::Unknown
                &&& (match final(exec).result {
                    Some(res) => res.exit == ExitKind::TimeOut && res.output_data is None
                        && res.worker == worker && res.complete_time == Some(now),
                    None => false,
                })
            },
        },
{
    match answer {
        WorkerAnswer::Responded { body } => {
            match JsonData::try_from(body) {
                Ok(payload) => {
                    let result = ExecutionResult {
                        id: ExecutionResultId(Id::new()),
                        create_time: now,
                        output_data: Some(Output(payload)),
                        exit: ExitKind::Success,
                        worker,
                        complete_time: Some(now),
                    };
                    exec.complete(result);
                    Ok(())
                },
                Err(_) => {
                    exec.fail(None);
                    Err(DispatchError::BadGateway { status: 502 })
                },
            }
        },
        WorkerAnswer::HttpError { status } => {
            exec.fail(None);
            Err(DispatchError::BadGateway { status })
        },
        WorkerAnswer::TransportFailed => {
            exec.fail(None);
            Err(DispatchError::BadGateway { status: 502 })
        },
        WorkerAnswer::TimedOut => {
            let result = ExecutionResult {
                id: ExecutionResultId(Id::new()),
                create_time: now,
                output_data: None,
                exit: ExitKind::TimeOut,
                worker,
                complete_time: Some(now),
            };
            exec.fail(Some(result));
            Err(DispatchError::BadGateway { status: 504 })
        },
    }
}

/// Records that no worker was available: the execution moves to the
/// absorbing Unknown state with no result, and the caller sees
/// ServiceUnavailable.
pub fn fail_unavailable(exec: &mut Execution) -> (r: Result<(), DispatchError>)
    requires
        old(exec).wf(),
        !crate::execution::is_terminal(old(exec).status),
    ensures
        final(exec).wf(),
        final(exec).id == old(exec).id,
        final(exec).request == old(exec).request,
        crate::execution::can_step(old(exec).status, final(exec).status),
        final(exec).status == ExecutionStatus::Unknown,
        final(exec).result is None,
        r == Err::<(), DispatchError>(DispatchError::ServiceUnavailable),
{
    exec.fail(None);
    Err(DispatchError::ServiceUnavailable)
}

} // verus!
