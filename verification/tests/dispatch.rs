use faas_core::types::{BlobAddress, ExitKind, Id, JsonData, JsonShape, TimeStamp};
use faas_core::worker::{Worker, WorkerAddress, WorkerId, WorkerStatus};
use faas_core::catalog::{Function, FunctionCatalog, FunctionId, InputKind, Root, SubPath};
use faas_core::execution::{
    Execution, ExecutionId, ExecutionRequest, ExecutionRequestId, ExecutionResult,
    ExecutionResultId, ExecutionStatus, Input, Output,
};
use faas_core::dispatch::{
    DispatchError, WorkerAnswer, fail_unavailable, reconcile, route_invocation, select_worker,
};
use faas_core::registry::WorkerStore;

fn worker_with(idv: u128, status: WorkerStatus) -> Worker {
    let mut w = Worker::with_parts(
        WorkerId(Id { value: idv }),
        WorkerAddress(format!("127.0.0.1:{}", idv)),
        TimeStamp::from_secs(0),
    );
    w.update_status(status);
    w
}

fn started_execution() -> Execution {
    let request = ExecutionRequest {
        id: ExecutionRequestId(Id { value: 10 }),
        create_time: TimeStamp::from_secs(0),
        input: Input(JsonData::try_from(b"[2, 3]".to_vec()).unwrap()),
        target_function: FunctionId(Id { value: 1 }),
    };
    let mut exec = Execution::new(ExecutionId(Id { value: 11 }), request);
    exec.assign();
    exec.start();
    exec
}

#[test]
fn empty_pool_is_service_unavailable() {
    let pool: Vec<Worker> = Vec::new();
    assert!(matches!(select_worker(&pool), Err(DispatchError::ServiceUnavailable)));
}

#[test]
fn no_available_worker_is_service_unavailable() {
    let pool = vec![
        worker_with(1, WorkerStatus::Disabled),
        worker_with(2, WorkerStatus::Unknown),
        worker_with(3, WorkerStatus::Occupied),
    ];
    assert!(matches!(select_worker(&pool), Err(DispatchError::ServiceUnavailable)));
}

#[test]
fn selection_takes_lowest_available_id() {
    let pool = vec![
        worker_with(5, WorkerStatus::Available),
        worker_with(1, WorkerStatus::Disabled),
        worker_with(3, WorkerStatus::Available),
    ];
    let picked = select_worker(&pool).unwrap();
    assert_eq!(picked.id.0.value, 3);
    assert!(matches!(picked.status, WorkerStatus::Available));
}

#[test]
fn timed_out_call_reaches_unknown_with_timeout_result() {
    // registry with W1 available and W2 disabled
    let mut store = WorkerStore::new();
    store.insert(worker_with(1, WorkerStatus::Available));
    store.insert(worker_with(2, WorkerStatus::Disabled));

    let pool = store.list(Some(&WorkerStatus::Available));
    let picked = select_worker(&pool).unwrap();
    assert_eq!(picked.id.0.value, 1);

    let mut exec = started_execution();
    let r = reconcile(&mut exec, WorkerAnswer::TimedOut, picked.id, TimeStamp::from_secs(9));
    assert_eq!(r, Err(DispatchError::BadGateway { status: 504 }));
    assert!(matches!(exec.status, ExecutionStatus::Unknown));
    let result = exec.result.as_ref().unwrap();
    assert_eq!(result.exit, ExitKind::TimeOut);
    assert_eq!(result.worker.0.value, 1);
    assert!(result.output_data.is_none());

    // the worker's registry record is unchanged
    let w1 = store.get(WorkerId(Id { value: 1 })).unwrap();
    assert!(matches!(w1.status, WorkerStatus::Available));
    let w2 = store.get(WorkerId(Id { value: 2 })).unwrap();
    assert!(matches!(w2.status, WorkerStatus::Disabled));
}

#[test]
fn success_body_completes_with_output() {
    let mut exec = started_execution();
    let answer = WorkerAnswer::Responded { body: b"5".to_vec() };
    let r = reconcile(&mut exec, answer, WorkerId(Id { value: 1 }), TimeStamp::from_secs(9));
    assert!(r.is_ok());
    assert!(matches!(exec.status, ExecutionStatus::Completed));
    let result = exec.result.as_ref().unwrap();
    assert_eq!(result.exit, ExitKind::Success);
    assert!(result.output_data.is_some());
    assert_eq!(result.complete_time, Some(TimeStamp::from_secs(9)));
}

#[test]
fn unparseable_body_is_bad_gateway() {
    let mut exec = started_execution();
    let answer = WorkerAnswer::Responded { body: b"} not json {".to_vec() };
    let r = reconcile(&mut exec, answer, WorkerId(Id { value: 1 }), TimeStamp::from_secs(9));
    assert_eq!(r, Err(DispatchError::BadGateway { status: 502 }));
    assert!(matches!(exec.status, ExecutionStatus::Unknown));
    assert!(exec.result.is_none());
}

#[test]
fn worker_error_status_is_preserved() {
    let mut exec = started_execution();
    let r = reconcile(
        &mut exec,
        WorkerAnswer::HttpError { status: 500 },
        WorkerId(Id { value: 1 }),
        TimeStamp::from_secs(9),
    );
    assert_eq!(r, Err(DispatchError::BadGateway { status: 500 }));
    assert!(matches!(exec.status, ExecutionStatus::Unknown));

    let mut exec = started_execution();
    let r = reconcile(
        &mut exec,
        WorkerAnswer::TransportFailed,
        WorkerId(Id { value: 1 }),
        TimeStamp::from_secs(9),
    );
    assert_eq!(r, Err(DispatchError::BadGateway { status: 502 }));
    assert!(matches!(exec.status, ExecutionStatus::Unknown));
}

#[test]
fn unavailable_pool_fails_the_execution() {
    let request = ExecutionRequest {
        id: ExecutionRequestId(Id { value: 20 }),
        create_time: TimeStamp::from_secs(0),
        input: Input(JsonData::try_from(b"null".to_vec()).unwrap()),
        target_function: FunctionId(Id { value: 1 }),
    };
    let mut exec = Execution::new(ExecutionId(Id { value: 21 }), request);
    let r = fail_unavailable(&mut exec);
    assert_eq!(r, Err(DispatchError::ServiceUnavailable));
    assert!(matches!(exec.status, ExecutionStatus::Unknown));
    assert!(exec.result.is_none());
}

#[test]
fn execution_walks_the_state_machine_and_attaches_one_result() {
    let mut exec = started_execution();
    assert!(matches!(exec.status, ExecutionStatus::Started));
    assert!(exec.result.is_none());
    let result = ExecutionResult {
        id: ExecutionResultId(Id { value: 30 }),
        create_time: TimeStamp::from_secs(8),
        output_data: Some(Output(JsonData::try_from(b"5".to_vec()).unwrap())),
        exit: ExitKind::Success,
        worker: WorkerId(Id { value: 1 }),
        complete_time: Some(TimeStamp::from_secs(9)),
    };
    exec.complete(result);
    assert!(matches!(exec.status, ExecutionStatus::Completed));
    assert!(exec.result.is_some());
}

fn catalog_with_add() -> FunctionCatalog {
    let mut catalog = FunctionCatalog::new();
    let function = Function::new(
        FunctionId(Id { value: 1 }),
        "add".to_string(),
        "adds two numbers".to_string(),
        TimeStamp::from_secs(0),
        InputKind::List(Box::new(InputKind::Number)),
        BlobAddress { location: "blobs/add.wasm".to_string() },
    );
    catalog.register(function);
    catalog
        .bind_path(Root("api".to_string()), SubPath("add".to_string()), FunctionId(Id { value: 1 }))
        .unwrap();
    catalog
}

#[test]
fn routing_picks_the_bound_function_and_lowest_worker() {
    let catalog = catalog_with_add();
    let pool = vec![
        worker_with(5, WorkerStatus::Available),
        worker_with(2, WorkerStatus::Disabled),
        worker_with(3, WorkerStatus::Available),
    ];
    let plan = route_invocation(
        &catalog,
        &Root("api".to_string()),
        &SubPath("add".to_string()),
        JsonShape::Array,
        &pool,
    )
    .unwrap();
    assert_eq!(plan.function.name, "add");
    assert_eq!(plan.worker.id.0.value, 3);
}

#[test]
fn unbound_path_is_not_found_before_any_worker() {
    let catalog = catalog_with_add();
    let pool = vec![worker_with(1, WorkerStatus::Available)];
    let r = route_invocation(
        &catalog,
        &Root("api".to_string()),
        &SubPath("mul".to_string()),
        JsonShape::Array,
        &pool,
    );
    assert!(matches!(r, Err(DispatchError::NotFound)));
}

#[test]
fn wrong_payload_shape_is_rejected_before_any_worker() {
    let catalog = catalog_with_add();
    let pool = vec![worker_with(1, WorkerStatus::Available)];
    let r = route_invocation(
        &catalog,
        &Root("api".to_string()),
        &SubPath("add".to_string()),
        JsonShape::Object,
        &pool,
    );
    assert!(matches!(r, Err(DispatchError::InvalidInput)));
}

#[test]
fn routing_without_available_workers_is_service_unavailable() {
    let catalog = catalog_with_add();
    let pool = vec![worker_with(1, WorkerStatus::Unknown)];
    let r = route_invocation(
        &catalog,
        &Root("api".to_string()),
        &SubPath("add".to_string()),
        JsonShape::Array,
        &pool,
    );
    assert!(matches!(r, Err(DispatchError::ServiceUnavailable)));
}
