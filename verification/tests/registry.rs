use faas_core::types::{Id, TimeStamp};
use faas_core::worker::{IdentityPlan, Worker, WorkerAddress, WorkerId, WorkerStatus, plan_identity, reannounce};
use faas_core::registry::WorkerStore;

fn worker(idv: u128, beat: u64) -> Worker {
    Worker::with_parts(
        WorkerId(Id { value: idv }),
        WorkerAddress(format!("127.0.0.1:{}", idv)),
        TimeStamp::from_secs(beat),
    )
}

#[test]
fn register_stores_available_worker() {
    let mut store = WorkerStore::new();
    let w = store.register(WorkerAddress("127.0.0.1:3001".to_string()));
    assert!(matches!(w.status, WorkerStatus::Available));
    let got = store.get(w.id).unwrap();
    assert_eq!(got.id, w.id);
    assert_eq!(got.address.0, "127.0.0.1:3001");
}

#[test]
fn list_is_ordered_by_id_and_filters() {
    let mut store = WorkerStore::new();
    store.insert(worker(3, 0));
    store.insert(worker(1, 0));
    store.insert(worker(2, 0));
    let all = store.list(None);
    let ids: Vec<u128> = all.iter().map(|w| w.id.0.value).collect();
    assert_eq!(ids, vec![1, 2, 3]);

    let mut w2 = worker(2, 0);
    w2.update_status(WorkerStatus::Disabled);
    store.insert(w2);
    let available = store.list(Some(&WorkerStatus::Available));
    let ids: Vec<u128> = available.iter().map(|w| w.id.0.value).collect();
    assert_eq!(ids, vec![1, 3]);
    let disabled = store.list(Some(&WorkerStatus::Disabled));
    assert_eq!(disabled.len(), 1);
    assert_eq!(disabled[0].id.0.value, 2);
}

#[test]
fn insert_overwrites_same_id() {
    let mut store = WorkerStore::new();
    store.insert(worker(7, 0));
    let mut again = worker(7, 99);
    again.update_address(WorkerAddress("10.0.0.1:80".to_string()));
    store.insert(again);
    assert_eq!(store.list(None).len(), 1);
    let got = store.get(WorkerId(Id { value: 7 })).unwrap();
    assert_eq!(got.address.0, "10.0.0.1:80");
    assert_eq!(got.last_heartbeat.secs, 99);
}

#[test]
fn update_unknown_id_returns_none() {
    let mut store = WorkerStore::new();
    store.insert(worker(1, 0));
    let stranger = worker(2, 0);
    assert!(store.update(&stranger).is_none());
    assert!(store.get(WorkerId(Id { value: 2 })).is_none());
    let known = worker(1, 55);
    assert!(store.update(&known).is_some());
    assert_eq!(store.get(WorkerId(Id { value: 1 })).unwrap().last_heartbeat.secs, 55);
}

#[test]
fn touch_refreshes_heartbeat_only() {
    let mut store = WorkerStore::new();
    store.insert(worker(4, 0));
    let before = store.get(WorkerId(Id { value: 4 })).unwrap();
    let touched = store.touch_at(&WorkerId(Id { value: 4 }), TimeStamp::from_secs(500)).unwrap();
    assert_eq!(touched.last_heartbeat.secs, 500);
    assert_eq!(touched.id, before.id);
    assert_eq!(touched.address, before.address);
    assert!(matches!(touched.status, WorkerStatus::Available));
    assert!(store.touch_at(&WorkerId(Id { value: 9 }), TimeStamp::from_secs(1)).is_none());
}

#[test]
fn remove_retires_the_record_as_disabled() {
    let mut store = WorkerStore::new();
    store.insert(worker(1, 0));
    store.insert(worker(2, 0));
    let prior = store.remove(&WorkerId(Id { value: 1 })).unwrap();
    assert_eq!(prior.id.0.value, 1);
    assert!(matches!(prior.status, WorkerStatus::Available));
    // the record is retained, soft-deleted, so history stays valid
    let kept = store.get(WorkerId(Id { value: 1 })).unwrap();
    assert!(matches!(kept.status, WorkerStatus::Disabled));
    assert_eq!(kept.address.0, prior.address.0);
    assert_eq!(store.list(None).len(), 2);
    assert_eq!(store.list(Some(&WorkerStatus::Available)).len(), 1);
    assert!(store.remove(&WorkerId(Id { value: 9 })).is_none());
}

#[test]
fn sweep_marks_stale_workers_unknown_once_per_sweep() {
    let mut store = WorkerStore::new();
    // last heartbeats at t=0; w2 is administratively excluded
    store.insert(worker(1, 0));
    let mut w2 = worker(2, 0);
    w2.update_status(WorkerStatus::Disabled);
    store.insert(w2);
    store.insert(worker(3, 95));

    let now = TimeStamp::from_secs(100);
    let reported = store.sweep_stale(now, 10);
    let ids: Vec<u128> = reported.iter().map(|id| id.0.value).collect();
    // w1 stale (age 100), w2 skipped (Disabled), w3 fresh (age 5)
    assert_eq!(ids, vec![1]);
    assert!(matches!(store.get(WorkerId(Id { value: 1 })).unwrap().status, WorkerStatus::Unknown));
    assert!(matches!(store.get(WorkerId(Id { value: 2 })).unwrap().status, WorkerStatus::Disabled));
    assert!(matches!(store.get(WorkerId(Id { value: 3 })).unwrap().status, WorkerStatus::Available));

    // a heartbeat touch leaves the Unknown status: no silent revert to Available
    let touched = store.touch_at(&WorkerId(Id { value: 1 }), TimeStamp::from_secs(101)).unwrap();
    assert!(matches!(touched.status, WorkerStatus::Unknown));

    // only an explicit update brings it back
    let mut back = store.get(WorkerId(Id { value: 1 })).unwrap();
    back.update_status(WorkerStatus::Available);
    store.update(&back).unwrap();
    assert!(matches!(store.get(WorkerId(Id { value: 1 })).unwrap().status, WorkerStatus::Available));
}

#[test]
fn identity_plan_reuses_only_a_readable_identity() {
    let id = Id { value: 0xabcd };
    let text = id.format();
    assert_eq!(plan_identity(Some(&text)), IdentityPlan::UseStored(WorkerId(id)));
    assert_eq!(plan_identity(Some("corrupt file")), IdentityPlan::RegisterFresh);
    assert_eq!(plan_identity(None), IdentityPlan::RegisterFresh);
}

#[test]
fn reannounce_moves_address_and_status() {
    let mut w = worker(1, 0);
    w.update_status(WorkerStatus::Unknown);
    let again = reannounce(Some(w), WorkerAddress("10.1.1.1:9".to_string())).unwrap();
    assert!(matches!(again.status, WorkerStatus::Available));
    assert_eq!(again.address.0, "10.1.1.1:9");
    assert_eq!(again.id.0.value, 1);
    assert!(reannounce(None, WorkerAddress("x".to_string())).is_none());
}
