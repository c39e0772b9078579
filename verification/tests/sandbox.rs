use faas_core::types::ExitKind;
use faas_core::sandbox::{
    CallParams, CallSignature, SandboxError, SandboxExecutor, BAD_ENTRY_POINT_EXIT_CODE,
    TRAP_EXIT_CODE,
};

const ADD_WAT: &str = r#"
(module
  (func (export "add") (param i32 i32) (result i32)
    local.get 0
    local.get 1
    i32.add))
"#;

const SUB_WAT: &str = r#"
(module
  (func (export "sub") (param i32 i32) (result i32)
    local.get 0
    local.get 1
    i32.sub))
"#;

const DIV_WAT: &str = r#"
(module
  (func (export "div") (param i32 i32) (result i32)
    local.get 0
    local.get 1
    i32.div_s))
"#;

// adds the first parameter into a mutable global and reports the total:
// state that would leak across calls if instances were reused
const COUNTER_WAT: &str = r#"
(module
  (global $total (mut i32) (i32.const 0))
  (func (export "bump") (param i32 i32) (result i32)
    global.get $total
    local.get 0
    i32.add
    global.set $total
    global.get $total))
"#;

const SPIN_WAT: &str = r#"
(module
  (func (export "spin") (param i32 i32) (result i32)
    (loop $again
      br $again)
    i32.const 0))
"#;

const NOOP_WAT: &str = r#"
(module
  (func (export "noop")))
"#;

const FUEL: u64 = 1_000_000;

fn executor_with(entries: &[(&str, &str, CallSignature, &str)]) -> SandboxExecutor {
    let mut sandbox = SandboxExecutor::new().unwrap();
    for (name, entrypoint, sig, wat) in entries {
        sandbox
            .load(name.to_string(), entrypoint.to_string(), *sig, wat.as_bytes())
            .unwrap();
    }
    sandbox
}

#[test]
fn add_of_2_and_3_is_5_with_success() {
    let sandbox = executor_with(&[("add", "add", CallSignature::PairI32ToI32, ADD_WAT)]);
    let out = sandbox
        .execute(&"add".to_string(), CallParams::PairI32(2, 3), FUEL)
        .unwrap();
    assert_eq!(out.exit, ExitKind::Success);
    assert_eq!(out.value, Some(5));
}

#[test]
fn sub_runs_through_the_sandbox() {
    let sandbox = executor_with(&[("sub", "sub", CallSignature::PairI32ToI32, SUB_WAT)]);
    let out = sandbox
        .execute(&"sub".to_string(), CallParams::PairI32(2, 2), FUEL)
        .unwrap();
    assert_eq!(out.exit, ExitKind::Success);
    assert_eq!(out.value, Some(0));
}

#[test]
fn division_by_zero_is_a_trap_not_a_crash() {
    let sandbox = executor_with(&[("div", "div", CallSignature::PairI32ToI32, DIV_WAT)]);
    let out = sandbox
        .execute(&"div".to_string(), CallParams::PairI32(4, 0), FUEL)
        .unwrap();
    assert_eq!(out.exit, ExitKind::Failure { exit_code: TRAP_EXIT_CODE });
    assert!(out.value.is_none());

    // the worker stays usable for further calls
    let out = sandbox
        .execute(&"div".to_string(), CallParams::PairI32(2, 2), FUEL)
        .unwrap();
    assert_eq!(out.exit, ExitKind::Success);
    assert_eq!(out.value, Some(1));
}

#[test]
fn sequential_calls_observe_no_shared_state() {
    let sandbox = executor_with(&[("bump", "bump", CallSignature::PairI32ToI32, COUNTER_WAT)]);
    let first = sandbox
        .execute(&"bump".to_string(), CallParams::PairI32(1, 0), FUEL)
        .unwrap();
    let second = sandbox
        .execute(&"bump".to_string(), CallParams::PairI32(1, 7), FUEL)
        .unwrap();
    // a fresh instance per call: the counter never carries over
    assert_eq!(first.value, Some(1));
    assert_eq!(second.value, Some(1));
}

#[test]
fn runaway_call_exhausts_its_budget_as_a_timeout() {
    let sandbox = executor_with(&[("spin", "spin", CallSignature::PairI32ToI32, SPIN_WAT)]);
    let out = sandbox
        .execute(&"spin".to_string(), CallParams::PairI32(0, 0), 10_000)
        .unwrap();
    assert_eq!(out.exit, ExitKind::TimeOut);
    assert!(out.value.is_none());

    // the executor remains available for the next call
    let mut sandbox = sandbox;
    sandbox
        .load("add".to_string(), "add".to_string(), CallSignature::PairI32ToI32, ADD_WAT.as_bytes())
        .unwrap();
    let out = sandbox
        .execute(&"add".to_string(), CallParams::PairI32(2, 3), FUEL)
        .unwrap();
    assert_eq!(out.value, Some(5));
}

#[test]
fn unit_signature_runs_to_completion() {
    let sandbox = executor_with(&[("noop", "noop", CallSignature::UnitToUnit, NOOP_WAT)]);
    let out = sandbox.execute(&"noop".to_string(), CallParams::Unit, FUEL).unwrap();
    assert_eq!(out.exit, ExitKind::Success);
    assert!(out.value.is_none());
}

#[test]
fn unknown_function_and_bad_params_fail_before_the_module() {
    let sandbox = executor_with(&[("add", "add", CallSignature::PairI32ToI32, ADD_WAT)]);
    assert_eq!(
        sandbox.execute(&"mul".to_string(), CallParams::PairI32(2, 3), FUEL),
        Err(SandboxError::UnknownFunction)
    );
    assert_eq!(
        sandbox.execute(&"add".to_string(), CallParams::Unit, FUEL),
        Err(SandboxError::SignatureMismatch)
    );
}

#[test]
fn missing_entry_point_is_a_bounded_failure() {
    // the module is valid but exports another name with another type
    let sandbox = executor_with(&[("add", "missing", CallSignature::PairI32ToI32, NOOP_WAT)]);
    let out = sandbox
        .execute(&"add".to_string(), CallParams::PairI32(2, 3), FUEL)
        .unwrap();
    assert_eq!(out.exit, ExitKind::Failure { exit_code: BAD_ENTRY_POINT_EXIT_CODE });
}

#[test]
fn invalid_module_bytes_fail_at_load_time() {
    let mut sandbox = SandboxExecutor::new().unwrap();
    let r = sandbox.load(
        "broken".to_string(),
        "broken".to_string(),
        CallSignature::PairI32ToI32,
        b"not a module",
    );
    assert!(r.is_err());
    assert_eq!(
        sandbox.execute(&"broken".to_string(), CallParams::PairI32(1, 1), FUEL),
        Err(SandboxError::UnknownFunction)
    );
}

#[test]
fn reloading_a_name_replaces_its_module() {
    let mut sandbox = executor_with(&[("op", "add", CallSignature::PairI32ToI32, ADD_WAT)]);
    let out = sandbox.execute(&"op".to_string(), CallParams::PairI32(2, 3), FUEL).unwrap();
    assert_eq!(out.value, Some(5));
    sandbox
        .load("op".to_string(), "sub".to_string(), CallSignature::PairI32ToI32, SUB_WAT.as_bytes())
        .unwrap();
    let out = sandbox.execute(&"op".to_string(), CallParams::PairI32(2, 3), FUEL).unwrap();
    assert_eq!(out.value, Some(-1));
}
