//! The sandboxed execution boundary: pre-loaded WASM modules keyed by
//! function name, a typed call boundary checked before the call, a fresh
//! store and instance per call so no state leaks between invocations, and a
//! per-call fuel budget whose exhaustion is classified as a timeout. Faults
//! inside the module are caught and classified, never propagated.

use vstd::prelude::*;

verus! {

use crate::types::ExitKind;

/// The declared outside type of the shared WASM engine. The engine and its
/// compilation cache are read-only and shared; only the per-call store is
/// exclusive to one invocation.
#[verifier::external_type_specification]
#[verifier::external_body]
pub struct ExEngine(wasmtime::Engine);

/// The declared outside type of one compiled WASM module.
#[verifier::external_type_specification]
#[verifier::external_body]
pub struct ExModule(wasmtime::Module);

/// The declared outside type of the engine's error reports.
#[verifier::external_type_specification]
#[verifier::external_body]
pub struct ExEngineError(wasmtime::Error);

/// The declared outside type of one per-call store.
#[verifier::external_type_specification]
#[verifier::external_body]
#[verifier::reject_recursive_types(T)]
pub struct ExStore<T: 'static>(wasmtime::Store<T>);

/// The declared outside type of one linker supplying a module's imports.
#[verifier::external_type_specification]
#[verifier::external_body]
#[verifier::reject_recursive_types(T)]
pub struct ExLinker<T>(wasmtime::Linker<T>);

/// The declared outside type of one call's WASI host context.
#[verifier::external_type_specification]
#[verifier::external_body]
pub struct ExWasiP1Ctx(wasmtime_wasi::p1::WasiP1Ctx);

/// The closed set of call signatures the platform knows; adding a function
/// with one of these shapes is a data change, not a code change.
#[derive(Clone, Copy, Debug, PartialEq, Eq, Structural)]
pub enum CallSignature {
    /// Two 32-bit integers in, one out.
    PairI32ToI32,
    /// No parameters, no result.
    UnitToUnit,
}

/// Typed parameters for one invocation.
#[derive(Clone, Copy, Debug, PartialEq, Eq, Structural)]
pub enum CallParams {
    PairI32(i32, i32),
    Unit,
}

/// The signature a parameter value fits.
pub open spec fn params_signature(p: CallParams) -> CallSignature {
    match p {
        CallParams::PairI32(_, _) => CallSignature::PairI32ToI32,
        CallParams::Unit => CallSignature::UnitToUnit,
    }
}

/// Everything one raw call can come back with.
#[derive(Clone, Copy, Debug, PartialEq, Eq, Structural)]
pub enum CallOutcome {
    /// The module returned a value.
    Value(i32),
    /// The module ran to completion with no result.
    Done,
    /// The module lacks the entry point, or its export has another type.
    MissingEntry,
    /// The module faulted: a trap such as division by zero or an
    /// out-of-bounds access, caught at the boundary.
    Trapped,
    /// The per-call fuel budget ran out before the module finished.
    FuelExhausted,
    /// A fresh instance could not be made for the call.
    InstantiationFailed,
}

/// The exit code classifying an in-module trap.
pub const TRAP_EXIT_CODE: u8 = 1;

/// The exit code classifying a failed instantiation.
pub const INSTANTIATION_EXIT_CODE: u8 = 2;

/// The exit code classifying a missing or mistyped entry point.
pub const BAD_ENTRY_POINT_EXIT_CODE: u8 = 3;

/// How one raw outcome is reported: a bounded failure mode, never a crash.
pub open spec fn spec_classify(o: CallOutcome) -> ExitKind {
    match o {
        CallOutcome::Value(_) => ExitKind::Success,
        CallOutcome::Done => ExitKind::Success,
        CallOutcome::MissingEntry => ExitKind::Failure { exit_code: BAD_ENTRY_POINT_EXIT_CODE },
        CallOutcome::Trapped => ExitKind::Failure { exit_code: TRAP_EXIT_CODE },
        CallOutcome::FuelExhausted => ExitKind::TimeOut,
        CallOutcome::InstantiationFailed => ExitKind::Failure {
            exit_code: INSTANTIATION_EXIT_CODE,
        },
    }
}

/// Classifies one raw outcome: success carries the returned value, a trap
/// and a bad entry point become nonzero exit codes, exhausted fuel becomes
/// a timeout.
pub fn classify_outcome(o: CallOutcome) -> (r: SandboxOutcome)
    ensures
        r.exit == spec_classify(o),
        r.value == (match o {
            CallOutcome::Value(v) => Some(v),
            _ => None::<i32>,
        }),
{
    match o {
        CallOutcome::Value(v) => SandboxOutcome { exit: ExitKind::Success, value: Some(v) },
        CallOutcome::Done => SandboxOutcome { exit: ExitKind::Success, value: None },
        CallOutcome::MissingEntry => SandboxOutcome {
            exit: ExitKind::Failure { exit_code: BAD_ENTRY_POINT_EXIT_CODE },
            value: None,
        },
        CallOutcome::Trapped => SandboxOutcome {
            exit: ExitKind::Failure { exit_code: TRAP_EXIT_CODE },
            value: None,
        },
        CallOutcome::FuelExhausted => SandboxOutcome { exit: ExitKind::TimeOut, value: None },
        CallOutcome::InstantiationFailed => SandboxOutcome {
            exit: ExitKind::Failure { exit_code: INSTANTIATION_EXIT_CODE },
            value: None,
        },
    }
}

/// The classified end of one invocation.
#[derive(Clone, Copy, Debug, PartialEq, Eq, Structural)]
pub struct SandboxOutcome {
    pub exit: ExitKind,
    pub value: Option<i32>,
}

/// Why a call never reached the module.
#[derive(Clone, Copy, Debug, PartialEq, Eq, Structural)]
pub enum SandboxError {
    /// No module is loaded under the name.
    UnknownFunction,
    /// The parameters do not fit the function's declared signature.
    SignatureMismatch,
}

/// The module could not be compiled at load time; fatal for that function,
/// never a per-call error.
#[derive(Clone, Copy, Debug, PartialEq, Eq, Structural)]
pub struct InvalidModule;

/// Relies on wasmtime::Config::consume_fuel and wasmtime::Engine::new: an
/// engine whose stores meter fuel, so every call runs under a budget.
#[verifier::external_body]
fn engine_with_fuel() -> Result<wasmtime::Engine, wasmtime::Error> {
    let mut config = wasmtime::Config::new();
    config.consume_fuel(true);
    wasmtime::Engine::new(&config)
}

/// Relies on wasmtime::Module::new: compiles module bytes (binary or text)
/// for the engine, failing on invalid input.
#[verifier::external_body]
fn compile_module(engine: &wasmtime::Engine, bytes: &[u8]) -> Result<
    wasmtime::Module,
    wasmtime::Error,
> {
    wasmtime::Module::new(engine, bytes)
}

/// Relies on wasmtime_wasi's preview1 surface and wasmtime Store/Linker:
/// one call's sandbox — a fresh store holding a fresh WASI host context
/// (inherited standard I/O and arguments) under the fuel budget, and a
/// linker supplying the preview1 imports.
#[verifier::external_body]
fn fresh_wasi_store(engine: &wasmtime::Engine, fuel: u64) -> Option<
    (wasmtime::Store<wasmtime_wasi::p1::WasiP1Ctx>, wasmtime::Linker<wasmtime_wasi::p1::WasiP1Ctx>),
> {
    let wasi = wasmtime_wasi::WasiCtxBuilder::new().inherit_stdio().inherit_args().build_p1();
    let mut store = wasmtime::Store::new(engine, wasi);
    if store.set_fuel(fuel).is_err() { return None; }
    let mut linker = wasmtime::Linker::new(engine);
    if wasmtime_wasi::p1::add_to_linker_sync(&mut linker, |cx| cx).is_err() { return None; }
    Some((store, linker))
}

/// Relies on wasmtime Linker/Instance/TypedFunc: runs one (i32, i32) -> i32
/// call in the fresh per-call sandbox of `fresh_wasi_store`, telling the
/// error classes apart by wasmtime's own trap codes.
#[verifier::external_body]
fn invoke_pair_i32(
    engine: &wasmtime::Engine,
    module: &wasmtime::Module,
    entrypoint: &str,
    a: i32,
    b: i32,
    fuel: u64,
) -> CallOutcome {
    let (mut store, linker) = match fresh_wasi_store(engine, fuel) { Some(x) => x, None => return CallOutcome::InstantiationFailed };
    let instance = match linker.instantiate(&mut store, module) { Ok(i) => i, Err(_) => return CallOutcome::InstantiationFailed };
    let func = match instance.get_typed_func::<(i32, i32), i32>(&mut store, entrypoint) { Ok(f) => f, Err(_) => return CallOutcome::MissingEntry };
    match func.call(&mut store, (a, b)) {
        Ok(v) => CallOutcome::Value(v),
        Err(e) => match e.downcast_ref::<wasmtime::Trap>() {
            Some(wasmtime::Trap::OutOfFuel) => CallOutcome::FuelExhausted,
            _ => CallOutcome::Trapped,
        },
    }
}

/// Relies on wasmtime Linker/Instance/TypedFunc: runs one () -> () call in
/// the fresh per-call sandbox of `fresh_wasi_store`.
#[verifier::external_body]
fn invoke_unit(
    engine: &wasmtime::Engine,
    module: &wasmtime::Module,
    entrypoint: &str,
    fuel: u64,
) -> CallOutcome {
    let (mut store, linker) = match fresh_wasi_store(engine, fuel) { Some(x) => x, None => return CallOutcome::InstantiationFailed };
    let instance = match linker.instantiate(&mut store, module) { Ok(i) => i, Err(_) => return CallOutcome::InstantiationFailed };
    let func = match instance.get_typed_func::<(), ()>(&mut store, entrypoint) { Ok(f) => f, Err(_) => return CallOutcome::MissingEntry };
    match func.call(&mut store, ()) {
        Ok(()) => CallOutcome::Done,
        Err(e) => match e.downcast_ref::<wasmtime::Trap>() {
            Some(wasmtime::Trap::OutOfFuel) => CallOutcome::FuelExhausted,
            _ => CallOutcome::Trapped,
        },
    }
}

/// One pre-loaded function: its name, its declared call signature, the
/// exported entry point, and the compiled module.
pub struct FunctionEntry {
    pub name: String,
    pub entrypoint: String,
    pub signature: CallSignature,
    pub module: wasmtime::Module,
}

/// Some entry carries the name.
pub open spec fn has_name(s: Seq<FunctionEntry>, name: Seq<char>) -> bool {
    exists|i: int| 0 <= i < s.len() && s[i].name@ == name
}

/// The position of the entry carrying the name.
pub open spec fn name_index(s: Seq<FunctionEntry>, name: Seq<char>) -> int {
    choose|i: int| 0 <= i < s.len() && s[i].name@ == name
}

/// The declared signature of the function loaded under a name, if any.
pub open spec fn spec_signature_of(s: Seq<FunctionEntry>, name: Seq<char>) -> Option<
    CallSignature,
> {
    if has_name(s, name) {
        Some(s[name_index(s, name)].signature)
    } else {
        None
    }
}

/// The worker-side executor: a shared engine and the pre-loaded modules.
/// Loading is a startup activity; per call it only looks a module up,
/// checks the typed boundary, and runs a fresh instance under a budget.
pub struct SandboxExecutor {
    pub engine: wasmtime::Engine,
    pub entries: Vec<FunctionEntry>,
}

impl SandboxExecutor {
    /// Names are unique: a lookup has one answer.
    pub open spec fn wf(&self) -> bool {
        forall|i: int, j: int|
            0 <= i < j < self.entries@.len() ==> self.entries@[i].name@ != self.entries@[j].name@
    }

    /// An executor with no functions loaded; fails only when the engine
    /// cannot be built.
    pub fn new() -> (r: Result<SandboxExecutor, InvalidModule>)
        ensures
            match r {
                Ok(e) => e.wf() && e.entries@.len() == 0,
                Err(_) => true,
            },
    {
        match engine_with_fuel() {
            Ok(engine) => Ok(SandboxExecutor { engine, entries: Vec::new() }),
            Err(_) => Err(InvalidModule),
        }
    }

    /// Compiles module bytes and loads them under a name, replacing any
    /// module already there. A compile failure changes nothing and is fatal
    /// for that function at startup, not a per-call error.
    pub fn load(
        &mut self,
        name: String,
        entrypoint: String,
        signature: CallSignature,
        bytes: &[u8],
    ) -> (r: Result<(), InvalidModule>)
        requires
            old(self).wf(),
        ensures
            final(self).wf(),
            r is Err ==> final(self).entries@ == old(self).entries@,
            r is Ok ==> spec_signature_of(final(self).entries@, name@) == Some(signature),
            r is Ok ==> forall|m: Seq<char>| m != name@ ==> #[trigger] spec_signature_of(
                final(self).entries@,
                m,
            ) == spec_signature_of(old(self).entries@, m),
    {
        let module = match compile_module(&self.engine, bytes) {
            Ok(m) => m,
            Err(_) => {
                return Err(InvalidModule);
            },
        };
        let entry = FunctionEntry { name, entrypoint, signature, module };
        let ghost s0 = self.entries@;
        let ghost nm = entry.name@;
        let n = self.entries.len();
        let mut i: usize = 0;
        while i < n
            invariant
                old(self).wf(),
                self.entries@ == s0,
                s0 == old(self).entries@,
                n == self.entries.len(),
                i <= n,
                nm == entry.name@,
                nm == name@,
                entry.signature == signature,
                forall|k: int| 0 <= k < i ==> s0[k].name@ != nm,
            decreases n - i,
        {
            if crate::catalog::string_eq(&self.entries[i].name, &entry.name) {
                proof {
                    assert(s0[i as int].name@ == nm);
                }
                self.entries.set(i, entry);
                proof {
                    let s1 = self.entries@;
                    lemma_signature_after_update(s0, i as int, s1[i as int]);
                }
                return Ok(());
            }
            i = i + 1;
        }
        self.entries.push(entry);
        proof {
            let s1 = self.entries@;
            lemma_signature_after_push(s0, s1[n as int]);
        }
        Ok(())
    }

    /// The declared signature of the function loaded under a name.
    pub fn signature_of(&self, name: &String) -> (r: Option<CallSignature>)
        requires
            self.wf(),
        ensures
            r == spec_signature_of(self.entries@, name@),
    {
        let n = self.entries.len();
        let mut i: usize = 0;
        while i < n
            invariant
                self.wf(),
                n == self.entries.len(),
                i <= n,
                forall|k: int| 0 <= k < i ==> self.entries@[k].name@ != name@,
            decreases n - i,
        {
            if crate::catalog::string_eq(&self.entries[i].name, name) {
                proof {
                    lemma_lookup_unique(self.entries@, i as int, name@);
                }
                return Some(self.entries[i].signature);
            }
            i = i + 1;
        }
        proof {
            if has_name(self.entries@, name@) {
                let k = name_index(self.entries@, name@);
                assert(0 <= k < n && self.entries@[k].name@ == name@);
            }
        }
        None
    }

    /// Runs one invocation: looks the module up (an unknown name reaches no
    /// module), checks the typed boundary (mismatched parameters reach no
    /// module), then instantiates a fresh sandbox under the fuel budget and
    /// classifies whatever the call came back with into a bounded failure
    /// mode: never a crash of the worker.
    pub fn execute(&self, name: &String, params: CallParams, fuel: u64) -> (r: Result<
        SandboxOutcome,
        SandboxError,
    >)
        requires
            self.wf(),
        ensures
            r == Err::<SandboxOutcome, SandboxError>(SandboxError::UnknownFunction)
                <==> !has_name(self.entries@, name@),
            r == Err::<SandboxOutcome, SandboxError>(SandboxError::SignatureMismatch) <==> (
            spec_signature_of(self.entries@, name@) is Some && spec_signature_of(
                self.entries@,
                name@,
            ) != Some(params_signature(params))),
            match r {
                Ok(out) => exists|o: CallOutcome|
                    out.exit == spec_classify(o) && out.value == (match o {
                        CallOutcome::Value(v) => Some(v),
                        _ => None::<i32>,
                    }),
                Err(_) => true,
            },
    {
        let n = self.entries.len();
        let mut i: usize = 0;
        while i < n
            invariant
                self.wf(),
                n == self.entries.len(),
                i <= n,
                forall|k: int| 0 <= k < i ==> self.entries@[k].name@ != name@,
            decreases n - i,
        {
            if crate::catalog::string_eq(&self.entries[i].name, name) {
                proof {
                    lemma_lookup_unique(self.entries@, i as int, name@);
                }
                let entry = &self.entries[i];
                let outcome = match (entry.signature, params) {
                    (CallSignature::PairI32ToI32, CallParams::PairI32(a, b)) => invoke_pair_i32(
                        &self.engine,
                        &entry.module,
                        entry.entrypoint.as_str(),
                        a,
                        b,
                        fuel,
                    ),
                    (CallSignature::UnitToUnit, CallParams::Unit) => invoke_unit(
                        &self.engine,
                        &entry.module,
                        entry.entrypoint.as_str(),
                        fuel,
                    ),
                    _ => {
                        return Err(SandboxError::SignatureMismatch);
                    },
                };
                let classified = classify_outcome(outcome);
                proof {
                    assert(classified.exit == spec_classify(outcome) && classified.value == (
                    match outcome {
                        CallOutcome::Value(v) => Some(v),
                        _ => None::<i32>,
                    }));
                }
                return Ok(classified);
            }
            i = i + 1;
        }
        proof {
            if has_name(self.entries@, name@) {
                let k = name_index(self.entries@, name@);
                assert(0 <= k < n && self.entries@[k].name@ == name@);
            }
        }
        Err(SandboxError::UnknownFunction)
    }
}

/// In a well-formed table, a matching position is the lookup's position.
proof fn lemma_lookup_unique(s: Seq<FunctionEntry>, i: int, name: Seq<char>)
    requires
        forall|a: int, b: int| 0 <= a < b < s.len() ==> s[a].name@ != s[b].name@,
        0 <= i < s.len(),
        s[i].name@ == name,
    ensures
        has_name(s, name),
        name_index(s, name) == i,
        spec_signature_of(s, name) == Some(s[i].signature),
{
    assert(has_name(s, name));
    let k = name_index(s, name);
    assert(s[k].name@ == name);
    if k < i {
        assert(s[k].name@ != s[i].name@);
    }
    if i < k {
        assert(s[i].name@ != s[k].name@);
    }
}

/// After replacing the entry at a matching position, lookups see the new
/// entry there and the old entries elsewhere.
proof fn lemma_signature_after_update(s: Seq<FunctionEntry>, i: int, e: FunctionEntry)
    requires
        forall|a: int, b: int| 0 <= a < b < s.len() ==> s[a].name@ != s[b].name@,
        0 <= i < s.len(),
        s[i].name@ == e.name@,
    ensures
        forall|a: int, b: int|
            0 <= a < b < s.update(i, e).len() ==> s.update(i, e)[a].name@ != s.update(
                i,
                e,
            )[b].name@,
        spec_signature_of(s.update(i, e), e.name@) == Some(e.signature),
        forall|m: Seq<char>| m != e.name@ ==> #[trigger] spec_signature_of(s.update(i, e), m)
            == spec_signature_of(s, m),
{
    let t = s.update(i, e);
    assert forall|a: int, b: int| 0 <= a < b < t.len() implies t[a].name@ != t[b].name@ by {
        assert(t[a].name@ == s[a].name@ || a == i);
        assert(t[b].name@ == s[b].name@ || b == i);
    }
    lemma_lookup_unique(t, i, e.name@);
    assert forall|m: Seq<char>| m != e.name@ implies #[trigger] spec_signature_of(t, m)
        == spec_signature_of(s, m) by {
        if has_name(t, m) {
            let k = name_index(t, m);
            assert(t[k].name@ == m);
            assert(k != i);
            assert(s[k].name@ == m);
            lemma_lookup_unique(s, k, m);
            lemma_lookup_unique(t, k, m);
        }
        if has_name(s, m) {
            let k = name_index(s, m);
            assert(s[k].name@ == m);
            assert(k != i);
            assert(t[k].name@ == m);
            assert(has_name(t, m));
        }
    }
}

/// After appending an entry under a fresh name, lookups see it under that
/// name and the old entries elsewhere.
proof fn lemma_signature_after_push(s: Seq<FunctionEntry>, e: FunctionEntry)
    requires
        forall|a: int, b: int| 0 <= a < b < s.len() ==> s[a].name@ != s[b].name@,
        forall|k: int| 0 <= k < s.len() ==> s[k].name@ != e.name@,
    ensures
        forall|a: int, b: int|
            0 <= a < b < s.push(e).len() ==> s.push(e)[a].name@ != s.push(e)[b].name@,
        spec_signature_of(s.push(e), e.name@) == Some(e.signature),
        forall|m: Seq<char>| m != e.name@ ==> #[trigger] spec_signature_of(s.push(e), m)
            == spec_signature_of(s, m),
{
    let t = s.push(e);
    let n = s.len() as int;
    assert forall|a: int, b: int| 0 <= a < b < t.len() implies t[a].name@ != t[b].name@ by {
        if b == n {
            assert(t[a].name@ == s[a].name@);
        } else {
            assert(t[a].name@ == s[a].name@ && t[b].name@ == s[b].name@);
        }
    }
    lemma_lookup_unique(t, n, e.name@);
    assert forall|m: Seq<char>| m != e.name@ implies #[trigger] spec_signature_of(t, m)
        == spec_signature_of(s, m) by {
        if has_name(t, m) {
            let k = name_index(t, m);
            assert(t[k].name@ == m);
            assert(k != n);
            assert(s[k].name@ == m);
            lemma_lookup_unique(s, k, m);
            lemma_lookup_unique(t, k, m);
        }
        if has_name(s, m) {
            let k = name_index(s, m);
            assert(s[k].name@ == m);
            assert(t[k].name@ == m);
            assert(has_name(t, m));
        }
    }
}

} // verus!
