//! The function catalog: registered functions keyed by identifier, and the
//! routing table binding a two-level logical path to a function. Both
//! tables are duplicate-free; callers serialise access with one lock.

use vstd::prelude::*;

verus! {

use crate::types::{BlobAddress, Id, JsonShape, TimeStamp};

/// The accepted top-level shape of a request payload; a descriptor, not a
/// full schema.
#[derive(Debug)]
pub enum InputKind {
    Nothing,
    List(Box<InputKind>),
    Object,
    Text,
    Number,
}

impl Clone for InputKind {
    fn clone(&self) -> (r: InputKind)
        ensures
            r == *self,
        decreases self,
    {
        match self {
            InputKind::Nothing => InputKind::Nothing,
            InputKind::List(inner) => InputKind::List(Box::new((**inner).clone())),
            InputKind::Object => InputKind::Object,
            InputKind::Text => InputKind::Text,
            InputKind::Number => InputKind::Number,
        }
    }
}

/// The runtime a function's module targets.
#[derive(Clone, Copy, Debug, PartialEq, Eq, Structural)]
pub enum Runtime {
    Wasm,
}

/// The identity of one registered function.
#[derive(Clone, Copy, Debug, PartialEq, Eq, Structural, PartialOrd, Ord, Hash)]
pub struct FunctionId(pub Id);

/// One registered function: identity, naming, accepted input shape, and
/// where its module bytes live.
#[derive(Debug)]
pub struct Function {
    pub id: FunctionId,
    pub name: String,
    pub description: String,
    pub create_time: TimeStamp,
    pub runtime: Runtime,
    pub input_type: InputKind,
    pub blob_address: BlobAddress,
}

impl Clone for Function {
    fn clone(&self) -> (r: Function)
        ensures
            r == *self,
    {
        Function {
            id: self.id,
            name: self.name.clone(),
            description: self.description.clone(),
            create_time: self.create_time,
            runtime: self.runtime,
            input_type: self.input_type.clone(),
            blob_address: BlobAddress { location: self.blob_address.location.clone() },
        }
    }
}

impl Function {
    /// A function record with every part given.
    pub fn new(
        id: FunctionId,
        name: String,
        description: String,
        create_time: TimeStamp,
        input_type: InputKind,
        blob_address: BlobAddress,
    ) -> (r: Function)
        ensures
            r == (Function { id, name, description, create_time, runtime: Runtime::Wasm, input_type, blob_address }),
    {
        Function { id, name, description, create_time, runtime: Runtime::Wasm, input_type, blob_address }
    }
}

/// The first level of a logical path.
#[derive(Debug, PartialEq, Eq)]
pub struct Root(pub String);

impl Clone for Root {
    fn clone(&self) -> (r: Root)
        ensures
            r == *self,
    {
        Root(self.0.clone())
    }
}

/// The second level of a logical path.
#[derive(Debug, PartialEq, Eq)]
pub struct SubPath(pub String);

impl Clone for SubPath {
    fn clone(&self) -> (r: SubPath)
        ensures
            r == *self,
    {
        SubPath(self.0.clone())
    }
}

/// One routing binding: the pair (root, sub_path) resolves to the function.
#[derive(Debug)]
pub struct PathEntry {
    pub root: Root,
    pub sub_path: SubPath,
    pub function: Function,
}

impl Clone for PathEntry {
    fn clone(&self) -> (r: PathEntry)
        ensures
            r == *self,
    {
        PathEntry { root: self.root.clone(), sub_path: self.sub_path.clone(), function: self.function.clone() }
    }
}

impl PathEntry {
    /// A binding with every part given.
    pub fn new(root: Root, sub_path: SubPath, function: Function) -> (r: PathEntry)
        ensures
            r == (PathEntry { root, sub_path, function }),
    {
        PathEntry { root, sub_path, function }
    }

    /// The first path level.
    pub fn root(&self) -> (r: &Root)
        ensures
            r == self.root,
    {
        &self.root
    }

    /// The second path level.
    pub fn sub_path(&self) -> (r: &SubPath)
        ensures
            r == self.sub_path,
    {
        &self.sub_path
    }

    /// The bound function.
    pub fn function(&self) -> (r: &Function)
        ensures
            r == self.function,
    {
        &self.function
    }

    /// The binding's root, read in specifications.
    pub open spec fn spec_root(&self) -> Root {
        self.root
    }

    /// The binding's sub path, read in specifications.
    pub open spec fn spec_sub_path(&self) -> SubPath {
        self.sub_path
    }

    /// The binding's function, read in specifications.
    pub open spec fn spec_function(&self) -> Function {
        self.function
    }
}

/// A point lookup names an unknown identifier or path.
#[derive(Clone, Copy, Debug, PartialEq, Eq, Structural)]
pub struct NotFound;

/// Some registered function carries the identifier.
pub open spec fn has_function(s: Seq<Function>, id: FunctionId) -> bool {
    exists|i: int| 0 <= i < s.len() && s[i].id == id
}

/// The position of the function carrying the identifier.
pub open spec fn function_index(s: Seq<Function>, id: FunctionId) -> int {
    choose|i: int| 0 <= i < s.len() && s[i].id == id
}

/// The function registered under an identifier, if any.
pub open spec fn spec_function_get(s: Seq<Function>, id: FunctionId) -> Option<Function> {
    if has_function(s, id) {
        Some(s[function_index(s, id)])
    } else {
        None
    }
}

/// Does a binding carry the path, compared by text?
pub open spec fn entry_matches(e: PathEntry, root: Seq<char>, sub: Seq<char>) -> bool {
    e.spec_root().0@ == root && e.spec_sub_path().0@ == sub
}

/// Some binding carries the path.
pub open spec fn has_path(s: Seq<PathEntry>, root: Seq<char>, sub: Seq<char>) -> bool {
    exists|i: int| 0 <= i < s.len() && entry_matches(s[i], root, sub)
}

/// The position of the binding carrying the path.
pub open spec fn path_index(s: Seq<PathEntry>, root: Seq<char>, sub: Seq<char>) -> int {
    choose|i: int| 0 <= i < s.len() && entry_matches(s[i], root, sub)
}

/// The function a path resolves to, if any.
pub open spec fn spec_resolve(s: Seq<PathEntry>, root: Seq<char>, sub: Seq<char>) -> Option<
    Function,
> {
    if has_path(s, root, sub) {
        Some(s[path_index(s, root, sub)].spec_function())
    } else {
        None
    }
}

/// Registered functions and the routing table. Each function identifier and
/// each (root, sub_path) pair appears at most once.
pub struct FunctionCatalog {
    pub functions: Vec<Function>,
    pub paths: Vec<PathEntry>,
}

impl FunctionCatalog {
    /// Well-formedness: identifiers unique, path keys unique.
    pub open spec fn wf(&self) -> bool {
        &&& forall|i: int, j: int|
            0 <= i < j < self.functions@.len() ==> self.functions@[i].id != self.functions@[j].id
        &&& forall|i: int, j: int|
            0 <= i < j < self.paths@.len() ==> !entry_matches(
                self.paths@[i],
                self.paths@[j].spec_root().0@,
                self.paths@[j].spec_sub_path().0@,
            )
    }

    /// An empty catalog.
    pub fn new() -> (r: FunctionCatalog)
        ensures
            r.wf(),
            r.functions@.len() == 0,
            r.paths@.len() == 0,
    {
        FunctionCatalog { functions: Vec::new(), paths: Vec::new() }
    }

    /// Registers a function under its identifier; re-registering the same
    /// identifier overwrites. The routing table is untouched.
    pub fn register(&mut self, function: Function)
        requires
            old(self).wf(),
        ensures
            final(self).wf(),
            spec_function_get(final(self).functions@, function.id) == Some(function),
            forall|x: FunctionId| x != function.id ==> #[trigger] spec_function_get(
                final(self).functions@,
                x,
            ) == spec_function_get(old(self).functions@, x),
            final(self).paths@ == old(self).paths@,
    {
        let ghost s0 = self.functions@;
        let n = self.functions.len();
        let mut i: usize = 0;
        while i < n
            invariant
                old(self).wf(),
                self.functions@ == s0,
                s0 == old(self).functions@,
                self.paths@ == old(self).paths@,
                n == self.functions.len(),
                i <= n,
                forall|k: int| 0 <= k < i ==> s0[k].id != function.id,
            decreases n - i,
        {
            if self.functions[i].id.0.value == function.id.0.value {
                proof {
                    assert(s0[i as int].id == function.id);
                }
                self.functions.set(i, function);
                proof {
                    let s1 = self.functions@;
                    lemma_function_get_after_update(s0, i as int, s1[i as int], function.id);
                    assert forall|x: FunctionId| x != function.id implies #[trigger]
                        spec_function_get(s1, x) == spec_function_get(s0, x) by {
                        lemma_function_get_after_update(s0, i as int, s1[i as int], x);
                    }
                }
                return ;
            }
            i = i + 1;
        }
        self.functions.push(function);
        proof {
            let s1 = self.functions@;
            assert(s1.drop_last() =~= s0);
            assert(s1[n as int].id == function.id);
            assert(has_function(s1, function.id));
            assert(s1[function_index(s1, function.id)].id == function.id);
            assert forall|a: int, b: int| 0 <= a < b < s1.len() implies s1[a].id != s1[b].id by {
                if b == n {
                    assert(s1[a] == s0[a]);
                }
            }
            assert(function_index(s1, function.id) == n as int) by {
                let k = function_index(s1, function.id);
                if k != n {
                    assert(s1[k].id != s1[n as int].id);
                }
            }
            assert forall|x: FunctionId| x != function.id implies #[trigger] spec_function_get(
                s1,
                x,
            ) == spec_function_get(s0, x) by {
                if has_function(s1, x) {
                    let k = function_index(s1, x);
                    assert(0 <= k < s1.len() && s1[k].id == x);
                    assert(k != n);
                    assert(s0[k].id == x);
                    assert(has_function(s0, x));
                    let k0 = function_index(s0, x);
                    assert(s0[k0].id == x);
                    if k0 != k {
                        assert(s1[k0].id != s1[k].id);
                    }
                }
                if has_function(s0, x) {
                    let k = function_index(s0, x);
                    assert(s0[k].id == x);
                    assert(s1[k].id == x);
                    assert(has_function(s1, x));
                }
            }
        }
    }

    /// The function registered under an identifier.
    pub fn function_by_id(&self, id: FunctionId) -> (r: Option<Function>)
        requires
            self.wf(),
        ensures
            r == spec_function_get(self.functions@, id),
    {
        let n = self.functions.len();
        let mut i: usize = 0;
        while i < n
            invariant
                self.wf(),
                n == self.functions.len(),
                i <= n,
                forall|k: int| 0 <= k < i ==> self.functions@[k].id != id,
            decreases n - i,
        {
            if self.functions[i].id.0.value == id.0.value {
                proof {
                    let s = self.functions@;
                    assert(s[i as int].id == id);
                    assert(has_function(s, id));
                    let k = function_index(s, id);
                    assert(s[k].id == id);
                    if k != i {
                        assert(s[k].id != s[i as int].id);
                    }
                }
                return Some(self.functions[i].clone());
            }
            i = i + 1;
        }
        proof {
            if has_function(self.functions@, id) {
                let k = function_index(self.functions@, id);
                assert(0 <= k < n && self.functions@[k].id == id);
            }
        }
        None
    }

    /// Binds a path to a registered function, overwriting any binding of
    /// the same path; fails with NotFound exactly when the identifier is
    /// not registered, and then changes nothing.
    pub fn bind_path(&mut self, root: Root, sub_path: SubPath, function_id: FunctionId) -> (r:
        Result<(), NotFound>)
        requires
            old(self).wf(),
        ensures
            final(self).wf(),
            final(self).functions@ == old(self).functions@,
            r is Ok <==> has_function(old(self).functions@, function_id),
            r is Err ==> final(self).paths@ == old(self).paths@,
            r is Ok ==> spec_resolve(final(self).paths@, root.0@, sub_path.0@)
                == spec_function_get(old(self).functions@, function_id),
            forall|t: Seq<char>, u: Seq<char>|
                !(t == root.0@ && u == sub_path.0@) ==> #[trigger] spec_resolve(
                    final(self).paths@,
                    t,
                    u,
                ) == spec_resolve(old(self).paths@, t, u),
    {
        let function = match self.function_by_id(function_id) {
            Some(f) => f,
            None => {
                return Err(NotFound);
            },
        };
        let entry = PathEntry { root, sub_path, function };
        let ghost s0 = self.paths@;
        let ghost rt = entry.root.0@;
        let ghost su = entry.sub_path.0@;
        proof {
            assert(rt == root.0@ && su == sub_path.0@);
        }
        let n = self.paths.len();
        let mut i: usize = 0;
        while i < n
            invariant
                old(self).wf(),
                self.functions@ == old(self).functions@,
                self.paths@ == s0,
                s0 == old(self).paths@,
                n == self.paths.len(),
                i <= n,
                rt == entry.root.0@,
                su == entry.sub_path.0@,
                rt == root.0@,
                su == sub_path.0@,
                has_function(old(self).functions@, function_id),
                spec_function_get(old(self).functions@, function_id) == Some(
                    entry.spec_function(),
                ),
                forall|k: int| 0 <= k < i ==> !entry_matches(s0[k], rt, su),
            decreases n - i,
        {
            let hit = string_eq(&self.paths[i].root.0, &entry.root.0) && string_eq(
                &self.paths[i].sub_path.0,
                &entry.sub_path.0,
            );
            if hit {
                proof {
                    assert(entry_matches(s0[i as int], rt, su));
                }
                self.paths.set(i, entry);
                proof {
                    let s1 = self.paths@;
                    lemma_resolve_after_update(s0, i as int, s1[i as int], rt, su);
                }
                return Ok(());
            }
            i = i + 1;
        }
        self.paths.push(entry);
        proof {
            let s1 = self.paths@;
            lemma_resolve_after_push(s0, s1[n as int], rt, su);
        }
        Ok(())
    }

    /// The function a path resolves to; the per-call lookup the dispatcher
    /// performs.
    pub fn resolve(&self, root: &Root, sub_path: &SubPath) -> (r: Option<Function>)
        requires
            self.wf(),
        ensures
            r == spec_resolve(self.paths@, root.0@, sub_path.0@),
    {
        let n = self.paths.len();
        let mut i: usize = 0;
        while i < n
            invariant
                self.wf(),
                n == self.paths.len(),
                i <= n,
                forall|k: int| 0 <= k < i ==> !entry_matches(self.paths@[k], root.0@, sub_path.0@),
            decreases n - i,
        {
            let hit = string_eq(&self.paths[i].root.0, &root.0) && string_eq(
                &self.paths[i].sub_path.0,
                &sub_path.0,
            );
            if hit {
                proof {
                    let s = self.paths@;
                    assert(entry_matches(s[i as int], root.0@, sub_path.0@));
                    assert(has_path(s, root.0@, sub_path.0@));
                    let k = path_index(s, root.0@, sub_path.0@);
                    assert(entry_matches(s[k], root.0@, sub_path.0@));
                    if k != i {
                        lemma_match_unique(s, k, i as int, root.0@, sub_path.0@);
                    }
                }
                return Some(self.paths[i].function.clone());
            }
            i = i + 1;
        }
        proof {
            if has_path(self.paths@, root.0@, sub_path.0@) {
                let k = path_index(self.paths@, root.0@, sub_path.0@);
                assert(0 <= k < n && entry_matches(self.paths@[k], root.0@, sub_path.0@));
            }
        }
        None
    }
}

/// Compares two strings by their characters.
pub(crate) fn string_eq(a: &String, b: &String) -> (r: bool)
    ensures
        r == (a@ == b@),
{
    a.eq(b)
}

/// After replacing the function at a matching position (same identifier),
/// lookups see the new record there and the old records elsewhere.
proof fn lemma_function_get_after_update(s: Seq<Function>, i: int, f: Function, x: FunctionId)
    requires
        forall|a: int, b: int| 0 <= a < b < s.len() ==> s[a].id != s[b].id,
        0 <= i < s.len(),
        s[i].id == f.id,
    ensures
        forall|a: int, b: int|
            0 <= a < b < s.update(i, f).len() ==> s.update(i, f)[a].id != s.update(i, f)[b].id,
        spec_function_get(s.update(i, f), x) == if x == f.id {
            Some(f)
        } else {
            spec_function_get(s, x)
        },
{
    let t = s.update(i, f);
    assert forall|a: int, b: int| 0 <= a < b < t.len() implies t[a].id != t[b].id by {
        assert(t[a].id == s[a].id && t[b].id == s[b].id);
    }
    if x == f.id {
        assert(t[i].id == x);
        assert(has_function(t, x));
        let k = function_index(t, x);
        assert(t[k].id == x);
        if k != i {
            assert(t[k].id != t[i].id);
        }
    } else {
        if has_function(t, x) {
            let k = function_index(t, x);
            assert(0 <= k < t.len() && t[k].id == x);
            assert(k != i);
            assert(s[k].id == x);
            assert(has_function(s, x));
            let k0 = function_index(s, x);
            assert(s[k0].id == x);
            if k0 < k {
                assert(s[k0].id != s[k].id);
            }
            if k < k0 {
                assert(s[k].id != s[k0].id);
            }
        }
        if has_function(s, x) {
            let k = function_index(s, x);
            assert(s[k].id == x);
            assert(k != i);
            assert(t[k].id == x);
            assert(has_function(t, x));
        }
    }
}

/// In a well-formed routing table, two positions matching the same path are
/// equal.
proof fn lemma_match_unique(s: Seq<PathEntry>, i: int, j: int, root: Seq<char>, sub: Seq<char>)
    requires
        forall|a: int, b: int|
            0 <= a < b < s.len() ==> !entry_matches(
                s[a],
                s[b].spec_root().0@,
                s[b].spec_sub_path().0@,
            ),
        0 <= i < s.len(),
        0 <= j < s.len(),
        entry_matches(s[i], root, sub),
        entry_matches(s[j], root, sub),
    ensures
        i == j,
{
    if i < j {
        assert(!entry_matches(s[i], s[j].spec_root().0@, s[j].spec_sub_path().0@));
    }
    if j < i {
        assert(!entry_matches(s[j], s[i].spec_root().0@, s[i].spec_sub_path().0@));
    }
}

/// After replacing the binding at a matching position, the path resolves to
/// the new function and every other path as before.
proof fn lemma_resolve_after_update(
    s: Seq<PathEntry>,
    i: int,
    e: PathEntry,
    root: Seq<char>,
    sub: Seq<char>,
)
    requires
        forall|a: int, b: int|
            0 <= a < b < s.len() ==> !entry_matches(
                s[a],
                s[b].spec_root().0@,
                s[b].spec_sub_path().0@,
            ),
        0 <= i < s.len(),
        entry_matches(s[i], root, sub),
        entry_matches(e, root, sub),
        e.spec_root().0@ == root,
        e.spec_sub_path().0@ == sub,
    ensures
        forall|a: int, b: int|
            0 <= a < b < s.update(i, e).len() ==> !entry_matches(
                s.update(i, e)[a],
                s.update(i, e)[b].spec_root().0@,
                s.update(i, e)[b].spec_sub_path().0@,
            ),
        spec_resolve(s.update(i, e), root, sub) == Some(e.spec_function()),
        forall|t: Seq<char>, u: Seq<char>|
            !(t == root && u == sub) ==> #[trigger] spec_resolve(s.update(i, e), t, u)
                == spec_resolve(s, t, u),
{
    let s1 = s.update(i, e);
    assert forall|a: int, b: int| 0 <= a < b < s1.len() implies !entry_matches(
        s1[a],
        s1[b].spec_root().0@,
        s1[b].spec_sub_path().0@,
    ) by {
        if a == i {
            if entry_matches(s1[a], s1[b].spec_root().0@, s1[b].spec_sub_path().0@) {
                assert(entry_matches(s[i], s[b].spec_root().0@, s[b].spec_sub_path().0@));
            }
        } else if b == i {
            if entry_matches(s1[a], s1[b].spec_root().0@, s1[b].spec_sub_path().0@) {
                assert(entry_matches(s[a], root, sub));
                lemma_match_unique(s, a, i, root, sub);
            }
        }
    }
    assert(entry_matches(s1[i], root, sub));
    assert(has_path(s1, root, sub));
    let k = path_index(s1, root, sub);
    assert(entry_matches(s1[k], root, sub));
    lemma_match_unique(s1, k, i, root, sub);
    assert forall|t: Seq<char>, u: Seq<char>| !(t == root && u == sub) implies #[trigger]
        spec_resolve(s1, t, u) == spec_resolve(s, t, u) by {
        if has_path(s1, t, u) {
            let a = path_index(s1, t, u);
            assert(entry_matches(s1[a], t, u));
            assert(a != i);
            assert(entry_matches(s[a], t, u));
            assert(has_path(s, t, u));
            let a0 = path_index(s, t, u);
            assert(entry_matches(s[a0], t, u));
            if a0 != a {
                if a0 != i {
                    lemma_match_unique(s, a0, a, t, u);
                } else {
                    assert(entry_matches(s[i], root, sub) && entry_matches(s[i], t, u));
                    assert(t == root && u == sub);
                }
            } else {
                assert(spec_resolve(s1, t, u) == spec_resolve(s, t, u));
            }
        }
        if has_path(s, t, u) {
            let a = path_index(s, t, u);
            assert(entry_matches(s[a], t, u));
            if a == i {
                assert(t == root && u == sub);
            }
            assert(entry_matches(s1[a], t, u));
            assert(has_path(s1, t, u));
        }
    }
}

/// After appending a binding for a fresh path, that path resolves to the
/// new function and every other path as before.
proof fn lemma_resolve_after_push(s: Seq<PathEntry>, e: PathEntry, root: Seq<char>, sub: Seq<char>)
    requires
        forall|a: int, b: int|
            0 <= a < b < s.len() ==> !entry_matches(
                s[a],
                s[b].spec_root().0@,
                s[b].spec_sub_path().0@,
            ),
        forall|k: int| 0 <= k < s.len() ==> !entry_matches(s[k], root, sub),
        entry_matches(e, root, sub),
        e.spec_root().0@ == root,
        e.spec_sub_path().0@ == sub,
    ensures
        forall|a: int, b: int|
            0 <= a < b < s.push(e).len() ==> !entry_matches(
                s.push(e)[a],
                s.push(e)[b].spec_root().0@,
                s.push(e)[b].spec_sub_path().0@,
            ),
        spec_resolve(s.push(e), root, sub) == Some(e.spec_function()),
        forall|t: Seq<char>, u: Seq<char>|
            !(t == root && u == sub) ==> #[trigger] spec_resolve(s.push(e), t, u) == spec_resolve(
                s,
                t,
                u,
            ),
{
    let s1 = s.push(e);
    let n = s.len() as int;
    assert forall|a: int, b: int| 0 <= a < b < s1.len() implies !entry_matches(
        s1[a],
        s1[b].spec_root().0@,
        s1[b].spec_sub_path().0@,
    ) by {
        if b == n {
            assert(s1[a] == s[a]);
            assert(s1[b] == e);
        } else {
            assert(s1[a] == s[a] && s1[b] == s[b]);
        }
    }
    assert(entry_matches(s1[n], root, sub));
    assert(has_path(s1, root, sub));
    let k = path_index(s1, root, sub);
    assert(entry_matches(s1[k], root, sub));
    if k != n {
        assert(entry_matches(s[k], root, sub));
    }
    assert forall|t: Seq<char>, u: Seq<char>| !(t == root && u == sub) implies #[trigger]
        spec_resolve(s1, t, u) == spec_resolve(s, t, u) by {
        if has_path(s1, t, u) {
            let a = path_index(s1, t, u);
            assert(entry_matches(s1[a], t, u));
            if a == n {
                assert(t == root && u == sub);
            }
            assert(entry_matches(s[a], t, u));
            assert(has_path(s, t, u));
            let a0 = path_index(s, t, u);
            assert(entry_matches(s[a0], t, u));
            if a0 != a {
                lemma_match_unique(s, a0, a, t, u);
            }
        }
        if has_path(s, t, u) {
            let a = path_index(s, t, u);
            assert(entry_matches(s[a], t, u));
            assert(entry_matches(s1[a], t, u));
            assert(has_path(s1, t, u));
        }
    }
}

/// Re-registering a function identifier with identical content leaves every
/// resolve result, and every lookup by identifier, unchanged.
pub proof fn lemma_register_idempotent(c0: FunctionCatalog, c1: FunctionCatalog, f: Function)
    requires
        c0.wf(),
        spec_function_get(c0.functions@, f.id) == Some(f),
        c1.wf(),
        spec_function_get(c1.functions@, f.id) == Some(f),
        forall|x: FunctionId| x != f.id ==> #[trigger] spec_function_get(c1.functions@, x)
            == spec_function_get(c0.functions@, x),
        c1.paths@ == c0.paths@,
    ensures
        forall|t: Seq<char>, u: Seq<char>| #[trigger] spec_resolve(c1.paths@, t, u)
            == spec_resolve(c0.paths@, t, u),
        forall|x: FunctionId| #[trigger] spec_function_get(c1.functions@, x) == spec_function_get(
            c0.functions@,
            x,
        ),
{
}

/// Does a payload's top-level shape fit an accepted input descriptor? This
/// is the shape check made before dispatch, not full schema validation: a
/// list descriptor accepts any array, whatever its elements.
pub open spec fn spec_shape_accepts(kind: InputKind, shape: JsonShape) -> bool {
    match kind {
        InputKind::Nothing => shape == JsonShape::Null,
        InputKind::List(_) => shape == JsonShape::Array,
        InputKind::Object => shape == JsonShape::Object,
        InputKind::Text => shape == JsonShape::Text,
        InputKind::Number => shape == JsonShape::Number,
    }
}

/// Checks a payload's top-level shape against a function's declared input
/// descriptor.
pub fn shape_accepts(kind: &InputKind, shape: JsonShape) -> (r: bool)
    ensures
        r == spec_shape_accepts(*kind, shape),
{
    match kind {
        InputKind::Nothing => shape == JsonShape::Null,
        InputKind::List(_) => shape == JsonShape::Array,
        InputKind::Object => shape == JsonShape::Object,
        InputKind::Text => shape == JsonShape::Text,
        InputKind::Number => shape == JsonShape::Number,
    }
}

} // verus!
