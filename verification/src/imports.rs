//! Caller-supplied import definitions: externs, namespaces, and the import
//! object an instantiation resolves against.

use vstd::prelude::*;

verus! {

use crate::types::{
    FunctionType, FunctionTypeV, GlobalType, MemoryType, TableType, Name, Value, bytes_eq,
    copy_bytes, copy_vec, slice_to_vec,
};
use vstd::pervasive::VecAdditionalExecFns;
use vstd::string::StringSliceAdditionalSpecFns;

/// The mathematical shape of a host function.
#[verifier::ext_equal]
pub ghost struct HostFunctionV {
    pub ty: FunctionTypeV,
    pub body: Seq<u8>,
}

/// A host-defined function: its type and its body in the engine's body
/// format.
#[derive(Debug)]
pub struct HostFunction {
    pub ty: FunctionType,
    pub body: Vec<u8>,
}

impl View for HostFunction {
    type V = HostFunctionV;

    open spec fn view(&self) -> HostFunctionV {
        HostFunctionV { ty: self.ty@, body: self.body@ }
    }
}

impl HostFunction {
    /// A fresh host function with the same view.
    pub fn duplicate(&self) -> (r: HostFunction)
        ensures
            r@ == self@,
    {
        let r = HostFunction { ty: self.ty.duplicate(), body: copy_bytes(&self.body) };
        proof {
            assert(r@ =~= self@);
        }
        r
    }
}

/// A host-defined global: its type and its current value.
#[derive(Debug, Clone, Copy, PartialEq, Eq, Structural)]
pub struct GlobalCell {
    pub ty: GlobalType,
    pub value: Value,
}

/// The mathematical shape of a host-provided memory.
#[verifier::ext_equal]
pub ghost struct MemoryExternV {
    pub ty: MemoryType,
    pub data: Seq<u8>,
}

/// A host-provided linear memory.
#[derive(Debug)]
pub struct MemoryExtern {
    pub ty: MemoryType,
    pub data: Vec<u8>,
}

impl View for MemoryExtern {
    type V = MemoryExternV;

    open spec fn view(&self) -> MemoryExternV {
        MemoryExternV { ty: self.ty, data: self.data@ }
    }
}

impl MemoryExtern {
    /// A fresh memory extern with the same view.
    pub fn duplicate(&self) -> (r: MemoryExtern)
        ensures
            r@ == self@,
    {
        let r = MemoryExtern { ty: self.ty, data: copy_bytes(&self.data) };
        proof {
            assert(r@ =~= self@);
        }
        r
    }
}

/// The mathematical shape of a host-provided table.
#[verifier::ext_equal]
pub ghost struct TableExternV {
    pub ty: TableType,
    pub elements: Seq<Option<u32>>,
}

/// A host-provided table.
#[derive(Debug)]
pub struct TableExtern {
    pub ty: TableType,
    pub elements: Vec<Option<u32>>,
}

impl View for TableExtern {
    type V = TableExternV;

    open spec fn view(&self) -> TableExternV {
        TableExternV { ty: self.ty, elements: self.elements@ }
    }
}

impl TableExtern {
    /// A fresh table extern with the same view.
    pub fn duplicate(&self) -> (r: TableExtern)
        ensures
            r@ == self@,
    {
        let r = TableExtern { ty: self.ty, elements: copy_vec(&self.elements) };
        proof {
            assert(r@ =~= self@);
        }
        r
    }
}

/// The mathematical shape of an extern.
#[verifier::ext_equal]
pub ghost enum ExternV {
    Function(HostFunctionV),
    Global(GlobalCell),
    Memory(MemoryExternV),
    Table(TableExternV),
}

/// A definition the caller supplies for one import: a function, a global, a
/// memory, or a table.
#[derive(Debug)]
pub enum Extern {
    Function(HostFunction),
    Global(GlobalCell),
    Memory(MemoryExtern),
    Table(TableExtern),
}

impl View for Extern {
    type V = ExternV;

    open spec fn view(&self) -> ExternV {
        match self {
            Extern::Function(f) => ExternV::Function(f@),
            Extern::Global(g) => ExternV::Global(*g),
            Extern::Memory(m) => ExternV::Memory(m@),
            Extern::Table(t) => ExternV::Table(t@),
        }
    }
}

impl Extern {
    /// A fresh extern with the same view.
    pub fn duplicate(&self) -> (r: Extern)
        ensures
            r@ == self@,
    {
        match self {
            Extern::Function(f) => Extern::Function(f.duplicate()),
            Extern::Global(g) => Extern::Global(*g),
            Extern::Memory(m) => Extern::Memory(m.duplicate()),
            Extern::Table(t) => Extern::Table(t.duplicate()),
        }
    }
}

/// A marker for values that can stand in a namespace.
pub trait IsExport {

}

impl IsExport for Extern {

}

/// The mathematical shape of a namespace: its named externs, in insertion
/// order.
pub type NamespaceV = Seq<(Seq<u8>, ExternV)>;

/// The first extern registered under `name`, if any.
pub open spec fn entries_lookup(s: NamespaceV, name: Seq<u8>) -> Option<ExternV>
    decreases s.len(),
{
    if s.len() == 0 {
        None
    } else if s[0].0 == name {
        Some(s[0].1)
    } else {
        entries_lookup(s.drop_first(), name)
    }
}

/// Unfolds one lookup step at position `i`.
proof fn lemma_entries_lookup_step(s: NamespaceV, name: Seq<u8>, i: int)
    requires
        0 <= i < s.len(),
    ensures
        entries_lookup(s.skip(i), name) == if s[i].0 == name {
            Some(s[i].1)
        } else {
            entries_lookup(s.skip(i + 1), name)
        },
{
    assert(s.skip(i).len() > 0);
    assert(s.skip(i)[0] == s[i]);
    assert(s.skip(i).drop_first() =~= s.skip(i + 1));
}

/// A named collection of externs.
#[derive(Debug)]
pub struct Namespace {
    exports: Vec<(Name, Extern)>,
}

impl View for Namespace {
    type V = NamespaceV;

    closed spec fn view(&self) -> NamespaceV {
        self.exports@.map_values(|e: (Name, Extern)| (e.0@, e.1@))
    }
}

impl Namespace {
    /// Creates an empty namespace.
    pub fn new() -> (r: Namespace)
        ensures
            r@ =~= Seq::<(Seq<u8>, ExternV)>::empty(),
    {
        Namespace { exports: Vec::new() }
    }

    /// Registers `value` under `name`, appended after every existing
    /// entry. Lookups take the first match, so an existing entry under the
    /// same name keeps precedence; `prepend` gives a new one precedence.
    pub fn insert(&mut self, name: &str, value: Extern)
        ensures
            final(self)@ == old(self)@.push((name.spec_bytes(), value@)),
    {
        let bytes: Vec<u8> = slice_to_vec(name.as_bytes());
        self.exports.push((bytes, value));
        proof {
            assert(final(self)@ =~= old(self)@.push((name.spec_bytes(), value@)));
        }
    }

    /// Registers `value` under a name given as raw bytes, appended after
    /// every existing entry.
    pub fn insert_bytes(&mut self, name: Name, value: Extern)
        ensures
            final(self)@ == old(self)@.push((name@, value@)),
    {
        let ghost prior = self@;
        let ghost nv = name@;
        let ghost vv = value@;
        self.exports.push((name, value));
        proof {
            assert(final(self)@ =~= prior.push((nv, vv)));
        }
    }

    /// Registers `value` under `name` with precedence over every existing
    /// entry: `name` now resolves to `value`, every other name as before.
    pub fn prepend(&mut self, name: Name, value: Extern)
        ensures
            final(self)@ == seq![(name@, value@)] + old(self)@,
            entries_lookup(final(self)@, name@) == Some(value@),
            forall|f: Seq<u8>|
                f != name@ ==> entries_lookup(final(self)@, f) == entries_lookup(old(self)@, f),
    {
        let ghost prior = self@;
        let ghost nv = name@;
        let ghost vv = value@;
        self.exports.insert(0, (name, value));
        proof {
            assert(final(self)@ =~= seq![(nv, vv)] + prior);
            assert(final(self)@[0] == (nv, vv));
            assert(final(self)@.drop_first() =~= prior);
        }
    }

    /// Whether some extern is registered under `name`.
    pub fn contains_key(&mut self, name: &str) -> (r: bool)
        ensures
            *final(self) == *old(self),
            r == (entries_lookup(old(self)@, name.spec_bytes()) is Some),
    {
        let r = match self.get_index(name.as_bytes()) {
            Some(_) => true,
            None => false,
        };
        r
    }

    /// The position of the entry `name` resolves to: the first entry so
    /// named.
    pub fn get_index(&self, name: &[u8]) -> (r: Option<usize>)
        ensures
            match r {
                Some(i) => i < self@.len() && self@[i as int].0 == name@ && entries_lookup(
                    self@,
                    name@,
                ) == Some(self@[i as int].1) && (forall|k: int|
                    0 <= k < i ==> (#[trigger] self@[k]).0 != name@),
                None => entries_lookup(self@, name@) is None,
            },
    {
        let n: usize = self.exports.len();
        let mut i: usize = 0;
        proof {
            assert(self@.skip(0) =~= self@);
        }
        while i < n
            invariant
                n == self@.len(),
                0 <= i <= n,
                entries_lookup(self@, name@) == entries_lookup(self@.skip(i as int), name@),
                forall|k: int| 0 <= k < i ==> (#[trigger] self@[k]).0 != name@,
            decreases n - i,
        {
            proof {
                assert(self@[i as int] == (self.exports@[i as int].0@, self.exports@[i as int].1@));
                lemma_entries_lookup_step(self@, name@, i as int);
            }
            if bytes_eq(self.exports[i].0.as_slice(), name) {
                return Some(i);
            }
            i += 1;
        }
        proof {
            assert(self@.skip(n as int) =~= Seq::<(Seq<u8>, ExternV)>::empty());
        }
        None
    }

    /// The extern at position `i`.
    pub fn entry_at(&self, i: usize) -> (r: Option<&Extern>)
        ensures
            match r {
                Some(e) => i < self@.len() && e@ == self@[i as int].1,
                None => i >= self@.len(),
            },
    {
        if i < self.exports.len() {
            proof {
                assert(self@[i as int] == (self.exports@[i as int].0@, self.exports@[i as int].1@));
            }
            Some(&self.exports[i].1)
        } else {
            None
        }
    }

    /// How many entries the namespace holds.
    pub fn len(&self) -> (n: usize)
        ensures
            n == self@.len(),
    {
        self.exports.len()
    }

    /// The name at position `i`, as raw bytes.
    pub fn name_at(&self, i: usize) -> (r: Option<&Vec<u8>>)
        ensures
            match r {
                Some(nm) => i < self@.len() && nm@ == self@[i as int].0,
                None => i >= self@.len(),
            },
    {
        if i < self.exports.len() {
            proof {
                assert(self@[i as int] == (self.exports@[i as int].0@, self.exports@[i as int].1@));
            }
            Some(&self.exports[i].0)
        } else {
            None
        }
    }

    /// Replaces the global at position `i` with one holding `v`, keeping
    /// its declared type.
    pub fn set_global_at(&mut self, i: usize, v: Value) -> (r: bool)
        ensures
            if r {
                &&& i < old(self)@.len()
                &&& old(self)@[i as int].1 is Global
                &&& final(self)@ == old(self)@.update(
                    i as int,
                    (
                        old(self)@[i as int].0,
                        ExternV::Global(
                            GlobalCell {
                                ty: old(self)@[i as int].1->Global_0.ty,
                                value: v,
                            },
                        ),
                    ),
                )
            } else {
                &&& *final(self) == *old(self)
                &&& (i >= old(self)@.len() || !(old(self)@[i as int].1 is Global))
            },
    {
        if i >= self.exports.len() {
            return false;
        }
        proof {
            assert(self@[i as int] == (self.exports@[i as int].0@, self.exports@[i as int].1@));
        }
        let ty: GlobalType = match &self.exports[i].1 {
            Extern::Global(g) => g.ty,
            _ => {
                return false;
            },
        };
        let name: Vec<u8> = copy_bytes(&self.exports[i].0);
        let ghost prior = self@;
        self.exports.set(i, (name, Extern::Global(GlobalCell { ty, value: v })));
        proof {
            assert(final(self)@ =~= prior.update(
                i as int,
                (prior[i as int].0, ExternV::Global(GlobalCell { ty, value: v })),
            ));
        }
        true
    }
}

/// The mathematical shape of an import object: its named namespaces, in
/// registration order.
pub type ImportObjectV = Seq<(Seq<u8>, NamespaceV)>;

/// The first namespace registered under `name`, if any.
pub open spec fn namespaces_lookup(s: ImportObjectV, name: Seq<u8>) -> Option<NamespaceV>
    decreases s.len(),
{
    if s.len() == 0 {
        None
    } else if s[0].0 == name {
        Some(s[0].1)
    } else {
        namespaces_lookup(s.drop_first(), name)
    }
}

/// Unfolds one lookup step at position `i`.
proof fn lemma_namespaces_lookup_step(s: ImportObjectV, name: Seq<u8>, i: int)
    requires
        0 <= i < s.len(),
    ensures
        namespaces_lookup(s.skip(i), name) == if s[i].0 == name {
            Some(s[i].1)
        } else {
            namespaces_lookup(s.skip(i + 1), name)
        },
{
    assert(s.skip(i).len() > 0);
    assert(s.skip(i)[0] == s[i]);
    assert(s.skip(i).drop_first() =~= s.skip(i + 1));
}

/// The first namespace named as position `n`'s is position `n`'s, when no
/// earlier one carries that name.
proof fn lemma_ns_lookup_at(s: ImportObjectV, n: int)
    requires
        0 <= n < s.len(),
        forall|k: int| 0 <= k < n ==> (#[trigger] s[k]).0 != s[n].0,
    ensures
        namespaces_lookup(s, s[n].0) == Some(s[n].1),
    decreases n,
{
    if n == 0 {
        assert(s.len() > 0);
    } else {
        assert(s[0].0 != s[n].0);
        let rest = s.drop_first();
        assert(rest[n - 1] == s[n]);
        assert forall|k: int| 0 <= k < n - 1 implies (#[trigger] rest[k]).0 != rest[n - 1].0 by {
            assert(rest[k] == s[k + 1]);
        }
        lemma_ns_lookup_at(rest, n - 1);
    }
}

/// Replacing the namespace at `n` leaves the lookup of every other name
/// untouched.
proof fn lemma_ns_lookup_except(s1: ImportObjectV, s2: ImportObjectV, n: int, m2: Seq<u8>)
    requires
        s1.len() == s2.len(),
        0 <= n < s1.len(),
        forall|j: int| 0 <= j < s1.len() && j != n ==> s2[j] == s1[j],
        s2[n].0 == s1[n].0,
        m2 != s1[n].0,
    ensures
        namespaces_lookup(s2, m2) == namespaces_lookup(s1, m2),
    decreases s1.len(),
{
    if s1.len() > 0 {
        let r1 = s1.drop_first();
        let r2 = s2.drop_first();
        if n == 0 {
            assert(s1[0].0 == s2[0].0);
            assert(s1[0].0 != m2);
            assert(r1 =~= r2);
        } else {
            assert(s2[0] == s1[0]);
            assert forall|j: int| 0 <= j < r1.len() && j != n - 1 implies r2[j] == r1[j] by {
                assert(r2[j] == s2[j + 1]);
                assert(r1[j] == s1[j + 1]);
            }
            assert(r2[n - 1] == s2[n]);
            assert(r1[n - 1] == s1[n]);
            lemma_ns_lookup_except(r1, r2, n - 1, m2);
        }
    }
}

/// After replacing the first namespace named `m` with one whose `f` entry
/// is `v` and whose other entries look up as before, `(m, f)` resolves to
/// `v` and every other pair as before.
proof fn lemma_resolve_after_namespace_update(
    pre: ImportObjectV,
    post: ImportObjectV,
    n: int,
    m: Seq<u8>,
    f: Seq<u8>,
    v: ExternV,
)
    requires
        0 <= n < pre.len(),
        post.len() == pre.len(),
        forall|j: int| 0 <= j < pre.len() && j != n ==> post[j] == pre[j],
        pre[n].0 == m,
        post[n].0 == m,
        forall|k: int| 0 <= k < n ==> (#[trigger] pre[k]).0 != m,
        entries_lookup(post[n].1, f) == Some(v),
        forall|f2: Seq<u8>|
            f2 != f ==> entries_lookup(post[n].1, f2) == entries_lookup(pre[n].1, f2),
    ensures
        spec_resolve(post, m, f) == Some(v),
        forall|m2: Seq<u8>, f2: Seq<u8>|
            !(m2 == m && f2 == f) ==> spec_resolve(post, m2, f2) == spec_resolve(pre, m2, f2),
{
    assert forall|k: int| 0 <= k < n implies (#[trigger] post[k]).0 != post[n].0 by {
        assert(post[k] == pre[k]);
    }
    lemma_ns_lookup_at(post, n);
    lemma_ns_lookup_at(pre, n);
    assert(namespaces_lookup(post, m) == Some(post[n].1));
    assert(namespaces_lookup(pre, m) == Some(pre[n].1));
    assert forall|m2: Seq<u8>, f2: Seq<u8>| !(m2 == m && f2 == f) implies spec_resolve(post, m2, f2)
        == spec_resolve(pre, m2, f2) by {
        if m2 == m {
            assert(entries_lookup(post[n].1, f2) == entries_lookup(pre[n].1, f2));
        } else {
            lemma_ns_lookup_except(pre, post, n, m2);
        }
    }
}

/// After prepending a fresh namespace `m` holding only `f`, `(m, f)`
/// resolves to its value and every other pair as before.
proof fn lemma_resolve_after_namespace_prepend(
    pre: ImportObjectV,
    post: ImportObjectV,
    m: Seq<u8>,
    f: Seq<u8>,
    v: ExternV,
)
    requires
        post.len() == pre.len() + 1,
        post[0].0 == m,
        forall|j: int| 0 <= j < pre.len() ==> post[j + 1] == pre[j],
        namespaces_lookup(pre, m) is None,
        entries_lookup(post[0].1, f) == Some(v),
        forall|f2: Seq<u8>| f2 != f ==> entries_lookup(post[0].1, f2) is None,
    ensures
        spec_resolve(post, m, f) == Some(v),
        forall|m2: Seq<u8>, f2: Seq<u8>|
            !(m2 == m && f2 == f) ==> spec_resolve(post, m2, f2) == spec_resolve(pre, m2, f2),
{
    assert(post.drop_first() =~= pre);
    assert(namespaces_lookup(post, m) == Some(post[0].1));
    assert forall|m2: Seq<u8>, f2: Seq<u8>| !(m2 == m && f2 == f) implies spec_resolve(post, m2, f2)
        == spec_resolve(pre, m2, f2) by {
        if m2 == m {
            assert(spec_resolve(pre, m2, f2) is None);
            assert(entries_lookup(post[0].1, f2) is None);
        } else {
            assert(namespaces_lookup(post, m2) == namespaces_lookup(pre, m2));
        }
    }
}

/// Whether `(n, e)` is where `(module, field)` resolves: the first
/// namespace so named, and the first entry so named within it.
pub open spec fn resolves_at(
    s: ImportObjectV,
    module: Seq<u8>,
    field: Seq<u8>,
    n: int,
    e: int,
) -> bool {
    &&& 0 <= n < s.len()
    &&& s[n].0 == module
    &&& (forall|k: int| 0 <= k < n ==> (#[trigger] s[k]).0 != module)
    &&& 0 <= e < s[n].1.len()
    &&& s[n].1[e].0 == field
    &&& (forall|k: int| 0 <= k < e ==> (#[trigger] s[n].1[k]).0 != field)
}

/// Where an import resolves is one place only.
pub proof fn lemma_resolves_at_unique(
    s: ImportObjectV,
    module: Seq<u8>,
    field: Seq<u8>,
    n1: int,
    e1: int,
    n2: int,
    e2: int,
)
    requires
        resolves_at(s, module, field, n1, e1),
        resolves_at(s, module, field, n2, e2),
    ensures
        n1 == n2,
        e1 == e2,
{
    if n1 < n2 {
        assert(s[n1].0 != module);
    }
    if n2 < n1 {
        assert(s[n2].0 != module);
    }
    if e1 < e2 {
        assert(s[n1].1[e1].0 != field);
    }
    if e2 < e1 {
        assert(s[n1].1[e2].0 != field);
    }
}

/// What `(module, field)` resolves to in an import object.
pub open spec fn spec_resolve(s: ImportObjectV, module: Seq<u8>, field: Seq<u8>) -> Option<
    ExternV,
> {
    match namespaces_lookup(s, module) {
        None => None,
        Some(ns) => entries_lookup(ns, field),
    }
}

/// The caller-supplied mapping from `(namespace, name)` to an extern,
/// consulted during instantiation. This is the resolver capability: the
/// engine never owns it.
#[derive(Debug)]
pub struct ImportObject {
    namespaces: Vec<(Name, Namespace)>,
}

impl View for ImportObject {
    type V = ImportObjectV;

    closed spec fn view(&self) -> ImportObjectV {
        self.namespaces@.map_values(|e: (Name, Namespace)| (e.0@, e.1@))
    }
}

impl ImportObject {
    /// Creates an empty import object.
    pub fn new() -> (r: ImportObject)
        ensures
            r@ =~= Seq::<(Seq<u8>, NamespaceV)>::empty(),
    {
        ImportObject { namespaces: Vec::new() }
    }

    /// Registers `namespace` under `name`, appended after every existing
    /// namespace. Lookups take the first match, so an existing namespace
    /// under the same name keeps precedence.
    pub fn register(&mut self, name: &str, namespace: Namespace)
        ensures
            final(self)@ == old(self)@.push((name.spec_bytes(), namespace@)),
    {
        let bytes: Vec<u8> = slice_to_vec(name.as_bytes());
        let ghost prior = self@;
        let ghost nsv = namespace@;
        self.namespaces.push((bytes, namespace));
        proof {
            assert(final(self)@ =~= prior.push((name.spec_bytes(), nsv)));
        }
    }

    /// The position of the namespace `name` resolves to.
    pub fn namespace_index(&self, name: &[u8]) -> (r: Option<usize>)
        ensures
            match r {
                Some(i) => i < self@.len() && self@[i as int].0 == name@ && namespaces_lookup(
                    self@,
                    name@,
                ) == Some(self@[i as int].1) && (forall|k: int|
                    0 <= k < i ==> (#[trigger] self@[k]).0 != name@),
                None => namespaces_lookup(self@, name@) is None,
            },
    {
        let n: usize = self.namespaces.len();
        let mut i: usize = 0;
        proof {
            assert(self@.skip(0) =~= self@);
        }
        while i < n
            invariant
                n == self@.len(),
                0 <= i <= n,
                namespaces_lookup(self@, name@) == namespaces_lookup(
                    self@.skip(i as int),
                    name@,
                ),
                forall|k: int| 0 <= k < i ==> (#[trigger] self@[k]).0 != name@,
            decreases n - i,
        {
            proof {
                assert(self@[i as int] == (
                    self.namespaces@[i as int].0@,
                    self.namespaces@[i as int].1@,
                ));
                lemma_namespaces_lookup_step(self@, name@, i as int);
            }
            if bytes_eq(self.namespaces[i].0.as_slice(), name) {
                return Some(i);
            }
            i += 1;
        }
        proof {
            assert(self@.skip(n as int) =~= Seq::<(Seq<u8>, NamespaceV)>::empty());
        }
        None
    }

    /// The positions the import `(module, field)` resolves to: the
    /// namespace's index and the entry's index within it.
    pub fn resolve_index(&self, module: &[u8], field: &[u8]) -> (r: Option<(usize, usize)>)
        ensures
            match r {
                Some((n, e)) => {
                    &&& n < self@.len()
                    &&& e < self@[n as int].1.len()
                    &&& spec_resolve(self@, module@, field@) == Some(self@[n as int].1[e as int].1)
                    &&& resolves_at(self@, module@, field@, n as int, e as int)
                },
                None => spec_resolve(self@, module@, field@) is None,
            },
    {
        match self.namespace_index(module) {
            None => None,
            Some(n) => {
                match self.namespaces[n].1.get_index(field) {
                    None => None,
                    Some(e) => {
                        proof {
                            assert(self@[n as int] == (
                                self.namespaces@[n as int].0@,
                                self.namespaces@[n as int].1@,
                            ));
                        }
                        Some((n, e))
                    },
                }
            },
        }
    }

    /// The extern at namespace position `n`, entry position `e`.
    pub fn extern_at(&self, n: usize, e: usize) -> (r: Option<&Extern>)
        ensures
            match r {
                Some(x) => n < self@.len() && e < self@[n as int].1.len() && x@ == self@[
                    n as int
                ].1[e as int].1,
                None => n >= self@.len() || e >= self@[n as int].1.len(),
            },
    {
        if n < self.namespaces.len() {
            proof {
                assert(self@[n as int] == (
                    self.namespaces@[n as int].0@,
                    self.namespaces@[n as int].1@,
                ));
            }
            self.namespaces[n].1.entry_at(e)
        } else {
            None
        }
    }

    /// Replaces the global at namespace position `n`, entry position `e`,
    /// with one holding `v`, keeping its declared type. Everything else is
    /// untouched.
    pub fn set_global_at(&mut self, n: usize, e: usize, v: Value) -> (r: bool)
        ensures
            if r {
                &&& n < old(self)@.len()
                &&& e < old(self)@[n as int].1.len()
                &&& old(self)@[n as int].1[e as int].1 is Global
                &&& final(self)@ == old(self)@.update(
                    n as int,
                    (
                        old(self)@[n as int].0,
                        old(self)@[n as int].1.update(
                            e as int,
                            (
                                old(self)@[n as int].1[e as int].0,
                                ExternV::Global(
                                    GlobalCell {
                                        ty: old(self)@[n as int].1[e as int].1->Global_0.ty,
                                        value: v,
                                    },
                                ),
                            ),
                        ),
                    ),
                )
            } else {
                &&& final(self)@ == old(self)@
                &&& (n >= old(self)@.len() || e >= old(self)@[n as int].1.len() || !(old(
                    self,
                )@[n as int].1[e as int].1 is Global))
            },
    {
        if n >= self.namespaces.len() {
            return false;
        }
        proof {
            assert(self@[n as int] == (
                self.namespaces@[n as int].0@,
                self.namespaces@[n as int].1@,
            ));
        }
        let ghost prior = self@;
        let pair: (Name, Namespace) = self.namespaces.remove(n);
        let name0: Name = pair.0;
        let mut ns0: Namespace = pair.1;
        let ghost nsv0 = ns0@;
        proof {
            assert(nsv0 == prior[n as int].1);
            assert(name0@ == prior[n as int].0);
        }
        let ok = ns0.set_global_at(e, v);
        let ghost nsv1 = ns0@;
        self.namespaces.insert(n, (name0, ns0));
        proof {
            assert(final(self)@ =~= prior.update(n as int, (name0@, nsv1)));
            if ok {
                assert(final(self)@ =~= prior.update(n as int, (prior[n as int].0, nsv1)));
            } else {
                assert(nsv1 == nsv0);
                assert(final(self)@ =~= prior);
            }
        }
        ok
    }

    /// How many namespaces are registered.
    pub fn len(&self) -> (n: usize)
        ensures
            n == self@.len(),
    {
        self.namespaces.len()
    }

    /// The name of the namespace at position `n`.
    pub fn namespace_name(&self, n: usize) -> (r: Option<&Vec<u8>>)
        ensures
            match r {
                Some(nm) => n < self@.len() && nm@ == self@[n as int].0,
                None => n >= self@.len(),
            },
    {
        if n < self.namespaces.len() {
            proof {
                assert(self@[n as int] == (
                    self.namespaces@[n as int].0@,
                    self.namespaces@[n as int].1@,
                ));
            }
            Some(&self.namespaces[n].0)
        } else {
            None
        }
    }

    /// How many entries the namespace at position `n` holds.
    pub fn entry_count(&self, n: usize) -> (r: usize)
        ensures
            n < self@.len() ==> r == self@[n as int].1.len(),
            n >= self@.len() ==> r == 0,
    {
        if n < self.namespaces.len() {
            proof {
                assert(self@[n as int] == (
                    self.namespaces@[n as int].0@,
                    self.namespaces@[n as int].1@,
                ));
            }
            self.namespaces[n].1.len()
        } else {
            0
        }
    }

    /// The name of the entry at namespace position `n`, entry position `e`.
    pub fn entry_name(&self, n: usize, e: usize) -> (r: Option<&Vec<u8>>)
        ensures
            match r {
                Some(nm) => n < self@.len() && e < self@[n as int].1.len() && nm@ == self@[
                    n as int
                ].1[e as int].0,
                None => n >= self@.len() || e >= self@[n as int].1.len(),
            },
    {
        if n < self.namespaces.len() {
            proof {
                assert(self@[n as int] == (
                    self.namespaces@[n as int].0@,
                    self.namespaces@[n as int].1@,
                ));
            }
            self.namespaces[n].1.name_at(e)
        } else {
            None
        }
    }

    /// Binds `(module, field)` to `value` with precedence over everything
    /// already registered: the new binding resolves, and every other
    /// `(namespace, name)` pair resolves exactly as before.
    pub fn insert_entry(&mut self, module: Name, field: Name, value: Extern)
        ensures
            spec_resolve(final(self)@, module@, field@) == Some(value@),
            forall|m: Seq<u8>, f: Seq<u8>|
                !(m == module@ && f == field@) ==> spec_resolve(final(self)@, m, f)
                    == spec_resolve(old(self)@, m, f),
    {
        let ghost prior = self@;
        let ghost mv = module@;
        let ghost fv = field@;
        let ghost vv = value@;
        match self.namespace_index(module.as_slice()) {
            Some(n) => {
                let pair: (Name, Namespace) = self.namespaces.remove(n);
                let name0: Name = pair.0;
                let mut ns0: Namespace = pair.1;
                let ghost nsv0 = ns0@;
                proof {
                    assert(prior[n as int] == (name0@, nsv0));
                }
                ns0.prepend(field, value);
                let ghost nsv1 = ns0@;
                self.namespaces.insert(n, (name0, ns0));
                proof {
                    assert(final(self)@ =~= prior.update(n as int, (mv, nsv1)));
                    lemma_resolve_after_namespace_update(prior, final(self)@, n as int, mv, fv, vv);
                }
            },
            None => {
                let mut ns = Namespace::new();
                ns.prepend(field, value);
                let ghost nsv = ns@;
                self.namespaces.insert(0, (module, ns));
                proof {
                    assert(final(self)@ =~= seq![(mv, nsv)] + prior);
                    lemma_resolve_after_namespace_prepend(prior, final(self)@, mv, fv, vv);
                }
            },
        }
    }

    /// The current value of the global registered under
    /// `(module, field)`, if that import resolves to a global.
    pub fn global_value(&self, module: &[u8], field: &[u8]) -> (r: Option<Value>)
        ensures
            match r {
                Some(v) => spec_resolve(self@, module@, field@) matches Some(
                    ExternV::Global(g),
                ) && g.value == v,
                None => !(spec_resolve(self@, module@, field@) matches Some(ExternV::Global(_))),
            },
    {
        match self.resolve_index(module, field) {
            None => None,
            Some((n, e)) => {
                match self.extern_at(n, e) {
                    Some(Extern::Global(g)) => Some(g.value),
                    _ => None,
                }
            },
        }
    }
}

} // verus!
