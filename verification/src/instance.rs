//! Instances: resolving a compiled module's imports, allocating its owned
//! storage, patching its function index space, and running its start
//! function.

use vstd::prelude::*;

verus! {

use crate::InstantiationError;
use crate::Trap;
use crate::arena::CodeMemoryArena;
use crate::engine::Tunables;
use crate::imports::{Extern, ExternV, GlobalCell, ImportObject, ImportObjectV};
use crate::interp::{
    CodeRef, CodeRefV, DEFAULT_CALL_FUEL, GlobalSlot, RuntimeFunction, RuntimeFunctionV,
    exec_call, globals_preserved, imports_preserved, slot_update_ok,
};
use crate::module::{CompiledModule, CompiledModuleV};
use crate::types::{
    ExportDecl, ExportDeclV, ExportIndex, ExternType, FunctionTypeV, ImportDeclV, MemoryType,
    ModuleInfoV, TableType, Value, copy_bytes, count_import_kinds, func_imports, global_imports,
    lemma_func_imports_len, lemma_global_imports_len, num_func_imports, num_global_imports,
    num_memory_imports, num_table_imports,
};
use crate::imports::{resolves_at, spec_resolve};
use vstd::pervasive::VecAdditionalExecFns;

/// Bytes per WebAssembly page.
pub const PAGE_SIZE: usize = 65536;

/// An instance-owned linear memory.
#[derive(Debug)]
pub struct MemoryStore {
    pub ty: MemoryType,
    pub data: Vec<u8>,
}

/// One entry of an instance's memory index space.
#[derive(Debug)]
pub enum MemorySlot {
    Owned(MemoryStore),
    Imported { namespace: usize, entry: usize },
}

/// An instance-owned table.
#[derive(Debug)]
pub struct TableStore {
    pub ty: TableType,
    pub elements: Vec<Option<u32>>,
}

/// One entry of an instance's table index space.
#[derive(Debug)]
pub enum TableSlot {
    Owned(TableStore),
    Imported { namespace: usize, entry: usize },
}

/// Whether a provided memory satisfies a declared import plan: at least
/// the declared minimum, and within the declared maximum where one is
/// declared.
pub open spec fn memory_limits_ok(provided: MemoryType, declared: MemoryType) -> bool {
    &&& provided.minimum >= declared.minimum
    &&& (declared.maximum matches Some(dm) ==> (provided.maximum matches Some(pm) && pm <= dm))
}

/// Whether a provided table satisfies a declared import plan.
pub open spec fn table_limits_ok(provided: TableType, declared: TableType) -> bool {
    &&& provided.minimum >= declared.minimum
    &&& (declared.maximum matches Some(dm) ==> (provided.maximum matches Some(pm) && pm <= dm))
}

/// Whether a resolved extern has the kind and type an import declares.
pub open spec fn extern_matches(x: ExternV, t: ExternType, types: Seq<FunctionTypeV>) -> bool {
    match t {
        ExternType::Function(ti) => x matches ExternV::Function(hf) && hf.ty == types[ti as int],
        ExternType::Global(gt) => x matches ExternV::Global(g) && g.ty == gt,
        ExternType::Memory(mt) => x matches ExternV::Memory(m) && memory_limits_ok(m.ty, mt),
        ExternType::Table(tt) => x matches ExternV::Table(tb) && table_limits_ok(tb.ty, tt),
    }
}

/// Whether one declared import resolves in the import object to an extern
/// of the declared kind and type.
pub open spec fn import_ok(io: ImportObjectV, d: ImportDeclV, types: Seq<FunctionTypeV>) -> bool {
    match spec_resolve(io, d.module, d.field) {
        None => false,
        Some(x) => extern_matches(x, d.ty, types),
    }
}

/// Whether every declared import resolves and matches.
pub open spec fn all_imports_ok(info: ModuleInfoV, io: ImportObjectV) -> bool {
    forall|i: int|
        0 <= i < info.imports.len() ==> import_ok(io, #[trigger] info.imports[i], info.types)
}

/// Whether every owned-storage plan stays within the tunables and the
/// machine.
pub open spec fn plans_ok(info: ModuleInfoV, t: Tunables) -> bool {
    &&& forall|i: int|
        0 <= i < info.memories.len() ==> {
            &&& (#[trigger] info.memories[i]).minimum <= t.memory_pages_limit
            &&& (info.memories[i].minimum as int) * 65536 <= usize::MAX
        }
    &&& forall|i: int|
        0 <= i < info.tables.len() ==> (#[trigger] info.tables[i]).minimum
            <= t.table_elements_limit
}

/// Whether every static initialization segment targets instance-owned
/// storage and stays in bounds.
pub open spec fn segments_ok(info: ModuleInfoV) -> bool {
    &&& forall|i: int|
        0 <= i < info.elements.len() ==> {
            let seg = #[trigger] info.elements[i];
            &&& seg.table >= num_table_imports(info.imports)
            &&& seg.offset + seg.entries.len() <= info.tables[seg.table
                - num_table_imports(info.imports)].minimum
        }
    &&& forall|i: int|
        0 <= i < info.data.len() ==> {
            let seg = #[trigger] info.data[i];
            &&& seg.memory >= num_memory_imports(info.imports)
            &&& seg.offset + seg.bytes.len() <= (info.memories[seg.memory
                - num_memory_imports(info.imports)].minimum as int) * 65536
        }
}

/// The mathematical shape of an instance.
#[verifier::ext_equal]
pub ghost struct InstanceV {
    pub functions: Seq<RuntimeFunctionV>,
    pub globals: Seq<GlobalSlot>,
    pub exports: Seq<ExportDeclV>,
    pub n_memories: int,
    pub n_tables: int,
}

/// The live, mutable runtime state created from a compiled module plus
/// resolved imports: patched function entries, concrete global, memory and
/// table storage, and the module's exports. Owned storage is exclusively
/// the instance's; imported storage is a back-reference into the import
/// object, whose owner must outlive the instance.
#[derive(Debug)]
pub struct Instance {
    functions: Vec<RuntimeFunction>,
    globals: Vec<GlobalSlot>,
    memories: Vec<MemorySlot>,
    tables: Vec<TableSlot>,
    exports: Vec<ExportDecl>,
}

impl View for Instance {
    type V = InstanceV;

    closed spec fn view(&self) -> InstanceV {
        InstanceV {
            functions: self.functions@.map_values(|f: RuntimeFunction| f@),
            globals: self.globals@,
            exports: self.exports@.map_values(|e: ExportDecl| e@),
            n_memories: self.memories@.len() as int,
            n_tables: self.tables@.len() as int,
        }
    }
}

/// The first export so named, if any.
pub open spec fn find_export(s: Seq<ExportDeclV>, name: Seq<u8>) -> Option<ExportIndex>
    decreases s.len(),
{
    if s.len() == 0 {
        None
    } else if s[0].name == name {
        Some(s[0].index)
    } else {
        find_export(s.drop_first(), name)
    }
}

proof fn lemma_find_export_step(s: Seq<ExportDeclV>, name: Seq<u8>, i: int)
    requires
        0 <= i < s.len(),
    ensures
        find_export(s.skip(i), name) == if s[i].name == name {
            Some(s[i].index)
        } else {
            find_export(s.skip(i + 1), name)
        },
{
    assert(s.skip(i)[0] == s[i]);
    assert(s.skip(i).drop_first() =~= s.skip(i + 1));
}

impl Instance {
    /// The module's export declarations, in declaration order.
    pub fn exports(&self) -> (r: &Vec<ExportDecl>)
        ensures
            r@.map_values(|e: ExportDecl| e@) == self@.exports,
    {
        &self.exports
    }

    /// How many functions the instance's index space holds.
    pub fn function_count(&self) -> (n: usize)
        ensures
            n == self@.functions.len(),
    {
        self.functions.len()
    }

    /// The first export under `name`, if any.
    pub fn get_export(&self, name: &[u8]) -> (r: Option<ExportIndex>)
        ensures
            r == find_export(self@.exports, name@),
    {
        let n: usize = self.exports.len();
        let mut i: usize = 0;
        proof {
            assert(self@.exports.skip(0) =~= self@.exports);
        }
        while i < n
            invariant
                n == self@.exports.len(),
                0 <= i <= n,
                find_export(self@.exports, name@) == find_export(
                    self@.exports.skip(i as int),
                    name@,
                ),
            decreases n - i,
        {
            proof {
                assert(self@.exports[i as int] == self.exports@[i as int]@);
                lemma_find_export_step(self@.exports, name@, i as int);
            }
            if crate::types::bytes_eq(self.exports[i].name.as_slice(), name) {
                return Some(self.exports[i].index);
            }
            i += 1;
        }
        proof {
            assert(self@.exports.skip(n as int) =~= Seq::<ExportDeclV>::empty());
        }
        None
    }

    /// The current value of the exported global under `name`: `Some`
    /// exactly when the first export so named is a global whose slot
    /// reads back, and then exactly that value.
    pub fn get_global(&self, imports: &ImportObject, name: &[u8]) -> (r: Option<Value>)
        ensures
            (match r {
                Some(v) => {
                    &&& (find_export(self@.exports, name@) matches Some(ExportIndex::Global(k)))
                    &&& crate::interp::sem_global_get(
                        crate::interp::SemState { globals: self@.globals, imports: imports@ },
                        find_export(self@.exports, name@)->Some_0->Global_0 as int,
                    ) == Ok::<Value, Trap>(v)
                },
                None => !({
                    &&& (find_export(self@.exports, name@) matches Some(ExportIndex::Global(k)))
                    &&& (crate::interp::sem_global_get(
                        crate::interp::SemState { globals: self@.globals, imports: imports@ },
                        find_export(self@.exports, name@)->Some_0->Global_0 as int,
                    ) is Ok)
                }),
            }),
    {
        let k: usize = match self.get_export(name) {
            Some(ExportIndex::Global(k)) => k as usize,
            _ => {
                return None;
            },
        };
        if k >= self.globals.len() {
            return None;
        }
        match &self.globals[k] {
            GlobalSlot::Owned(c) => Some(c.value),
            GlobalSlot::Imported { namespace, entry } => match imports.extern_at(
                *namespace,
                *entry,
            ) {
                Some(Extern::Global(c)) => Some(c.value),
                _ => None,
            },
        }
    }

    /// The declared type of the function at `fidx`, if it exists.
    pub fn function_type(&self, fidx: usize) -> (r: Option<&crate::types::FunctionType>)
        ensures
            match r {
                Some(t) => fidx < self@.functions.len() && t@ == self@.functions[fidx as int].ty,
                None => fidx >= self@.functions.len(),
            },
    {
        if fidx < self.functions.len() {
            proof {
                assert(self@.functions[fidx as int] == self.functions@[fidx as int]@);
            }
            Some(&self.functions[fidx].ty)
        } else {
            None
        }
    }

    /// Runs the function at `fidx` on `args`. Only global values (owned or
    /// imported) can change; a trap is returned, never propagated as a
    /// panic.
    pub fn invoke_index(
        &mut self,
        arena: &CodeMemoryArena,
        imports: &mut ImportObject,
        fidx: usize,
        args: Vec<Value>,
    ) -> (r: Result<Vec<Value>, Trap>)
        requires
            arena.wf(),
        ensures
            instance_preserved(old(self)@, final(self)@),
            imports_preserved(old(imports)@, final(imports)@),
            (r matches Ok(vals) ==> fidx < old(self)@.functions.len() && crate::types::values_have_types(
                vals@,
                old(self)@.functions[fidx as int].ty.results,
            )),
            crate::interp::sem_matches(
                crate::interp::sem_call(
                    *arena,
                    old(self)@.functions,
                    crate::interp::SemState {
                        globals: old(self)@.globals,
                        imports: old(imports)@,
                    },
                    fidx as int,
                    args@,
                    DEFAULT_CALL_FUEL as nat,
                ),
                final(self)@.globals,
                final(imports)@,
                r,
            ),
    {
        let r = exec_call(
            arena,
            &self.functions,
            &mut self.globals,
            imports,
            fidx,
            args,
            DEFAULT_CALL_FUEL,
        );
        proof {
            if fidx < self.functions@.len() {
                assert(self.functions@[fidx as int]@ == old(self)@.functions[fidx as int]);
            }
        }
        r
    }
}

/// What running an instance preserves: everything but its global values.
pub open spec fn instance_preserved(pre: InstanceV, post: InstanceV) -> bool {
    &&& post.functions == pre.functions
    &&& post.exports == pre.exports
    &&& post.n_memories == pre.n_memories
    &&& post.n_tables == pre.n_tables
    &&& globals_preserved(pre.globals, post.globals)
}

/// A vector of `n` zero bytes.
fn zero_bytes(n: usize) -> (r: Vec<u8>)
    ensures
        r@.len() == n,
        forall|i: int| 0 <= i < n ==> r@[i] == 0u8,
{
    let mut out: Vec<u8> = Vec::new();
    let mut i: usize = 0;
    while i < n
        invariant
            0 <= i <= n,
            out@.len() == i,
            forall|k: int| 0 <= k < i ==> out@[k] == 0u8,
        decreases n - i,
    {
        out.push(0);
        i += 1;
    }
    out
}

/// A vector of `n` empty table entries.
fn empty_elements(n: usize) -> (r: Vec<Option<u32>>)
    ensures
        r@.len() == n,
{
    let mut out: Vec<Option<u32>> = Vec::new();
    let mut i: usize = 0;
    while i < n
        invariant
            0 <= i <= n,
            out@.len() == i,
        decreases n - i,
    {
        out.push(None);
        i += 1;
    }
    out
}

/// Whether `offset + len` fits within `size`.
fn range_fits(offset: u32, len: usize, size: usize) -> (r: bool)
    ensures
        r == ((offset as int) + len <= size),
{
    if (offset as usize) > size {
        false
    } else {
        len <= size - (offset as usize)
    }
}

/// The function table and global slots an instantiation builds before any
/// start function runs: the resolved imported entries first, then the
/// module's own, with every module-defined global at its declared initial
/// value.
pub open spec fn built_start_state(
    cm: CompiledModuleV,
    io: ImportObjectV,
    fs: Seq<RuntimeFunctionV>,
    gs: Seq<GlobalSlot>,
) -> bool {
    let info = cm.artifact.info;
    &&& fs.len() == info.num_funcs()
    &&& forall|j: int|
        0 <= j < num_func_imports(info.imports) ==> func_import_entry_ok(
            io,
            func_imports(info.imports)[j],
            (#[trigger] fs[j]),
        )
    &&& forall|i: int|
        0 <= i < info.functions.len() ==> fs[num_func_imports(info.imports) + i]
            == (RuntimeFunctionV {
            ty: info.types[info.functions[i] as int],
            code: CodeRefV::Arena(cm.function_addrs[i]),
        })
    &&& gs.len() == info.num_globals()
    &&& forall|j: int|
        0 <= j < num_global_imports(info.imports) ==> global_import_entry_ok(
            io,
            global_imports(info.imports)[j],
            (#[trigger] gs[j]),
        )
    &&& forall|i: int|
        0 <= i < info.globals.len() ==> (#[trigger] gs[num_global_imports(info.imports) + i])
            == GlobalSlot::Owned(
            GlobalCell { ty: info.globals[i].ty, value: info.globals[i].init },
        )
}

/// Round-trip behavior: two compiled modules carrying the same artifact —
/// as a serialized module and its deserialization do — instantiated
/// against the same import object (without a start function), yield
/// instances with the same exports and globals whose every call returns
/// the same results or trap and leaves the same state, whatever addresses
/// each engine's arena placed the code at.
pub proof fn law_round_trip_instances_behave_identically(
    arena1: CodeMemoryArena,
    cm1: CompiledModuleV,
    inst1: InstanceV,
    arena2: CodeMemoryArena,
    cm2: CompiledModuleV,
    inst2: InstanceV,
    io: ImportObjectV,
    tunables: Tunables,
)
    requires
        cm1.wf(),
        cm2.wf(),
        cm1.artifact == cm2.artifact,
        cm1.owned_by(arena1),
        cm2.owned_by(arena2),
        instantiate_ok_post(cm1, io, tunables, inst1),
        instantiate_ok_post(cm2, io, tunables, inst2),
        cm1.artifact.info.start is None,
    ensures
        inst1.exports == inst2.exports,
        inst1.globals == inst2.globals,
        crate::interp::funcs_equiv(arena1, inst1.functions, arena2, inst2.functions),
        forall|fidx: int, args: Seq<Value>, fuel: nat|
            crate::interp::sem_call(
                arena1,
                inst1.functions,
                crate::interp::SemState { globals: inst1.globals, imports: io },
                fidx,
                args,
                fuel,
            ) == #[trigger] crate::interp::sem_call(
                arena2,
                inst2.functions,
                crate::interp::SemState { globals: inst2.globals, imports: io },
                fidx,
                args,
                fuel,
            ),
{
    let info = cm1.artifact.info;
    let nf = num_func_imports(info.imports);
    let ng = num_global_imports(info.imports);
    assert(inst1.globals =~= inst2.globals) by {
        assert forall|j: int| 0 <= j < inst1.globals.len() implies inst1.globals[j]
            == inst2.globals[j] by {
            if j < ng {
                assert(global_import_entry_ok(io, global_imports(info.imports)[j], inst1.globals[j]));
                assert(global_import_entry_ok(io, global_imports(info.imports)[j], inst2.globals[j]));
                crate::imports::lemma_resolves_at_unique(
                    io,
                    global_imports(info.imports)[j].module,
                    global_imports(info.imports)[j].field,
                    inst1.globals[j]->Imported_namespace as int,
                    inst1.globals[j]->Imported_entry as int,
                    inst2.globals[j]->Imported_namespace as int,
                    inst2.globals[j]->Imported_entry as int,
                );
            } else {
                assert(inst1.globals[ng + (j - ng)] == GlobalSlot::Owned(
                    GlobalCell { ty: info.globals[j - ng].ty, value: info.globals[j - ng].init },
                ));
                assert(inst2.globals[ng + (j - ng)] == GlobalSlot::Owned(
                    GlobalCell { ty: info.globals[j - ng].ty, value: info.globals[j - ng].init },
                ));
            }
        }
    }
    assert forall|i: int| 0 <= i < inst1.functions.len() implies (#[trigger] inst1.functions[i]).ty
        == inst2.functions[i].ty && crate::interp::code_fetch(arena1, inst1.functions[i])
        == crate::interp::code_fetch(arena2, inst2.functions[i]) by {
        if i < nf {
            assert(func_import_entry_ok(io, func_imports(info.imports)[i], inst1.functions[i]));
            assert(func_import_entry_ok(io, func_imports(info.imports)[i], inst2.functions[i]));
        } else {
            let k = i - nf;
            assert(inst1.functions[nf + k] == (RuntimeFunctionV {
                ty: info.types[info.functions[k] as int],
                code: CodeRefV::Arena(cm1.function_addrs[k]),
            }));
            assert(inst2.functions[nf + k] == (RuntimeFunctionV {
                ty: info.types[info.functions[k] as int],
                code: CodeRefV::Arena(cm2.function_addrs[k]),
            }));
            assert(arena1.is_executable(cm1.function_addrs[k] as int));
            assert(arena1.span_bytes(cm1.function_addrs[k] as int) == cm1.artifact.bodies[k]);
            assert(arena2.is_executable(cm2.function_addrs[k] as int));
            assert(arena2.span_bytes(cm2.function_addrs[k] as int) == cm2.artifact.bodies[k]);
        }
    }
    assert forall|fidx: int, args: Seq<Value>, fuel: nat|
        crate::interp::sem_call(
            arena1,
            inst1.functions,
            crate::interp::SemState { globals: inst1.globals, imports: io },
            fidx,
            args,
            fuel,
        ) == #[trigger] crate::interp::sem_call(
            arena2,
            inst2.functions,
            crate::interp::SemState { globals: inst2.globals, imports: io },
            fidx,
            args,
            fuel,
        ) by {
        crate::interp::law_execution_depends_on_code_alone(
            arena1,
            inst1.functions,
            arena2,
            inst2.functions,
            crate::interp::SemState { globals: inst1.globals, imports: io },
            fidx,
            args,
            fuel,
        );
    }
}

/// Checks that every declared import resolves and matches its declaration.
fn check_imports(info: &crate::types::ModuleInfo, imports: &ImportObject) -> (r: bool)
    requires
        info@.wf(),
    ensures
        r == all_imports_ok(info@, imports@),
{
    let ghost infov = info@;
    let ghost iov = imports@;
    let n: usize = info.imports.len();
    let mut i: usize = 0;
    while i < n
        invariant
            infov == info@,
            iov == imports@,
            infov.wf(),
            n == infov.imports.len(),
            n == info.imports@.len(),
            infov.types.len() == info.types@.len(),
            0 <= i <= n,
            forall|k: int| 0 <= k < i ==> import_ok(iov, #[trigger] infov.imports[k], infov.types),
        decreases n - i,
    {
        proof {
            assert(infov.imports[i as int] == info.imports@[i as int]@);
        }
        let decl = &info.imports[i];
        let (rn, re): (usize, usize) = match imports.resolve_index(
            decl.module.as_slice(),
            decl.field.as_slice(),
        ) {
            None => {
                proof {
                    assert(!import_ok(iov, infov.imports[i as int], infov.types));
                }
                return false;
            },
            Some(x) => x,
        };
        let ext: &Extern = match imports.extern_at(rn, re) {
            Some(x) => x,
            None => {
                return false;
            },
        };
        let ok: bool = match (&decl.ty, ext) {
            (ExternType::Function(ti), Extern::Function(hf)) => hf.ty.same(
                &info.types[*ti as usize],
            ),
            (ExternType::Global(gt), Extern::Global(g)) => g.ty == *gt,
            (ExternType::Memory(mt), Extern::Memory(m)) => {
                let max_ok = match mt.maximum {
                    None => true,
                    Some(dm) => match m.ty.maximum {
                        Some(pm) => pm <= dm,
                        None => false,
                    },
                };
                m.ty.minimum >= mt.minimum && max_ok
            },
            (ExternType::Table(tt), Extern::Table(tb)) => {
                let max_ok = match tt.maximum {
                    None => true,
                    Some(dm) => match tb.ty.maximum {
                        Some(pm) => pm <= dm,
                        None => false,
                    },
                };
                tb.ty.minimum >= tt.minimum && max_ok
            },
            _ => false,
        };
        proof {
            if infov.imports[i as int].ty is Function {
                let ti = infov.imports[i as int].ty->Function_0;
                assert(ti < infov.types.len());
                assert(infov.types[ti as int] == info.types@[ti as int]@);
            }
        }
        if !ok {
            proof {
                assert(!import_ok(iov, infov.imports[i as int], infov.types));
            }
            return false;
        }
        proof {
            assert(import_ok(iov, infov.imports[i as int], infov.types));
        }
        i += 1;
    }
    true
}

/// Checks that every owned-storage plan stays within the tunables and the
/// machine.
fn check_plans(info: &crate::types::ModuleInfo, tunables: &Tunables) -> (r: bool)
    ensures
        r == plans_ok(info@, *tunables),
{
    let ghost infov = info@;
    let n: usize = info.memories.len();
    let mut i: usize = 0;
    while i < n
        invariant
            infov == info@,
            n == infov.memories.len(),
            n == info.memories@.len(),
            0 <= i <= n,
            forall|k: int|
                0 <= k < i ==> {
                    &&& (#[trigger] infov.memories[k]).minimum <= tunables.memory_pages_limit
                    &&& (infov.memories[k].minimum as int) * 65536 <= usize::MAX
                },
        decreases n - i,
    {
        proof {
            assert(infov.memories[i as int] == info.memories@[i as int]);
        }
        let plan: MemoryType = info.memories[i];
        if plan.minimum > tunables.memory_pages_limit {
            return false;
        }
        proof {
            let m = plan.minimum as int;
            assert(m * 65536 <= 0xffffffffi64 * 65536) by (nonlinear_arith)
                requires
                    0 <= m <= 0xffffffff,
            ;
        }
        let bytes64: u64 = (plan.minimum as u64) * 65536;
        if bytes64 > (usize::MAX as u64) {
            return false;
        }
        i += 1;
    }
    let n: usize = info.tables.len();
    let mut i: usize = 0;
    while i < n
        invariant
            infov == info@,
            n == infov.tables.len(),
            n == info.tables@.len(),
            0 <= i <= n,
            plans_ok_memories(infov, *tunables),
            forall|k: int|
                0 <= k < i ==> (#[trigger] infov.tables[k]).minimum
                    <= tunables.table_elements_limit,
        decreases n - i,
    {
        proof {
            assert(infov.tables[i as int] == info.tables@[i as int]);
        }
        if info.tables[i].minimum > tunables.table_elements_limit {
            return false;
        }
        i += 1;
    }
    true
}

/// The memory half of `plans_ok`.
pub open spec fn plans_ok_memories(info: ModuleInfoV, t: Tunables) -> bool {
    forall|i: int|
        0 <= i < info.memories.len() ==> {
            &&& (#[trigger] info.memories[i]).minimum <= t.memory_pages_limit
            &&& (info.memories[i].minimum as int) * 65536 <= usize::MAX
        }
}

/// Checks that every static initialization segment targets an
/// instance-owned store and stays within its initial size.
fn check_segments(info: &crate::types::ModuleInfo) -> (r: bool)
    requires
        info@.wf(),
        plans_ok_memories_weak(info@),
    ensures
        r == segments_ok(info@),
{
    let ghost infov = info@;
    let (_, nt, nm, _) = count_import_kinds(&info.imports);
    let n: usize = info.elements.len();
    let mut i: usize = 0;
    while i < n
        invariant
            infov == info@,
            infov.wf(),
            n == infov.elements.len(),
            n == info.elements@.len(),
            nt == num_table_imports(infov.imports),
            info.tables@.len() == infov.tables.len(),
            0 <= i <= n,
            forall|k: int|
                0 <= k < i ==> {
                    let seg = #[trigger] infov.elements[k];
                    &&& seg.table >= num_table_imports(infov.imports)
                    &&& seg.offset + seg.entries.len() <= infov.tables[seg.table
                        - num_table_imports(infov.imports)].minimum
                },
        decreases n - i,
    {
        proof {
            assert(infov.elements[i as int] == info.elements@[i as int]@);
        }
        let seg = &info.elements[i];
        if (seg.table as usize) < nt {
            return false;
        }
        let lt: usize = (seg.table as usize) - nt;
        proof {
            assert(infov.elements[i as int].table < infov.num_tables());
            assert(infov.tables[lt as int] == info.tables@[lt as int]);
        }
        if !range_fits(seg.offset, seg.entries.len(), info.tables[lt].minimum as usize) {
            return false;
        }
        i += 1;
    }
    let n: usize = info.data.len();
    let mut i: usize = 0;
    while i < n
        invariant
            infov == info@,
            infov.wf(),
            plans_ok_memories_weak(infov),
            n == infov.data.len(),
            n == info.data@.len(),
            nm == num_memory_imports(infov.imports),
            info.memories@.len() == infov.memories.len(),
            segments_ok_elements(infov),
            0 <= i <= n,
            forall|k: int|
                0 <= k < i ==> {
                    let seg = #[trigger] infov.data[k];
                    &&& seg.memory >= num_memory_imports(infov.imports)
                    &&& seg.offset + seg.bytes.len() <= (infov.memories[seg.memory
                        - num_memory_imports(infov.imports)].minimum as int) * 65536
                },
        decreases n - i,
    {
        proof {
            assert(infov.data[i as int] == info.data@[i as int]@);
        }
        let seg = &info.data[i];
        if (seg.memory as usize) < nm {
            return false;
        }
        let lm: usize = (seg.memory as usize) - nm;
        proof {
            assert(infov.data[i as int].memory < infov.num_memories());
            assert(infov.memories[lm as int] == info.memories@[lm as int]);
            let m = infov.memories[lm as int].minimum as int;
            assert(m * 65536 <= 0xffffffffi64 * 65536) by (nonlinear_arith)
                requires
                    0 <= m <= 0xffffffff,
            ;
        }
        let bytes64: u64 = (info.memories[lm].minimum as u64) * 65536;
        if bytes64 > (usize::MAX as u64) {
            return false;
        }
        if !range_fits(seg.offset, seg.bytes.len(), bytes64 as usize) {
            return false;
        }
        i += 1;
    }
    true
}

/// The byte size of every memory plan fits the machine.
pub open spec fn plans_ok_memories_weak(info: ModuleInfoV) -> bool {
    forall|i: int|
        0 <= i < info.memories.len() ==> ((#[trigger] info.memories[i]).minimum as int) * 65536
            <= usize::MAX
}

/// The element half of `segments_ok`.
pub open spec fn segments_ok_elements(info: ModuleInfoV) -> bool {
    forall|i: int|
        0 <= i < info.elements.len() ==> {
            let seg = #[trigger] info.elements[i];
            &&& seg.table >= num_table_imports(info.imports)
            &&& seg.offset + seg.entries.len() <= info.tables[seg.table
                - num_table_imports(info.imports)].minimum
        }
}

/// Whether a function-table entry is the resolved form of a declared
/// function import: the import resolves to a host function, and the entry
/// carries exactly its type and body.
pub open spec fn func_import_entry_ok(
    io: ImportObjectV,
    d: ImportDeclV,
    f: RuntimeFunctionV,
) -> bool {
    &&& (spec_resolve(io, d.module, d.field) matches Some(ExternV::Function(_)))
    &&& f == (RuntimeFunctionV {
        ty: (spec_resolve(io, d.module, d.field)->Some_0->Function_0).ty,
        code: CodeRefV::Host((spec_resolve(io, d.module, d.field)->Some_0->Function_0).body),
    })
}

/// Whether a global slot is the resolved form of a declared global import:
/// a back-reference to exactly where the import resolves.
pub open spec fn global_import_entry_ok(
    io: ImportObjectV,
    d: ImportDeclV,
    s: GlobalSlot,
) -> bool {
    &&& s matches GlobalSlot::Imported { namespace, entry }
    &&& resolves_at(io, d.module, d.field, s->Imported_namespace as int, s->Imported_entry as int)
}

/// Everything a successful instantiation establishes: the inputs were all
/// in order, and the instance's index spaces are laid out exactly as the
/// module declares — imported entries first (functions resolved to host
/// bodies, globals as back-references into the import object), then the
/// module's own: each local function patched to its placed arena address
/// under its declared type, and each module-defined global holding its
/// declared type (and, when no start function ran, exactly its declared
/// initial value).
pub open spec fn instantiate_ok_post(
    cm: CompiledModuleV,
    io: ImportObjectV,
    tunables: Tunables,
    inst: InstanceV,
) -> bool {
    let info = cm.artifact.info;
    &&& all_imports_ok(info, io)
    &&& plans_ok(info, tunables)
    &&& segments_ok(info)
    &&& inst.exports == info.exports
    &&& inst.functions.len() == info.num_funcs()
    &&& inst.globals.len() == info.num_globals()
    &&& inst.n_memories == info.num_memories()
    &&& inst.n_tables == info.num_tables()
    &&& forall|i: int|
        0 <= i < info.functions.len() ==> inst.functions[num_func_imports(info.imports) + i]
            == (RuntimeFunctionV {
            ty: info.types[info.functions[i] as int],
            code: CodeRefV::Arena(cm.function_addrs[i]),
        })
    &&& forall|j: int|
        0 <= j < num_func_imports(info.imports) ==> func_import_entry_ok(
            io,
            func_imports(info.imports)[j],
            (#[trigger] inst.functions[j]),
        )
    &&& forall|j: int|
        0 <= j < num_global_imports(info.imports) ==> global_import_entry_ok(
            io,
            global_imports(info.imports)[j],
            (#[trigger] inst.globals[j]),
        )
    &&& forall|i: int|
        0 <= i < info.globals.len() ==> ((#[trigger] inst.globals[num_global_imports(info.imports)
            + i]) matches GlobalSlot::Owned(c) && c.ty == info.globals[i].ty)
    &&& (info.start is None ==> forall|i: int|
        0 <= i < info.globals.len() ==> (#[trigger] inst.globals[num_global_imports(info.imports)
            + i]) == GlobalSlot::Owned(
            GlobalCell { ty: info.globals[i].ty, value: info.globals[i].init },
        ))
}

/// Builds an instance from a compiled module whose code lives in the
/// arena.
///
/// The failure modes, in checking order: every declared import must
/// resolve in the import object to an extern of the declared kind and type
/// (`Link`); every owned memory and table plan must stay within the
/// tunables and the machine (`Resource`); every static initialization
/// segment must target instance-owned storage and stay within its initial
/// size (`Link`); and the start function, if declared, must run without
/// trapping (`Start` — no instance is returned and everything already
/// built is released). Without a start function, success is owed whenever
/// imports, plans and segments are all in order, and the import object is
/// returned untouched; a start function can change global values in it,
/// nothing else.
pub fn build_instance(
    arena: &CodeMemoryArena,
    tunables: &Tunables,
    cm: &CompiledModule,
    imports: &mut ImportObject,
) -> (r: Result<Instance, InstantiationError>)
    requires
        arena.wf(),
        cm@.wf(),
    ensures
        imports_preserved(old(imports)@, final(imports)@),
        !all_imports_ok(cm@.artifact.info, old(imports)@) ==> (r matches Err(
            InstantiationError::Link(_),
        ) && *final(imports) == *old(imports)),
        (all_imports_ok(cm@.artifact.info, old(imports)@) && !plans_ok(
            cm@.artifact.info,
            *tunables,
        )) ==> (r matches Err(InstantiationError::Resource(_)) && *final(imports) == *old(
            imports,
        )),
        (all_imports_ok(cm@.artifact.info, old(imports)@) && plans_ok(
            cm@.artifact.info,
            *tunables,
        ) && !segments_ok(cm@.artifact.info)) ==> (r matches Err(InstantiationError::Link(_))
            && *final(imports) == *old(imports)),
        (all_imports_ok(cm@.artifact.info, old(imports)@) && plans_ok(
            cm@.artifact.info,
            *tunables,
        ) && segments_ok(cm@.artifact.info) && cm@.artifact.info.start is None) ==> r is Ok,
        (r matches Err(InstantiationError::Start(_))) ==> cm@.artifact.info.start is Some,
        cm@.artifact.info.start is None ==> *final(imports) == *old(imports),
        (r matches Ok(inst) ==> instantiate_ok_post(cm@, old(imports)@, *tunables, inst@)),
        ((all_imports_ok(cm@.artifact.info, old(imports)@) && plans_ok(
            cm@.artifact.info,
            *tunables,
        ) && segments_ok(cm@.artifact.info) && cm@.artifact.info.start is Some) ==> {
            &&& (r is Ok || (r matches Err(InstantiationError::Start(_))))
            &&& exists|fs: Seq<RuntimeFunctionV>, gs: Seq<GlobalSlot>|
                {
                    &&& #[trigger] built_start_state(cm@, old(imports)@, fs, gs)
                    &&& ({
                        let out = crate::interp::sem_call(
                            *arena,
                            fs,
                            crate::interp::SemState { globals: gs, imports: old(imports)@ },
                            cm@.artifact.info.start->Some_0 as int,
                            Seq::<Value>::empty(),
                            DEFAULT_CALL_FUEL as nat,
                        );
                        match r {
                            Ok(inst) => out.result is Ok && inst@.functions == fs && inst@.globals
                                == out.state.globals && final(imports)@ == out.state.imports,
                            Err(InstantiationError::Start(t)) => out.result
                                == Err::<Seq<Value>, Trap>(t) && final(imports)@
                                == out.state.imports,
                            _ => false,
                        }
                    })
                }
        }),
{
    let info = &cm.artifact.info;
    let ghost infov = cm@.artifact.info;
    let ghost iov = imports@;
    let ghost iv = infov.imports;
    if !check_imports(info, imports) {
        return Err(InstantiationError::Link("an import did not resolve or match".to_owned()));
    }
    if !check_plans(info, tunables) {
        return Err(
            InstantiationError::Resource("a storage plan exceeds the tunables".to_owned()),
        );
    }
    if !check_segments(info) {
        return Err(
            InstantiationError::Link(
                "a static initialization segment is out of bounds or targets imported storage".to_owned(),
            ),
        );
    }
    // resolve every import into the instance's index spaces
    let n_imports: usize = info.imports.len();
    let mut functions: Vec<RuntimeFunction> = Vec::new();
    let mut globals: Vec<GlobalSlot> = Vec::new();
    let mut mem_slots: Vec<MemorySlot> = Vec::new();
    let mut table_slots: Vec<TableSlot> = Vec::new();
    let mut nf: usize = 0;
    let mut ng: usize = 0;
    let mut nm: usize = 0;
    let mut nt: usize = 0;
    let mut i: usize = 0;
    proof {
        assert(iv.take(0) =~= Seq::<ImportDeclV>::empty());
    }
    while i < n_imports
        invariant
            iov == old(imports)@,
            *imports == *old(imports),
            infov == cm@.artifact.info,
            info == &cm.artifact.info,
            iv == infov.imports,
            infov.wf(),
            all_imports_ok(infov, iov),
            n_imports == iv.len(),
            n_imports == info.imports@.len(),
            infov.types.len() == info.types@.len(),
            0 <= i <= n_imports,
            nf == num_func_imports(iv.take(i as int)),
            ng == num_global_imports(iv.take(i as int)),
            nm == num_memory_imports(iv.take(i as int)),
            nt == num_table_imports(iv.take(i as int)),
            functions@.len() == nf,
            globals@.len() == ng,
            mem_slots@.len() == nm,
            table_slots@.len() == nt,
            nf + ng + nm + nt == i,
            forall|j: int| 0 <= j < nf ==> (#[trigger] functions@[j])@.code is Host,
            forall|j: int| 0 <= j < ng ==> (#[trigger] globals@[j]) is Imported,
            forall|j: int|
                0 <= j < nf ==> func_import_entry_ok(
                    iov,
                    func_imports(iv.take(i as int))[j],
                    (#[trigger] functions@[j])@,
                ),
            forall|j: int|
                0 <= j < ng ==> global_import_entry_ok(
                    iov,
                    global_imports(iv.take(i as int))[j],
                    (#[trigger] globals@[j]),
                ),
        decreases n_imports - i,
    {
        proof {
            assert(iv[i as int] == info.imports@[i as int]@);
            assert(iv.take(i + 1).drop_last() =~= iv.take(i as int));
            assert(iv.take(i + 1).last() == iv[i as int]);
            assert(import_ok(iov, iv[i as int], infov.types));
            reveal(Seq::filter);
            if iv[i as int].ty is Function {
                assert(func_imports(iv.take(i + 1)) =~= func_imports(iv.take(i as int)).push(
                    iv[i as int],
                ));
                assert(global_imports(iv.take(i + 1)) =~= global_imports(iv.take(i as int)));
            } else if iv[i as int].ty is Global {
                assert(global_imports(iv.take(i + 1)) =~= global_imports(iv.take(i as int)).push(
                    iv[i as int],
                ));
                assert(func_imports(iv.take(i + 1)) =~= func_imports(iv.take(i as int)));
            } else {
                assert(func_imports(iv.take(i + 1)) =~= func_imports(iv.take(i as int)));
                assert(global_imports(iv.take(i + 1)) =~= global_imports(iv.take(i as int)));
            }
            lemma_func_imports_len(iv.take(i as int));
            lemma_func_imports_len(iv.take(i + 1));
            lemma_global_imports_len(iv.take(i as int));
            lemma_global_imports_len(iv.take(i + 1));
        }
        let decl = &info.imports[i];
        let (rn, re): (usize, usize) = match imports.resolve_index(
            decl.module.as_slice(),
            decl.field.as_slice(),
        ) {
            None => {
                proof {
                    assert(false);
                }
                return Err(InstantiationError::Link("unresolved import".to_owned()));
            },
            Some(x) => x,
        };
        let ext: &Extern = match imports.extern_at(rn, re) {
            Some(x) => x,
            None => {
                proof {
                    assert(false);
                }
                return Err(InstantiationError::Link("unresolved import".to_owned()));
            },
        };
        match (&decl.ty, ext) {
            (ExternType::Function(_), Extern::Function(hf)) => {
                let ghost hv = hf@;
                let ghost fpre = functions@;
                functions.push(
                    RuntimeFunction {
                        ty: hf.ty.duplicate(),
                        code: CodeRef::Host(copy_bytes(&hf.body)),
                    },
                );
                proof {
                    assert(spec_resolve(iov, iv[i as int].module, iv[i as int].field) == Some(
                        ExternV::Function(hv),
                    ));
                    assert(functions@[nf as int]@ =~= (RuntimeFunctionV {
                        ty: hv.ty,
                        code: CodeRefV::Host(hv.body),
                    }));
                    assert(func_imports(iv.take(i + 1))[nf as int] == iv[i as int]);
                    assert forall|j: int| 0 <= j < nf + 1 implies func_import_entry_ok(
                        iov,
                        func_imports(iv.take(i + 1))[j],
                        (#[trigger] functions@[j])@,
                    ) by {
                        if j < nf {
                            assert(functions@[j] == fpre[j]);
                            assert(func_import_entry_ok(
                                iov,
                                func_imports(iv.take(i as int))[j],
                                fpre[j]@,
                            ));
                            assert(func_imports(iv.take(i + 1))[j] == func_imports(
                                iv.take(i as int),
                            )[j]);
                        } else {
                            assert(func_imports(iv.take(i + 1))[j] == iv[i as int]);
                        }
                    }
                }
                nf += 1;
                proof {
                    assert(global_imports(iv.take(i + 1)) == global_imports(iv.take(i as int)));
                    assert forall|j: int| 0 <= j < ng implies global_import_entry_ok(
                        iov,
                        global_imports(iv.take(i + 1))[j],
                        (#[trigger] globals@[j]),
                    ) by {
                        assert(global_import_entry_ok(
                            iov,
                            global_imports(iv.take(i as int))[j],
                            globals@[j],
                        ));
                        assert(global_imports(iv.take(i + 1))[j] == global_imports(
                            iv.take(i as int),
                        )[j]);
                    }
                }
            },
            (ExternType::Global(_), Extern::Global(_)) => {
                globals.push(GlobalSlot::Imported { namespace: rn, entry: re });
                proof {
                    assert(globals@[ng as int] == GlobalSlot::Imported {
                        namespace: rn,
                        entry: re,
                    });
                    assert(resolves_at(iov, iv[i as int].module, iv[i as int].field, rn as int, re as int));
                    assert(global_imports(iv.take(i + 1))[ng as int] == iv[i as int]);
                    assert forall|j: int| 0 <= j < ng + 1 implies global_import_entry_ok(
                        iov,
                        global_imports(iv.take(i + 1))[j],
                        (#[trigger] globals@[j]),
                    ) by {
                        if j < ng {
                            assert(global_import_entry_ok(
                                iov,
                                global_imports(iv.take(i as int))[j],
                                globals@[j],
                            ));
                            assert(global_imports(iv.take(i + 1))[j] == global_imports(
                                iv.take(i as int),
                            )[j]);
                        } else {
                            assert(global_imports(iv.take(i + 1))[j] == iv[i as int]);
                        }
                    }
                }
                ng += 1;
                proof {
                    assert(func_imports(iv.take(i + 1)) == func_imports(iv.take(i as int)));
                    assert forall|j: int| 0 <= j < nf implies func_import_entry_ok(
                        iov,
                        func_imports(iv.take(i + 1))[j],
                        (#[trigger] functions@[j])@,
                    ) by {
                        assert(func_import_entry_ok(
                            iov,
                            func_imports(iv.take(i as int))[j],
                            functions@[j]@,
                        ));
                        assert(func_imports(iv.take(i + 1))[j] == func_imports(
                            iv.take(i as int),
                        )[j]);
                    }
                }
            },
            (ExternType::Memory(_), Extern::Memory(_)) => {
                mem_slots.push(MemorySlot::Imported { namespace: rn, entry: re });
                nm += 1;
                proof {
                    assert(func_imports(iv.take(i + 1)) == func_imports(iv.take(i as int)));
                    assert forall|j: int| 0 <= j < nf implies func_import_entry_ok(
                        iov,
                        func_imports(iv.take(i + 1))[j],
                        (#[trigger] functions@[j])@,
                    ) by {
                        assert(func_import_entry_ok(
                            iov,
                            func_imports(iv.take(i as int))[j],
                            functions@[j]@,
                        ));
                        assert(func_imports(iv.take(i + 1))[j] == func_imports(
                            iv.take(i as int),
                        )[j]);
                    }
                }
                proof {
                    assert(global_imports(iv.take(i + 1)) == global_imports(iv.take(i as int)));
                    assert forall|j: int| 0 <= j < ng implies global_import_entry_ok(
                        iov,
                        global_imports(iv.take(i + 1))[j],
                        (#[trigger] globals@[j]),
                    ) by {
                        assert(global_import_entry_ok(
                            iov,
                            global_imports(iv.take(i as int))[j],
                            globals@[j],
                        ));
                        assert(global_imports(iv.take(i + 1))[j] == global_imports(
                            iv.take(i as int),
                        )[j]);
                    }
                }
            },
            (ExternType::Table(_), Extern::Table(_)) => {
                table_slots.push(TableSlot::Imported { namespace: rn, entry: re });
                nt += 1;
                proof {
                    assert(func_imports(iv.take(i + 1)) == func_imports(iv.take(i as int)));
                    assert forall|j: int| 0 <= j < nf implies func_import_entry_ok(
                        iov,
                        func_imports(iv.take(i + 1))[j],
                        (#[trigger] functions@[j])@,
                    ) by {
                        assert(func_import_entry_ok(
                            iov,
                            func_imports(iv.take(i as int))[j],
                            functions@[j]@,
                        ));
                        assert(func_imports(iv.take(i + 1))[j] == func_imports(
                            iv.take(i as int),
                        )[j]);
                    }
                }
                proof {
                    assert(global_imports(iv.take(i + 1)) == global_imports(iv.take(i as int)));
                    assert forall|j: int| 0 <= j < ng implies global_import_entry_ok(
                        iov,
                        global_imports(iv.take(i + 1))[j],
                        (#[trigger] globals@[j]),
                    ) by {
                        assert(global_import_entry_ok(
                            iov,
                            global_imports(iv.take(i as int))[j],
                            globals@[j],
                        ));
                        assert(global_imports(iv.take(i + 1))[j] == global_imports(
                            iv.take(i as int),
                        )[j]);
                    }
                }
            },
            _ => {
                proof {
                    assert(false);
                }
                return Err(InstantiationError::Link("incompatible import".to_owned()));
            },
        }
        i += 1;
    }
    proof {
        assert(iv.take(n_imports as int) =~= iv);
    }
    let ghost nf0 = nf as int;
    let ghost ng0 = ng as int;
    let ghost nm0 = nm as int;
    let ghost nt0 = nt as int;
    // allocate owned memories and apply the data segments
    let n_mem: usize = info.memories.len();
    let mut owned_memories: Vec<MemoryStore> = Vec::new();
    let mut i: usize = 0;
    while i < n_mem
        invariant
            infov == cm@.artifact.info,
            info == &cm.artifact.info,
            plans_ok(infov, *tunables),
            n_mem == infov.memories.len(),
            n_mem == info.memories@.len(),
            0 <= i <= n_mem,
            owned_memories@.len() == i,
            forall|k: int|
                0 <= k < i ==> (#[trigger] owned_memories@[k]).data@.len() == (
                infov.memories[k].minimum as int) * 65536,
        decreases n_mem - i,
    {
        proof {
            assert(infov.memories[i as int] == info.memories@[i as int]);
        }
        let plan: MemoryType = info.memories[i];
        let bytes64: u64 = (plan.minimum as u64) * 65536;
        proof {
            let m = plan.minimum as int;
            assert(m * 65536 <= 0xffffffffi64 * 65536) by (nonlinear_arith)
                requires
                    0 <= m <= 0xffffffff,
            ;
        }
        owned_memories.push(MemoryStore { ty: plan, data: zero_bytes(bytes64 as usize) });
        i += 1;
    }
    let n_data: usize = info.data.len();
    let mut i: usize = 0;
    while i < n_data
        invariant
            infov == cm@.artifact.info,
            info == &cm.artifact.info,
            infov.wf(),
            segments_ok(infov),
            nm0 >= 0,
            nm0 == num_memory_imports(infov.imports),
            nm as int == nm0,
            n_data == infov.data.len(),
            n_data == info.data@.len(),
            n_mem == infov.memories.len(),
            owned_memories@.len() == n_mem,
            forall|k: int|
                0 <= k < n_mem ==> (#[trigger] owned_memories@[k]).data@.len() == (
                infov.memories[k].minimum as int) * 65536,
            0 <= i <= n_data,
        decreases n_data - i,
    {
        proof {
            assert(infov.data[i as int] == info.data@[i as int]@);
            assert(infov.data[i as int].memory < infov.num_memories());
        }
        let seg = &info.data[i];
        let lm: usize = (seg.memory as usize) - nm;
        let mut store: MemoryStore = owned_memories.remove(lm);
        let sz: usize = store.data.len();
        let m: usize = seg.bytes.len();
        let mut j: usize = 0;
        while j < m
            invariant
                m == seg.bytes@.len(),
                0 <= j <= m,
                (seg.offset as int) + m <= sz,
                store.data@.len() == sz,
            decreases m - j,
        {
            store.data.set((seg.offset as usize) + j, seg.bytes[j]);
            j += 1;
        }
        owned_memories.insert(lm, store);
        proof {
            assert(owned_memories@.len() == n_mem);
        }
        i += 1;
    }
    // allocate owned tables and apply the element segments
    let n_tab: usize = info.tables.len();
    let mut owned_tables: Vec<TableStore> = Vec::new();
    let mut i: usize = 0;
    while i < n_tab
        invariant
            infov == cm@.artifact.info,
            info == &cm.artifact.info,
            plans_ok(infov, *tunables),
            n_tab == infov.tables.len(),
            n_tab == info.tables@.len(),
            0 <= i <= n_tab,
            owned_tables@.len() == i,
            forall|k: int|
                0 <= k < i ==> (#[trigger] owned_tables@[k]).elements@.len()
                    == infov.tables[k].minimum,
        decreases n_tab - i,
    {
        proof {
            assert(infov.tables[i as int] == info.tables@[i as int]);
        }
        let plan: TableType = info.tables[i];
        owned_tables.push(
            TableStore { ty: plan, elements: empty_elements(plan.minimum as usize) },
        );
        i += 1;
    }
    let n_elem: usize = info.elements.len();
    let mut i: usize = 0;
    while i < n_elem
        invariant
            infov == cm@.artifact.info,
            info == &cm.artifact.info,
            infov.wf(),
            segments_ok(infov),
            nt0 >= 0,
            nt0 == num_table_imports(infov.imports),
            nt as int == nt0,
            n_elem == infov.elements.len(),
            n_elem == info.elements@.len(),
            n_tab == infov.tables.len(),
            owned_tables@.len() == n_tab,
            forall|k: int|
                0 <= k < n_tab ==> (#[trigger] owned_tables@[k]).elements@.len()
                    == infov.tables[k].minimum,
            0 <= i <= n_elem,
        decreases n_elem - i,
    {
        proof {
            assert(infov.elements[i as int] == info.elements@[i as int]@);
            assert(infov.elements[i as int].table < infov.num_tables());
        }
        let seg = &info.elements[i];
        let lt: usize = (seg.table as usize) - nt;
        let mut store: TableStore = owned_tables.remove(lt);
        let sz: usize = store.elements.len();
        let m: usize = seg.entries.len();
        let mut j: usize = 0;
        while j < m
            invariant
                m == seg.entries@.len(),
                0 <= j <= m,
                (seg.offset as int) + m <= sz,
                store.elements@.len() == sz,
            decreases m - j,
        {
            store.elements.set((seg.offset as usize) + j, Some(seg.entries[j]));
            j += 1;
        }
        owned_tables.insert(lt, store);
        i += 1;
    }
    // wrap the owned stores behind the imported entries, in index order
    let n_own_mem: usize = owned_memories.len();
    let mut k: usize = 0;
    while k < n_own_mem
        invariant
            0 <= k <= n_own_mem,
            owned_memories@.len() == n_own_mem - k,
            nm0 >= 0,
            mem_slots@.len() == nm0 + k,
        decreases n_own_mem - k,
    {
        let store = owned_memories.remove(0);
        mem_slots.push(MemorySlot::Owned(store));
        k += 1;
    }
    let n_own_tab: usize = owned_tables.len();
    let mut k: usize = 0;
    while k < n_own_tab
        invariant
            0 <= k <= n_own_tab,
            owned_tables@.len() == n_own_tab - k,
            nt0 >= 0,
            table_slots@.len() == nt0 + k,
        decreases n_own_tab - k,
    {
        let store = owned_tables.remove(0);
        table_slots.push(TableSlot::Owned(store));
        k += 1;
    }
    // patch the local functions to their published arena spans
    let n_local: usize = info.functions.len();
    let mut i: usize = 0;
    while i < n_local
        invariant
            infov == cm@.artifact.info,
            info == &cm.artifact.info,
            cm@.wf(),
            infov.wf(),
            n_local == infov.functions.len(),
            n_local == info.functions@.len(),
            infov.types.len() == info.types@.len(),
            cm@.function_addrs.len() == n_local,
            cm.function_addrs@.len() == n_local,
            0 <= i <= n_local,
            nf0 >= 0,
            nf0 == num_func_imports(infov.imports),
            iov == old(imports)@,
            iv == infov.imports,
            functions@.len() == nf0 + i,
            forall|j: int| 0 <= j < nf0 ==> (#[trigger] functions@[j])@.code is Host,
            forall|j: int|
                0 <= j < nf0 ==> func_import_entry_ok(
                    iov,
                    func_imports(iv)[j],
                    (#[trigger] functions@[j])@,
                ),
            forall|k: int|
                0 <= k < i ==> (#[trigger] functions@[nf0 + k])@ == (RuntimeFunctionV {
                    ty: infov.types[infov.functions[k] as int],
                    code: CodeRefV::Arena(cm@.function_addrs[k]),
                }),
        decreases n_local - i,
    {
        let ti: u32 = info.functions[i];
        proof {
            assert(infov.functions[i as int] < infov.types.len());
            assert(infov.types[ti as int] == info.types@[ti as int]@);
            assert(cm@.function_addrs[i as int] == cm.function_addrs@[i as int]);
        }
        let ty = info.types[ti as usize].duplicate();
        let addr: usize = cm.function_addrs[i];
        let ghost pref = functions@;
        functions.push(RuntimeFunction { ty, code: CodeRef::Arena(addr) });
        proof {
            assert(functions@[nf0 + i as int]@ =~= (RuntimeFunctionV {
                ty: infov.types[infov.functions[i as int] as int],
                code: CodeRefV::Arena(cm@.function_addrs[i as int]),
            }));
            assert forall|k: int| 0 <= k < i implies (#[trigger] functions@[nf0 + k])@
                == (RuntimeFunctionV {
                ty: infov.types[infov.functions[k] as int],
                code: CodeRefV::Arena(cm@.function_addrs[k]),
            }) by {
                assert(functions@[nf0 + k] == pref[nf0 + k]);
            }
        }
        i += 1;
    }
    // instance-owned globals with their initial values
    let n_glob: usize = info.globals.len();
    let mut i: usize = 0;
    while i < n_glob
        invariant
            infov == cm@.artifact.info,
            info == &cm.artifact.info,
            n_glob == infov.globals.len(),
            n_glob == info.globals@.len(),
            0 <= i <= n_glob,
            ng0 >= 0,
            ng0 == num_global_imports(infov.imports),
            iov == old(imports)@,
            iv == infov.imports,
            globals@.len() == ng0 + i,
            forall|j: int| 0 <= j < ng0 ==> (#[trigger] globals@[j]) is Imported,
            forall|j: int|
                0 <= j < ng0 ==> global_import_entry_ok(
                    iov,
                    global_imports(iv)[j],
                    (#[trigger] globals@[j]),
                ),
            forall|k: int|
                0 <= k < i ==> (#[trigger] globals@[ng0 + k]) == GlobalSlot::Owned(
                    GlobalCell { ty: infov.globals[k].ty, value: infov.globals[k].init },
                ),
        decreases n_glob - i,
    {
        proof {
            assert(infov.globals[i as int] == info.globals@[i as int]);
        }
        let g = info.globals[i];
        let ghost preg = globals@;
        globals.push(GlobalSlot::Owned(GlobalCell { ty: g.ty, value: g.init }));
        proof {
            assert(globals@[ng0 + i as int] == GlobalSlot::Owned(
                GlobalCell { ty: infov.globals[i as int].ty, value: infov.globals[i as int].init },
            ));
            assert forall|k: int| 0 <= k < i implies (#[trigger] globals@[ng0 + k])
                == GlobalSlot::Owned(
                GlobalCell { ty: infov.globals[k].ty, value: infov.globals[k].init },
            ) by {
                assert(globals@[ng0 + k] == preg[ng0 + k]);
            }
        }
        i += 1;
    }
    // the exports, in declaration order
    let n_exp: usize = info.exports.len();
    let mut exports: Vec<ExportDecl> = Vec::new();
    let mut i: usize = 0;
    while i < n_exp
        invariant
            infov == cm@.artifact.info,
            info == &cm.artifact.info,
            n_exp == infov.exports.len(),
            n_exp == info.exports@.len(),
            0 <= i <= n_exp,
            exports@.len() == i,
            forall|k: int| 0 <= k < i ==> (#[trigger] exports@[k])@ == infov.exports[k],
        decreases n_exp - i,
    {
        proof {
            assert(infov.exports[i as int] == info.exports@[i as int]@);
        }
        let e = &info.exports[i];
        exports.push(ExportDecl { name: copy_bytes(&e.name), index: e.index });
        i += 1;
    }
    // the start function, if declared; a trap aborts the instantiation
    let ghost globals_before = globals@;
    let ghost fsv = functions@.map_values(|f: RuntimeFunction| f@);
    let ghost imports_before = imports@;
    proof {
        assert(built_start_state(cm@, iov, fsv, globals_before)) by {
            assert forall|x: int| 0 <= x < infov.functions.len() implies fsv[nf0 + x]
                == (RuntimeFunctionV {
                ty: infov.types[infov.functions[x] as int],
                code: CodeRefV::Arena(cm@.function_addrs[x]),
            }) by {
                assert(fsv[nf0 + x] == functions@[nf0 + x]@);
            }
            assert forall|j: int| 0 <= j < nf0 implies func_import_entry_ok(
                iov,
                func_imports(infov.imports)[j],
                (#[trigger] fsv[j]),
            ) by {
                assert(fsv[j] == functions@[j]@);
            }
            lemma_func_imports_len(iv);
            lemma_global_imports_len(iv);
        }
    }
    let mut started = false;
    if let Some(f) = info.start {
        started = true;
        let empty_args: Vec<Value> = Vec::new();
        proof {
            assert(empty_args@ =~= Seq::<Value>::empty());
            assert(imports_before == old(imports)@);
        }
        match exec_call(
            arena,
            &functions,
            &mut globals,
            imports,
            f as usize,
            empty_args,
            DEFAULT_CALL_FUEL,
        ) {
            Ok(_) => (),
            Err(t) => {
                proof {
                    assert(infov.start is Some);
                    assert(crate::interp::sem_matches(
                        crate::interp::sem_call(
                            *arena,
                            fsv,
                            crate::interp::SemState {
                                globals: globals_before,
                                imports: imports_before,
                            },
                            f as int,
                            Seq::<Value>::empty(),
                            DEFAULT_CALL_FUEL as nat,
                        ),
                        globals@,
                        imports@,
                        Err::<Vec<Value>, Trap>(t),
                    ));
                }
                return Err(InstantiationError::Start(t));
            },
        }
    }
    proof {
        if !started {
            crate::interp::lemma_preserved_refl(globals@, imports@);
        }
        assert(globals_preserved(globals_before, globals@));
    }
    let inst = Instance { functions, globals, memories: mem_slots, tables: table_slots, exports };
    proof {
        assert(inst@.exports =~= infov.exports);
        assert forall|x: int| 0 <= x < infov.functions.len() implies inst@.functions[nf0 + x]
            == (RuntimeFunctionV {
            ty: infov.types[infov.functions[x] as int],
            code: CodeRefV::Arena(cm@.function_addrs[x]),
        }) by {
            assert(inst@.functions[nf0 + x] == inst.functions@[nf0 + x]@);
        }
        assert forall|j: int| 0 <= j < nf0 implies (#[trigger] inst@.functions[j]).code
            is Host by {
            assert(inst@.functions[j] == inst.functions@[j]@);
        }
        lemma_func_imports_len(iv);
        lemma_global_imports_len(iv);
        assert forall|j: int| 0 <= j < nf0 implies func_import_entry_ok(
            iov,
            func_imports(infov.imports)[j],
            (#[trigger] inst@.functions[j]),
        ) by {
            assert(inst@.functions[j] == inst.functions@[j]@);
            assert(func_import_entry_ok(iov, func_imports(iv)[j], inst.functions@[j]@));
        }
        assert forall|j: int| 0 <= j < ng0 implies global_import_entry_ok(
            iov,
            global_imports(infov.imports)[j],
            (#[trigger] inst@.globals[j]),
        ) by {
            assert(global_import_entry_ok(iov, global_imports(iv)[j], globals_before[j]));
            assert(slot_update_ok(globals_before[j], inst@.globals[j]));
        }
        assert forall|j: int| 0 <= j < ng0 implies (#[trigger] inst@.globals[j]) is Imported by {
            assert(slot_update_ok(globals_before[j], inst@.globals[j]));
        }
        assert forall|x: int| 0 <= x < infov.globals.len() implies ((#[trigger] inst@.globals[ng0
            + x]) matches GlobalSlot::Owned(c) && c.ty == infov.globals[x].ty) by {
            assert(slot_update_ok(globals_before[ng0 + x], inst@.globals[ng0 + x]));
        }
        if !started {
            assert forall|x: int| 0 <= x < infov.globals.len() implies (
            #[trigger] inst@.globals[ng0 + x]) == GlobalSlot::Owned(
                GlobalCell { ty: infov.globals[x].ty, value: infov.globals[x].init },
            ) by {}
        }
    }
    Ok(inst)
}

} // verus!
