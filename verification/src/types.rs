//! The value and module data model: numeric types, function signatures, and
//! the immutable description of a validated module.

use vstd::prelude::*;

verus! {

/// A WebAssembly numeric value type. Only the integer types are supported.
#[derive(Debug, Clone, Copy, PartialEq, Eq, Structural)]
pub enum ValType {
    I32,
    I64,
}

/// A runtime value.
#[derive(Debug, Clone, Copy, PartialEq, Eq, Structural)]
pub enum Value {
    I32(i32),
    I64(i64),
}

impl Value {
    /// The type of this value.
    pub open spec fn spec_ty(&self) -> ValType {
        match self {
            Value::I32(_) => ValType::I32,
            Value::I64(_) => ValType::I64,
        }
    }

    /// The type of this value.
    #[verifier::when_used_as_spec(spec_ty)]
    pub fn ty(&self) -> (t: ValType)
        ensures
            t == self.spec_ty(),
    {
        match self {
            Value::I32(_) => ValType::I32,
            Value::I64(_) => ValType::I64,
        }
    }
}

/// Whether every value has the type that stands at the same position.
pub open spec fn values_have_types(vs: Seq<Value>, ts: Seq<ValType>) -> bool {
    &&& vs.len() == ts.len()
    &&& forall|i: int| 0 <= i < vs.len() ==> (#[trigger] vs[i]).spec_ty() == ts[i]
}

/// The mathematical shape of a function type: its parameter and result
/// type sequences.
#[verifier::ext_equal]
pub ghost struct FunctionTypeV {
    pub params: Seq<ValType>,
    pub results: Seq<ValType>,
}

/// A function type: the parameter and result types of a function.
#[derive(Debug, Clone)]
pub struct FunctionType {
    pub params: Vec<ValType>,
    pub results: Vec<ValType>,
}

impl View for FunctionType {
    type V = FunctionTypeV;

    open spec fn view(&self) -> FunctionTypeV {
        FunctionTypeV { params: self.params@, results: self.results@ }
    }
}

/// Whether two vectors hold the same value types in the same order.
fn valtypes_eq(a: &Vec<ValType>, b: &Vec<ValType>) -> (r: bool)
    ensures
        r == (a@ == b@),
{
    if a.len() != b.len() {
        assert(a@.len() != b@.len());
        return false;
    }
    let n: usize = a.len();
    let mut i: usize = 0;
    while i < n
        invariant
            n == a@.len() == b@.len(),
            0 <= i <= n,
            forall|k: int| 0 <= k < i ==> a@[k] == b@[k],
        decreases n - i,
    {
        if *a.get(i).unwrap() != *b.get(i).unwrap() {
            return false;
        }
        i += 1;
    }
    proof {
        assert(a@ =~= b@);
    }
    true
}

impl FunctionType {
    /// Builds the function type with the given parameter and result types.
    pub fn new(params: Vec<ValType>, results: Vec<ValType>) -> (r: FunctionType)
        ensures
            r@ == (FunctionTypeV { params: params@, results: results@ }),
    {
        FunctionType { params, results }
    }

    /// The parameter types.
    pub fn params(&self) -> (r: &Vec<ValType>)
        ensures
            r@ == self@.params,
    {
        &self.params
    }

    /// The result types.
    pub fn results(&self) -> (r: &Vec<ValType>)
        ensures
            r@ == self@.results,
    {
        &self.results
    }

    /// How many parameters the type takes.
    pub fn params_arity(&self) -> (n: usize)
        ensures
            n == self@.params.len(),
    {
        self.params.len()
    }

    /// How many results the type returns.
    pub fn returns_arity(&self) -> (n: usize)
        ensures
            n == self@.results.len(),
    {
        self.results.len()
    }

    /// A fresh function type with the same view.
    pub fn duplicate(&self) -> (r: FunctionType)
        ensures
            r@ == self@,
    {
        let r = FunctionType { params: copy_vec(&self.params), results: copy_vec(&self.results) };
        proof {
            assert(r@ =~= self@);
        }
        r
    }

    /// Whether two function types are structurally equal: same parameter
    /// sequence and same result sequence.
    pub fn same(&self, other: &FunctionType) -> (r: bool)
        ensures
            r == (self@ == other@),
    {
        let r = valtypes_eq(&self.params, &other.params) && valtypes_eq(
            &self.results,
            &other.results,
        );
        proof {
            if self@.params == other@.params && self@.results == other@.results {
                assert(self@ =~= other@);
            }
        }
        r
    }
}

/// A name, held as its raw bytes (WebAssembly names are byte strings).
pub type Name = Vec<u8>;

/// Whether two byte slices hold the same bytes.
pub fn bytes_eq(a: &[u8], b: &[u8]) -> (r: bool)
    ensures
        r == (a@ == b@),
{
    if a.len() != b.len() {
        assert(a@.len() != b@.len());
        return false;
    }
    let n: usize = a.len();
    let mut i: usize = 0;
    while i < n
        invariant
            n == a@.len() == b@.len(),
            0 <= i <= n,
            forall|k: int| 0 <= k < i ==> a@[k] == b@[k],
        decreases n - i,
    {
        if a[i] != b[i] {
            return false;
        }
        i += 1;
    }
    proof {
        assert(a@ =~= b@);
    }
    true
}

/// A fresh vector holding the same elements.
pub fn copy_vec<T: Copy>(src: &Vec<T>) -> (r: Vec<T>)
    ensures
        r@ == src@,
{
    let mut out: Vec<T> = Vec::new();
    let n: usize = src.len();
    let mut i: usize = 0;
    while i < n
        invariant
            n == src@.len(),
            0 <= i <= n,
            out@ =~= src@.take(i as int),
        decreases n - i,
    {
        out.push(src[i]);
        proof {
            assert(out@ =~= src@.take(i + 1 as int));
        }
        i += 1;
    }
    proof {
        assert(src@.take(n as int) =~= src@);
    }
    out
}

/// A fresh vector holding the same bytes.
pub fn copy_bytes(src: &Vec<u8>) -> (r: Vec<u8>)
    ensures
        r@ == src@,
{
    copy_vec(src)
}

/// A fresh vector holding the slice's bytes.
pub fn slice_to_vec(src: &[u8]) -> (r: Vec<u8>)
    ensures
        r@ == src@,
{
    let mut out: Vec<u8> = Vec::new();
    let n: usize = src.len();
    let mut i: usize = 0;
    while i < n
        invariant
            n == src@.len(),
            0 <= i <= n,
            out@ =~= src@.take(i as int),
        decreases n - i,
    {
        out.push(src[i]);
        proof {
            assert(out@ =~= src@.take(i + 1 as int));
        }
        i += 1;
    }
    proof {
        assert(src@.take(n as int) =~= src@);
    }
    out
}

/// The type of a global: its value type and whether it may be mutated.
#[derive(Debug, Clone, Copy, PartialEq, Eq, Structural)]
pub struct GlobalType {
    pub ty: ValType,
    pub mutable: bool,
}

/// The plan of a linear memory, in pages.
#[derive(Debug, Clone, Copy, PartialEq, Eq, Structural)]
pub struct MemoryType {
    pub minimum: u32,
    pub maximum: Option<u32>,
}

/// The plan of a table, in elements.
#[derive(Debug, Clone, Copy, PartialEq, Eq, Structural)]
pub struct TableType {
    pub minimum: u32,
    pub maximum: Option<u32>,
}

/// The declared type of an import.
#[derive(Debug, Clone, Copy)]
pub enum ExternType {
    /// A function import; the payload indexes the module's type table.
    Function(u32),
    Global(GlobalType),
    Memory(MemoryType),
    Table(TableType),
}

/// The mathematical shape of an import declaration.
#[verifier::ext_equal]
pub ghost struct ImportDeclV {
    pub module: Seq<u8>,
    pub field: Seq<u8>,
    pub ty: ExternType,
}

/// One import declaration: a namespace, a field name, and the expected type.
#[derive(Debug, Clone)]
pub struct ImportDecl {
    pub module: Name,
    pub field: Name,
    pub ty: ExternType,
}

impl View for ImportDecl {
    type V = ImportDeclV;

    open spec fn view(&self) -> ImportDeclV {
        ImportDeclV { module: self.module@, field: self.field@, ty: self.ty }
    }
}

/// What an export refers to, by index into the instance's index spaces.
#[derive(Debug, Clone, Copy)]
pub enum ExportIndex {
    Function(u32),
    Table(u32),
    Memory(u32),
    Global(u32),
}

/// The mathematical shape of an export declaration.
#[verifier::ext_equal]
pub ghost struct ExportDeclV {
    pub name: Seq<u8>,
    pub index: ExportIndex,
}

/// One export declaration.
#[derive(Debug, Clone)]
pub struct ExportDecl {
    pub name: Name,
    pub index: ExportIndex,
}

impl View for ExportDecl {
    type V = ExportDeclV;

    open spec fn view(&self) -> ExportDeclV {
        ExportDeclV { name: self.name@, index: self.index }
    }
}

/// A module-defined global together with its initial value.
#[derive(Debug, Clone, Copy)]
pub struct GlobalDecl {
    pub ty: GlobalType,
    pub init: Value,
}

/// The mathematical shape of an element segment.
#[verifier::ext_equal]
pub ghost struct ElemSegmentV {
    pub table: u32,
    pub offset: u32,
    pub entries: Seq<u32>,
}

/// Static initialization data for a table: function indices written at an
/// offset.
#[derive(Debug, Clone)]
pub struct ElemSegment {
    pub table: u32,
    pub offset: u32,
    pub entries: Vec<u32>,
}

impl View for ElemSegment {
    type V = ElemSegmentV;

    open spec fn view(&self) -> ElemSegmentV {
        ElemSegmentV { table: self.table, offset: self.offset, entries: self.entries@ }
    }
}

/// The mathematical shape of a data segment.
#[verifier::ext_equal]
pub ghost struct DataSegmentV {
    pub memory: u32,
    pub offset: u32,
    pub bytes: Seq<u8>,
}

/// Static initialization data for a linear memory: bytes written at an
/// offset.
#[derive(Debug, Clone)]
pub struct DataSegment {
    pub memory: u32,
    pub offset: u32,
    pub bytes: Vec<u8>,
}

impl View for DataSegment {
    type V = DataSegmentV;

    open spec fn view(&self) -> DataSegmentV {
        DataSegmentV { memory: self.memory, offset: self.offset, bytes: self.bytes@ }
    }
}

/// The mathematical shape of a module description.
#[verifier::ext_equal]
pub ghost struct ModuleInfoV {
    pub types: Seq<FunctionTypeV>,
    pub imports: Seq<ImportDeclV>,
    pub functions: Seq<u32>,
    pub exports: Seq<ExportDeclV>,
    pub start: Option<u32>,
    pub globals: Seq<GlobalDecl>,
    pub memories: Seq<MemoryType>,
    pub tables: Seq<TableType>,
    pub elements: Seq<ElemSegmentV>,
    pub data: Seq<DataSegmentV>,
}

/// The immutable description of a validated module: its type table, import
/// and export declarations, local function signatures, plans, and static
/// initialization data. Produced by the code-generation capability; never
/// mutated; shared read-only by every instance created from it.
#[derive(Debug, Clone)]
pub struct ModuleInfo {
    /// The module's function type table.
    pub types: Vec<FunctionType>,
    /// The declared imports, in declaration order.
    pub imports: Vec<ImportDecl>,
    /// The type index of each locally defined function.
    pub functions: Vec<u32>,
    /// The declared exports, in declaration order.
    pub exports: Vec<ExportDecl>,
    /// The start function, if any, as an index into the function index
    /// space (imported functions first, then local ones).
    pub start: Option<u32>,
    /// The module-defined globals.
    pub globals: Vec<GlobalDecl>,
    /// The module-defined linear memory plans.
    pub memories: Vec<MemoryType>,
    /// The module-defined table plans.
    pub tables: Vec<TableType>,
    /// The element segments.
    pub elements: Vec<ElemSegment>,
    /// The data segments.
    pub data: Vec<DataSegment>,
}

/// How many of the declared imports are functions.
pub open spec fn num_func_imports(s: Seq<ImportDeclV>) -> int
    decreases s.len(),
{
    if s.len() == 0 {
        0
    } else {
        num_func_imports(s.drop_last()) + if s.last().ty is Function {
            1int
        } else {
            0int
        }
    }
}

/// How many of the declared imports are tables.
pub open spec fn num_table_imports(s: Seq<ImportDeclV>) -> int
    decreases s.len(),
{
    if s.len() == 0 {
        0
    } else {
        num_table_imports(s.drop_last()) + if s.last().ty is Table {
            1int
        } else {
            0int
        }
    }
}

/// How many of the declared imports are memories.
pub open spec fn num_memory_imports(s: Seq<ImportDeclV>) -> int
    decreases s.len(),
{
    if s.len() == 0 {
        0
    } else {
        num_memory_imports(s.drop_last()) + if s.last().ty is Memory {
            1int
        } else {
            0int
        }
    }
}

/// How many of the declared imports are globals.
pub open spec fn num_global_imports(s: Seq<ImportDeclV>) -> int
    decreases s.len(),
{
    if s.len() == 0 {
        0
    } else {
        num_global_imports(s.drop_last()) + if s.last().ty is Global {
            1int
        } else {
            0int
        }
    }
}

/// The function imports among the declared imports, in declaration order.
pub open spec fn func_imports(s: Seq<ImportDeclV>) -> Seq<ImportDeclV> {
    s.filter(|d: ImportDeclV| d.ty is Function)
}

/// The global imports among the declared imports, in declaration order.
pub open spec fn global_imports(s: Seq<ImportDeclV>) -> Seq<ImportDeclV> {
    s.filter(|d: ImportDeclV| d.ty is Global)
}

/// The function-import count is the length of the function-import list.
pub proof fn lemma_func_imports_len(s: Seq<ImportDeclV>)
    ensures
        num_func_imports(s) == func_imports(s).len(),
    decreases s.len(),
{
    reveal(Seq::filter);
    if s.len() > 0 {
        lemma_func_imports_len(s.drop_last());
    }
}

/// The global-import count is the length of the global-import list.
pub proof fn lemma_global_imports_len(s: Seq<ImportDeclV>)
    ensures
        num_global_imports(s) == global_imports(s).len(),
    decreases s.len(),
{
    reveal(Seq::filter);
    if s.len() > 0 {
        lemma_global_imports_len(s.drop_last());
    }
}

impl ModuleInfoV {
    /// How many functions the index space holds: imported ones first, then
    /// local ones.
    pub open spec fn num_funcs(self) -> int {
        num_func_imports(self.imports) + self.functions.len()
    }

    /// How many tables the index space holds.
    pub open spec fn num_tables(self) -> int {
        num_table_imports(self.imports) + self.tables.len()
    }

    /// How many memories the index space holds.
    pub open spec fn num_memories(self) -> int {
        num_memory_imports(self.imports) + self.memories.len()
    }

    /// How many globals the index space holds.
    pub open spec fn num_globals(self) -> int {
        num_global_imports(self.imports) + self.globals.len()
    }

    /// Structural well-formedness: every index a declaration holds points
    /// into the right index space, and every module-defined global is
    /// initialized with a value of its own type.
    pub open spec fn wf(self) -> bool {
        &&& forall|i: int|
            0 <= i < self.functions.len() ==> (#[trigger] self.functions[i]) < self.types.len()
        &&& forall|i: int|
            0 <= i < self.imports.len() ==> ((#[trigger] self.imports[i]).ty matches
            ExternType::Function(t) ==> t < self.types.len())
        &&& forall|i: int|
            0 <= i < self.exports.len() ==> match (#[trigger] self.exports[i]).index {
                ExportIndex::Function(k) => k < self.num_funcs(),
                ExportIndex::Table(k) => k < self.num_tables(),
                ExportIndex::Memory(k) => k < self.num_memories(),
                ExportIndex::Global(k) => k < self.num_globals(),
            }
        &&& (self.start matches Some(f) ==> f < self.num_funcs())
        &&& forall|i: int|
            0 <= i < self.globals.len() ==> (#[trigger] self.globals[i]).init.spec_ty()
                == self.globals[i].ty.ty
        &&& forall|i: int|
            0 <= i < self.elements.len() ==> {
                &&& (#[trigger] self.elements[i]).table < self.num_tables()
                &&& forall|j: int|
                    0 <= j < self.elements[i].entries.len() ==> (
                    #[trigger] self.elements[i].entries[j]) < self.num_funcs()
            }
        &&& forall|i: int|
            0 <= i < self.data.len() ==> (#[trigger] self.data[i]).memory < self.num_memories()
    }
}

/// Counts the imported functions, tables, memories and globals, in that
/// order.
pub fn count_import_kinds(imports: &Vec<ImportDecl>) -> (r: (usize, usize, usize, usize))
    ensures
        r.0 == num_func_imports(imports@.map_values(|i: ImportDecl| i@)),
        r.1 == num_table_imports(imports@.map_values(|i: ImportDecl| i@)),
        r.2 == num_memory_imports(imports@.map_values(|i: ImportDecl| i@)),
        r.3 == num_global_imports(imports@.map_values(|i: ImportDecl| i@)),
{
    let ghost iv = imports@.map_values(|i: ImportDecl| i@);
    let n: usize = imports.len();
    let mut nf: usize = 0;
    let mut nt: usize = 0;
    let mut nm: usize = 0;
    let mut ng: usize = 0;
    let mut i: usize = 0;
    proof {
        assert(iv.take(0) =~= Seq::<ImportDeclV>::empty());
    }
    while i < n
        invariant
            n == iv.len(),
            iv.len() == imports@.len(),
            iv == imports@.map_values(|x: ImportDecl| x@),
            0 <= i <= n,
            nf == num_func_imports(iv.take(i as int)),
            nt == num_table_imports(iv.take(i as int)),
            nm == num_memory_imports(iv.take(i as int)),
            ng == num_global_imports(iv.take(i as int)),
            nf + nt + nm + ng == i,
        decreases n - i,
    {
        proof {
            assert(iv.take(i + 1).drop_last() =~= iv.take(i as int));
            assert(iv.take(i + 1).last() == iv[i as int]);
            assert(iv[i as int] == imports@[i as int]@);
        }
        match &imports[i].ty {
            ExternType::Function(_) => {
                nf += 1;
            },
            ExternType::Table(_) => {
                nt += 1;
            },
            ExternType::Memory(_) => {
                nm += 1;
            },
            ExternType::Global(_) => {
                ng += 1;
            },
        }
        i += 1;
    }
    proof {
        assert(iv.take(n as int) =~= iv);
    }
    (nf, nt, nm, ng)
}

/// Whether `k` indexes into a space of `base + extra` entries, computed
/// without overflowing.
fn index_in_space(k: u32, base: usize, extra: usize) -> (r: bool)
    ensures
        r == ((k as int) < base + extra),
{
    let kk = k as usize;
    if kk < base {
        true
    } else {
        kk - base < extra
    }
}

/// Whether `info` is structurally well-formed.
pub fn check_module_wf(info: &ModuleInfo) -> (r: bool)
    ensures
        r == info@.wf(),
{
    let (nf, nt, nm, ng) = count_import_kinds(&info.imports);
    let n_types: usize = info.types.len();
    // local function type indices
    let n: usize = info.functions.len();
    let mut i: usize = 0;
    while i < n
        invariant
            n == info@.functions.len(),
            n_types == info@.types.len(),
            0 <= i <= n,
            forall|k: int| 0 <= k < i ==> (#[trigger] info@.functions[k]) < n_types,
        decreases n - i,
    {
        if !((info.functions[i] as usize) < n_types) {
            return false;
        }
        i += 1;
    }
    // imported function type indices
    let n: usize = info.imports.len();
    let mut i: usize = 0;
    while i < n
        invariant
            n == info@.imports.len(),
            n_types == info@.types.len(),
            0 <= i <= n,
            forall|k: int|
                0 <= k < i ==> ((#[trigger] info@.imports[k]).ty matches ExternType::Function(t)
                    ==> t < n_types),
        decreases n - i,
    {
        proof {
            assert(info@.imports[i as int] == info.imports@[i as int]@);
        }
        if let ExternType::Function(t) = &info.imports[i].ty {
            if !((*t as usize) < n_types) {
                return false;
            }
        }
        i += 1;
    }
    // export indices
    let n: usize = info.exports.len();
    let mut i: usize = 0;
    while i < n
        invariant
            n == info@.exports.len(),
            0 <= i <= n,
            nf == num_func_imports(info@.imports),
            nt == num_table_imports(info@.imports),
            nm == num_memory_imports(info@.imports),
            ng == num_global_imports(info@.imports),
            forall|k: int|
                0 <= k < i ==> match (#[trigger] info@.exports[k]).index {
                    ExportIndex::Function(x) => x < info@.num_funcs(),
                    ExportIndex::Table(x) => x < info@.num_tables(),
                    ExportIndex::Memory(x) => x < info@.num_memories(),
                    ExportIndex::Global(x) => x < info@.num_globals(),
                },
        decreases n - i,
    {
        proof {
            assert(info@.exports[i as int] == info.exports@[i as int]@);
        }
        let ok = match &info.exports[i].index {
            ExportIndex::Function(x) => index_in_space(*x, nf, info.functions.len()),
            ExportIndex::Table(x) => index_in_space(*x, nt, info.tables.len()),
            ExportIndex::Memory(x) => index_in_space(*x, nm, info.memories.len()),
            ExportIndex::Global(x) => index_in_space(*x, ng, info.globals.len()),
        };
        if !ok {
            return false;
        }
        i += 1;
    }
    // start function index
    if let Some(f) = &info.start {
        if !index_in_space(*f, nf, info.functions.len()) {
            return false;
        }
    }
    // global initializer types
    let n: usize = info.globals.len();
    let mut i: usize = 0;
    while i < n
        invariant
            n == info@.globals.len(),
            0 <= i <= n,
            forall|k: int|
                0 <= k < i ==> (#[trigger] info@.globals[k]).init.spec_ty()
                    == info@.globals[k].ty.ty,
        decreases n - i,
    {
        let g = &info.globals[i];
        if g.init.ty() != g.ty.ty {
            return false;
        }
        i += 1;
    }
    // element segments
    let n: usize = info.elements.len();
    let mut i: usize = 0;
    while i < n
        invariant
            n == info@.elements.len(),
            0 <= i <= n,
            nf == num_func_imports(info@.imports),
            nt == num_table_imports(info@.imports),
            forall|k: int|
                0 <= k < i ==> {
                    &&& (#[trigger] info@.elements[k]).table < info@.num_tables()
                    &&& forall|j: int|
                        0 <= j < info@.elements[k].entries.len() ==> (
                        #[trigger] info@.elements[k].entries[j]) < info@.num_funcs()
                },
        decreases n - i,
    {
        proof {
            assert(info@.elements[i as int] == info.elements@[i as int]@);
        }
        let seg = &info.elements[i];
        if !index_in_space(seg.table, nt, info.tables.len()) {
            return false;
        }
        let m: usize = seg.entries.len();
        let mut j: usize = 0;
        while j < m
            invariant
                m == seg@.entries.len(),
                0 <= j <= m,
                0 <= i < n,
                n == info@.elements.len(),
                seg@ == info@.elements[i as int],
                nf == num_func_imports(info@.imports),
                forall|k: int| 0 <= k < j ==> (#[trigger] seg@.entries[k]) < info@.num_funcs(),
            decreases m - j,
        {
            if !index_in_space(seg.entries[j], nf, info.functions.len()) {
                return false;
            }
            j += 1;
        }
        i += 1;
    }
    // data segments
    let n: usize = info.data.len();
    let mut i: usize = 0;
    while i < n
        invariant
            n == info@.data.len(),
            0 <= i <= n,
            nm == num_memory_imports(info@.imports),
            forall|k: int| 0 <= k < i ==> (#[trigger] info@.data[k]).memory < info@.num_memories(),
        decreases n - i,
    {
        proof {
            assert(info@.data[i as int] == info.data@[i as int]@);
        }
        if !index_in_space(info.data[i].memory, nm, info.memories.len()) {
            return false;
        }
        i += 1;
    }
    true
}

impl View for ModuleInfo {
    type V = ModuleInfoV;

    open spec fn view(&self) -> ModuleInfoV {
        ModuleInfoV {
            types: self.types@.map_values(|t: FunctionType| t@),
            imports: self.imports@.map_values(|i: ImportDecl| i@),
            functions: self.functions@,
            exports: self.exports@.map_values(|e: ExportDecl| e@),
            start: self.start,
            globals: self.globals@,
            memories: self.memories@.map_values(|m: MemoryType| m),
            tables: self.tables@.map_values(|t: TableType| t),
            elements: self.elements@.map_values(|e: ElemSegment| e@),
            data: self.data@.map_values(|d: DataSegment| d@),
        }
    }
}

} // verus!
