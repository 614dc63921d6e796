//! Execution of compiled function bodies.
//!
//! A body is a flat sequence of typed stack instructions. Execution is
//! defensive: every malformed situation — an undefined opcode, a truncated
//! immediate, an operand of the wrong type, an index out of range, code
//! that was never published — surfaces as a `Trap` value at the host/guest
//! boundary, never as a panic. A fuel budget bounds the call depth, so a
//! runaway recursion becomes a `Trap` too.

use vstd::prelude::*;

verus! {

use crate::Trap;
use crate::arena::CodeMemoryArena;
use crate::codec::{dec_u32, dec_u64, spec_dec_u32, spec_dec_u64};
use crate::imports::{ExternV, GlobalCell, ImportObject};
use crate::types::{FunctionType, ValType, Value, copy_bytes, values_have_types};

/// Reads one local (an argument).
pub const OP_LOCAL_GET: u8 = 0x20;

/// Pushes a 32-bit constant (four little-endian immediate bytes).
pub const OP_I32_CONST: u8 = 0x41;

/// Pushes a 64-bit constant (eight little-endian immediate bytes).
pub const OP_I64_CONST: u8 = 0x42;

/// Wrapping 32-bit addition.
pub const OP_I32_ADD: u8 = 0x6a;

/// Wrapping 32-bit subtraction.
pub const OP_I32_SUB: u8 = 0x6b;

/// Wrapping 32-bit multiplication.
pub const OP_I32_MUL: u8 = 0x6c;

/// Signed 32-bit division; traps on zero and on overflow.
pub const OP_I32_DIV_S: u8 = 0x6d;

/// Reads a global (a four-byte index).
pub const OP_GLOBAL_GET: u8 = 0x23;

/// Writes a global (a four-byte index).
pub const OP_GLOBAL_SET: u8 = 0x24;

/// Calls a function of the instance's index space (a four-byte index).
pub const OP_CALL: u8 = 0x10;

/// Discards the top of the stack.
pub const OP_DROP: u8 = 0x1a;

/// Traps unconditionally.
pub const OP_UNREACHABLE: u8 = 0x00;

/// The call-depth budget of one host-initiated call.
pub const DEFAULT_CALL_FUEL: u64 = 1024;

/// Where a function's code lives: a published arena span for guest code,
/// or an inline body for a resolved host function.
#[derive(Debug)]
pub enum CodeRef {
    Arena(usize),
    Host(Vec<u8>),
}

/// The mathematical shape of a code reference.
pub ghost enum CodeRefV {
    Arena(usize),
    Host(Seq<u8>),
}

impl View for CodeRef {
    type V = CodeRefV;

    open spec fn view(&self) -> CodeRefV {
        match self {
            CodeRef::Arena(a) => CodeRefV::Arena(*a),
            CodeRef::Host(b) => CodeRefV::Host(b@),
        }
    }
}

/// The mathematical shape of a callable function.
#[verifier::ext_equal]
pub ghost struct RuntimeFunctionV {
    pub ty: crate::types::FunctionTypeV,
    pub code: CodeRefV,
}

/// One entry of an instance's function index space: the function's type
/// and where its code lives.
#[derive(Debug)]
pub struct RuntimeFunction {
    pub ty: FunctionType,
    pub code: CodeRef,
}

impl View for RuntimeFunction {
    type V = RuntimeFunctionV;

    open spec fn view(&self) -> RuntimeFunctionV {
        RuntimeFunctionV { ty: self.ty@, code: self.code@ }
    }
}

/// One entry of an instance's global index space: an instance-owned global,
/// or a back-reference into the import object that defined it.
#[derive(Debug, Clone, Copy, PartialEq, Eq, Structural)]
pub enum GlobalSlot {
    Owned(GlobalCell),
    Imported { namespace: usize, entry: usize },
}

/// Whether one global slot evolved legally: an owned global keeps its
/// type, an imported back-reference is never re-pointed.
pub open spec fn slot_update_ok(a: GlobalSlot, b: GlobalSlot) -> bool {
    match (a, b) {
        (GlobalSlot::Owned(c1), GlobalSlot::Owned(c2)) => c1.ty == c2.ty,
        _ => a == b,
    }
}

/// Whether the instance's globals evolved legally: same count, each slot
/// legal.
pub open spec fn globals_preserved(pre: Seq<GlobalSlot>, post: Seq<GlobalSlot>) -> bool {
    &&& pre.len() == post.len()
    &&& forall|i: int| 0 <= i < pre.len() ==> slot_update_ok(#[trigger] pre[i], #[trigger] post[i])
}

/// Whether one extern evolved legally: only a global's value may move, and
/// only within its declared type.
pub open spec fn extern_update_ok(a: ExternV, b: ExternV) -> bool {
    ||| a == b
    ||| {
        &&& a matches ExternV::Global(g1)
        &&& b matches ExternV::Global(g2)
        &&& (a->Global_0).ty == (b->Global_0).ty
    }
}

/// Whether the import object's shape survived: the same namespaces with
/// the same names and the same entries, where only global values may have
/// moved.
pub open spec fn imports_preserved(
    pre: crate::imports::ImportObjectV,
    post: crate::imports::ImportObjectV,
) -> bool {
    &&& pre.len() == post.len()
    &&& forall|n: int|
        0 <= n < pre.len() ==> (#[trigger] post[n]).0 == pre[n].0 && post[n].1.len()
            == pre[n].1.len()
    &&& forall|n: int, e: int|
        0 <= n < pre.len() && 0 <= e < pre[n].1.len() ==> (#[trigger] post[n].1[e]).0
            == pre[n].1[e].0 && extern_update_ok(pre[n].1[e].1, post[n].1[e].1)
}

/// Legal evolution of globals composes.
pub proof fn lemma_globals_preserved_trans(
    a: Seq<GlobalSlot>,
    b: Seq<GlobalSlot>,
    c: Seq<GlobalSlot>,
)
    requires
        globals_preserved(a, b),
        globals_preserved(b, c),
    ensures
        globals_preserved(a, c),
{
    assert forall|i: int| 0 <= i < a.len() implies slot_update_ok(
        #[trigger] a[i],
        #[trigger] c[i],
    ) by {
        assert(slot_update_ok(a[i], b[i]));
        assert(slot_update_ok(b[i], c[i]));
    }
}

/// Legal evolution of an import object composes.
pub proof fn lemma_imports_preserved_trans(
    a: crate::imports::ImportObjectV,
    b: crate::imports::ImportObjectV,
    c: crate::imports::ImportObjectV,
)
    requires
        imports_preserved(a, b),
        imports_preserved(b, c),
    ensures
        imports_preserved(a, c),
{
    assert forall|n: int, e: int| 0 <= n < a.len() && 0 <= e < a[n].1.len() implies (
    #[trigger] c[n].1[e]).0 == a[n].1[e].0 && extern_update_ok(a[n].1[e].1, c[n].1[e].1) by {
        assert(b[n].1[e].0 == a[n].1[e].0 && extern_update_ok(a[n].1[e].1, b[n].1[e].1));
        assert(c[n].1[e].0 == b[n].1[e].0 && extern_update_ok(b[n].1[e].1, c[n].1[e].1));
    }
}

/// Nothing evolved: trivially legal.
pub proof fn lemma_preserved_refl(g: Seq<GlobalSlot>, io: crate::imports::ImportObjectV)
    ensures
        globals_preserved(g, g),
        imports_preserved(io, io),
{
}

/// The mathematical shape of the mutable state a call can touch: the
/// instance's global slots and the import object.
#[verifier::ext_equal]
pub ghost struct SemState {
    pub globals: Seq<GlobalSlot>,
    pub imports: crate::imports::ImportObjectV,
}

/// The outcome of running a function: the state it left behind, and its
/// results or the trap that ended it.
#[verifier::ext_equal]
pub ghost struct SemOut {
    pub state: SemState,
    pub result: Result<Seq<Value>, Trap>,
}

/// Truncating signed division, as the division instruction computes it:
/// the magnitudes are divided and the sign follows the operands
/// (specification division alone is Euclidean, which differs on negative
/// operands).
pub open spec fn div_trunc(a: int, b: int) -> int {
    let q = (if a >= 0 { a } else { -a }) / (if b >= 0 { b } else { -b });
    if (a < 0) != (b < 0) {
        -q
    } else {
        q
    }
}

/// What reading global `g` yields.
pub open spec fn sem_global_get(st: SemState, g: int) -> Result<Value, Trap> {
    if !(0 <= g < st.globals.len()) {
        Err(Trap::BadGlobal)
    } else {
        match st.globals[g] {
            GlobalSlot::Owned(c) => Ok(c.value),
            GlobalSlot::Imported { namespace, entry } => {
                if namespace < st.imports.len() && entry < st.imports[
                    namespace as int
                ].1.len() && st.imports[namespace as int].1[entry as int].1 is Global {
                    Ok((st.imports[namespace as int].1[entry as int].1->Global_0).value)
                } else {
                    Err(Trap::BadGlobal)
                }
            },
        }
    }
}

/// What writing `v` to global `g` yields: the updated state, or the trap.
pub open spec fn sem_global_set(st: SemState, g: int, v: Value) -> Result<SemState, Trap> {
    if !(0 <= g < st.globals.len()) {
        Err(Trap::BadGlobal)
    } else {
        match st.globals[g] {
            GlobalSlot::Owned(c) => {
                if !c.ty.mutable {
                    Err(Trap::BadGlobal)
                } else if v.spec_ty() != c.ty.ty {
                    Err(Trap::TypeMismatch)
                } else {
                    Ok(
                        SemState {
                            globals: st.globals.update(
                                g,
                                GlobalSlot::Owned(GlobalCell { ty: c.ty, value: v }),
                            ),
                            imports: st.imports,
                        },
                    )
                }
            },
            GlobalSlot::Imported { namespace, entry } => {
                let n = namespace as int;
                let e = entry as int;
                if !(n < st.imports.len() && e < st.imports[n].1.len() && st.imports[n].1[e].1
                    is Global) {
                    Err(Trap::BadGlobal)
                } else {
                    let cell = st.imports[n].1[e].1->Global_0;
                    if !cell.ty.mutable {
                        Err(Trap::BadGlobal)
                    } else if v.spec_ty() != cell.ty.ty {
                        Err(Trap::TypeMismatch)
                    } else {
                        Ok(
                            SemState {
                                globals: st.globals,
                                imports: st.imports.update(
                                    n,
                                    (
                                        st.imports[n].0,
                                        st.imports[n].1.update(
                                            e,
                                            (
                                                st.imports[n].1[e].0,
                                                ExternV::Global(
                                                    GlobalCell { ty: cell.ty, value: v },
                                                ),
                                            ),
                                        ),
                                    ),
                                ),
                            },
                        )
                    }
                }
            },
        }
    }
}

/// What executing the function at `fidx` on `args` yields, with `fuel`
/// bounding the call depth. This is the engine's definitional semantics:
/// the executable interpreter returns exactly this outcome.
pub open spec fn sem_call(
    arena: CodeMemoryArena,
    funcs: Seq<RuntimeFunctionV>,
    st: SemState,
    fidx: int,
    args: Seq<Value>,
    fuel: nat,
) -> SemOut
    decreases fuel, 1int, 0int,
{
    if fuel == 0 {
        SemOut { state: st, result: Err(Trap::OutOfFuel) }
    } else if !(0 <= fidx < funcs.len()) {
        SemOut { state: st, result: Err(Trap::BadFunction) }
    } else if !values_have_types(args, funcs[fidx].ty.params) {
        SemOut { state: st, result: Err(Trap::TypeMismatch) }
    } else {
        match funcs[fidx].code {
            CodeRefV::Arena(a) => {
                if arena.is_executable(a as int) {
                    sem_run(
                        arena,
                        funcs,
                        st,
                        arena.span_bytes(a as int),
                        0,
                        Seq::<Value>::empty(),
                        args,
                        funcs[fidx].ty.results,
                        fuel,
                    )
                } else {
                    SemOut { state: st, result: Err(Trap::CodeNotExecutable) }
                }
            },
            CodeRefV::Host(b) => sem_run(
                arena,
                funcs,
                st,
                b,
                0,
                Seq::<Value>::empty(),
                args,
                funcs[fidx].ty.results,
                fuel,
            ),
        }
    }
}

/// One body run from `pc` with the given operand stack.
pub open spec fn sem_run(
    arena: CodeMemoryArena,
    funcs: Seq<RuntimeFunctionV>,
    st: SemState,
    code: Seq<u8>,
    pc: int,
    stack: Seq<Value>,
    args: Seq<Value>,
    results: Seq<ValType>,
    fuel: nat,
) -> SemOut
    decreases fuel, 0int, (if pc <= code.len() { code.len() - pc } else { 0int }),
{
    if fuel == 0 {
        SemOut { state: st, result: Err(Trap::OutOfFuel) }
    } else if pc < 0 || pc >= code.len() {
        if values_have_types(stack, results) {
            SemOut { state: st, result: Ok(stack) }
        } else {
            SemOut { state: st, result: Err(Trap::TypeMismatch) }
        }
    } else {
        let op = code[pc];
        if op == OP_LOCAL_GET {
            match spec_dec_u32(code, pc + 1) {
                None => SemOut { state: st, result: Err(Trap::BadOpcode) },
                Some((idx, next)) => {
                    if idx >= args.len() {
                        SemOut { state: st, result: Err(Trap::BadLocal) }
                    } else {
                        sem_run(
                            arena,
                            funcs,
                            st,
                            code,
                            next,
                            stack.push(args[idx as int]),
                            args,
                            results,
                            fuel,
                        )
                    }
                },
            }
        } else if op == OP_I32_CONST {
            match spec_dec_u32(code, pc + 1) {
                None => SemOut { state: st, result: Err(Trap::BadOpcode) },
                Some((v, next)) => sem_run(
                    arena,
                    funcs,
                    st,
                    code,
                    next,
                    stack.push(Value::I32(v as i32)),
                    args,
                    results,
                    fuel,
                ),
            }
        } else if op == OP_I64_CONST {
            match spec_dec_u64(code, pc + 1) {
                None => SemOut { state: st, result: Err(Trap::BadOpcode) },
                Some((v, next)) => sem_run(
                    arena,
                    funcs,
                    st,
                    code,
                    next,
                    stack.push(Value::I64(v as i64)),
                    args,
                    results,
                    fuel,
                ),
            }
        } else if op == OP_I32_ADD || op == OP_I32_SUB || op == OP_I32_MUL {
            if stack.len() < 1 || !(stack.last() matches Value::I32(_)) {
                SemOut { state: st, result: Err(Trap::TypeMismatch) }
            } else {
                let b = stack.last()->I32_0;
                let s1 = stack.drop_last();
                if s1.len() < 1 || !(s1.last() matches Value::I32(_)) {
                    SemOut { state: st, result: Err(Trap::TypeMismatch) }
                } else {
                    let a = s1.last()->I32_0;
                    let wide: i64 = if op == OP_I32_ADD {
                        (a as i64 + b as i64) as i64
                    } else if op == OP_I32_SUB {
                        (a as i64 - b as i64) as i64
                    } else {
                        (a as i64 * b as i64) as i64
                    };
                    sem_run(
                        arena,
                        funcs,
                        st,
                        code,
                        pc + 1,
                        s1.drop_last().push(Value::I32(wide as i32)),
                        args,
                        results,
                        fuel,
                    )
                }
            }
        } else if op == OP_I32_DIV_S {
            if stack.len() < 1 || !(stack.last() matches Value::I32(_)) {
                SemOut { state: st, result: Err(Trap::TypeMismatch) }
            } else {
                let b = stack.last()->I32_0;
                let s1 = stack.drop_last();
                if s1.len() < 1 || !(s1.last() matches Value::I32(_)) {
                    SemOut { state: st, result: Err(Trap::TypeMismatch) }
                } else {
                    let a = s1.last()->I32_0;
                    if b == 0 || (a == i32::MIN && b == -1) {
                        SemOut { state: st, result: Err(Trap::DivisionError) }
                    } else {
                        sem_run(
                            arena,
                            funcs,
                            st,
                            code,
                            pc + 1,
                            s1.drop_last().push(Value::I32(div_trunc(a as int, b as int) as i32)),
                            args,
                            results,
                            fuel,
                        )
                    }
                }
            }
        } else if op == OP_GLOBAL_GET {
            match spec_dec_u32(code, pc + 1) {
                None => SemOut { state: st, result: Err(Trap::BadOpcode) },
                Some((idx, next)) => match sem_global_get(st, idx as int) {
                    Err(t) => SemOut { state: st, result: Err(t) },
                    Ok(v) => sem_run(
                        arena,
                        funcs,
                        st,
                        code,
                        next,
                        stack.push(v),
                        args,
                        results,
                        fuel,
                    ),
                },
            }
        } else if op == OP_GLOBAL_SET {
            match spec_dec_u32(code, pc + 1) {
                None => SemOut { state: st, result: Err(Trap::BadOpcode) },
                Some((idx, next)) => {
                    if stack.len() < 1 {
                        SemOut { state: st, result: Err(Trap::TypeMismatch) }
                    } else {
                        match sem_global_set(st, idx as int, stack.last()) {
                            Err(t) => SemOut { state: st, result: Err(t) },
                            Ok(st2) => sem_run(
                                arena,
                                funcs,
                                st2,
                                code,
                                next,
                                stack.drop_last(),
                                args,
                                results,
                                fuel,
                            ),
                        }
                    }
                },
            }
        } else if op == OP_CALL {
            match spec_dec_u32(code, pc + 1) {
                None => SemOut { state: st, result: Err(Trap::BadOpcode) },
                Some((idx, next)) => {
                    if idx >= funcs.len() {
                        SemOut { state: st, result: Err(Trap::BadFunction) }
                    } else {
                        let arity = funcs[idx as int].ty.params.len() as int;
                        if stack.len() < arity {
                            SemOut { state: st, result: Err(Trap::TypeMismatch) }
                        } else {
                            let base = stack.len() - arity;
                            let callee_args = stack.subrange(base, stack.len() as int);
                            let out = sem_call(
                                arena,
                                funcs,
                                st,
                                idx as int,
                                callee_args,
                                (fuel - 1) as nat,
                            );
                            match out.result {
                                Err(t) => SemOut { state: out.state, result: Err(t) },
                                Ok(vals) => sem_run(
                                    arena,
                                    funcs,
                                    out.state,
                                    code,
                                    next,
                                    stack.take(base) + vals,
                                    args,
                                    results,
                                    fuel,
                                ),
                            }
                        }
                    }
                },
            }
        } else if op == OP_DROP {
            if stack.len() < 1 {
                SemOut { state: st, result: Err(Trap::TypeMismatch) }
            } else {
                sem_run(arena, funcs, st, code, pc + 1, stack.drop_last(), args, results, fuel)
            }
        } else if op == OP_UNREACHABLE {
            SemOut { state: st, result: Err(Trap::Unreachable) }
        } else {
            SemOut { state: st, result: Err(Trap::BadOpcode) }
        }
    }
}

/// The current value of the instance's global `g`.
fn global_get(
    globals: &Vec<GlobalSlot>,
    imports: &ImportObject,
    g: usize,
) -> (r: Result<Value, Trap>)
    ensures
        r == sem_global_get(SemState { globals: globals@, imports: imports@ }, g as int),
{
    if g >= globals.len() {
        return Err(Trap::BadGlobal);
    }
    match &globals[g] {
        GlobalSlot::Owned(c) => Ok(c.value),
        GlobalSlot::Imported { namespace, entry } => match imports.extern_at(*namespace, *entry) {
            Some(crate::imports::Extern::Global(c)) => Ok(c.value),
            _ => Err(Trap::BadGlobal),
        },
    }
}

/// Writes the instance's global `g`, if it exists, is mutable, and `v` has
/// its type.
fn global_set(
    globals: &mut Vec<GlobalSlot>,
    imports: &mut ImportObject,
    g: usize,
    v: Value,
) -> (r: Result<(), Trap>)
    ensures
        globals_preserved(old(globals)@, final(globals)@),
        imports_preserved(old(imports)@, final(imports)@),
        (match r {
            Ok(()) => sem_global_set(
                SemState { globals: old(globals)@, imports: old(imports)@ },
                g as int,
                v,
            ) == Ok::<SemState, Trap>(
                SemState { globals: final(globals)@, imports: final(imports)@ },
            ),
            Err(t) => sem_global_set(
                SemState { globals: old(globals)@, imports: old(imports)@ },
                g as int,
                v,
            ) == Err::<SemState, Trap>(t) && final(globals)@ == old(globals)@ && final(imports)@
                == old(imports)@,
        }),
{
    if g >= globals.len() {
        return Err(Trap::BadGlobal);
    }
    let slot: GlobalSlot = globals[g];
    match slot {
        GlobalSlot::Owned(c) => {
            if !c.ty.mutable {
                return Err(Trap::BadGlobal);
            }
            if v.ty() != c.ty.ty {
                return Err(Trap::TypeMismatch);
            }
            let ghost prior = globals@;
            globals.set(g, GlobalSlot::Owned(GlobalCell { ty: c.ty, value: v }));
            proof {
                assert(final(globals)@ =~= prior.update(
                    g as int,
                    GlobalSlot::Owned(GlobalCell { ty: c.ty, value: v }),
                ));
            }
            Ok(())
        },
        GlobalSlot::Imported { namespace, entry } => {
            let (mutable, ty): (bool, ValType) = match imports.extern_at(namespace, entry) {
                Some(crate::imports::Extern::Global(c)) => (c.ty.mutable, c.ty.ty),
                _ => {
                    return Err(Trap::BadGlobal);
                },
            };
            if !mutable {
                return Err(Trap::BadGlobal);
            }
            if v.ty() != ty {
                return Err(Trap::TypeMismatch);
            }
            if imports.set_global_at(namespace, entry, v) {
                Ok(())
            } else {
                Err(Trap::BadGlobal)
            }
        },
    }
}

/// Whether each value has the type at its position.
pub fn check_value_types(vals: &Vec<Value>, tys: &Vec<ValType>) -> (r: bool)
    ensures
        r == values_have_types(vals@, tys@),
{
    if vals.len() != tys.len() {
        return false;
    }
    let n: usize = vals.len();
    let mut i: usize = 0;
    while i < n
        invariant
            n == vals@.len() == tys@.len(),
            0 <= i <= n,
            forall|k: int| 0 <= k < i ==> (#[trigger] vals@[k]).spec_ty() == tys@[k],
        decreases n - i,
    {
        if vals[i].ty() != tys[i] {
            return false;
        }
        i += 1;
    }
    true
}

/// Pops a 32-bit operand: exactly the stack's top, which must be an
/// `i32`.
fn pop_i32(stack: &mut Vec<Value>) -> (r: Result<i32, Trap>)
    ensures
        (match r {
            Ok(x) => old(stack)@.len() > 0 && old(stack)@.last() == Value::I32(x)
                && final(stack)@ == old(stack)@.drop_last(),
            Err(t) => t == Trap::TypeMismatch && final(stack)@ == old(stack)@
                && (old(stack)@.len() == 0 || !(old(stack)@.last() matches Value::I32(_))),
        }),
{
    match stack.pop() {
        Some(Value::I32(x)) => Ok(x),
        Some(v) => {
            stack.push(v);
            proof {
                assert(final(stack)@ =~= old(stack)@);
            }
            Err(Trap::TypeMismatch)
        },
        None => Err(Trap::TypeMismatch),
    }
}


/// What a function entry's code fetches to under an arena: the published
/// span's bytes for guest code, the inline body for host code, nothing for
/// an unpublished span.
pub open spec fn code_fetch(arena: CodeMemoryArena, f: RuntimeFunctionV) -> Option<Seq<u8>> {
    match f.code {
        CodeRefV::Arena(a) => if arena.is_executable(a as int) {
            Some(arena.span_bytes(a as int))
        } else {
            None
        },
        CodeRefV::Host(b) => Some(b),
    }
}

/// Whether two function tables run the same code: entry for entry, the
/// same type and the same fetched bytes — however differently their
/// arenas placed them.
pub open spec fn funcs_equiv(
    arena1: CodeMemoryArena,
    funcs1: Seq<RuntimeFunctionV>,
    arena2: CodeMemoryArena,
    funcs2: Seq<RuntimeFunctionV>,
) -> bool {
    &&& funcs1.len() == funcs2.len()
    &&& forall|i: int|
        0 <= i < funcs1.len() ==> (#[trigger] funcs1[i]).ty == funcs2[i].ty
    &&& forall|i: int|
        0 <= i < funcs1.len() ==> code_fetch(arena1, #[trigger] funcs1[i]) == code_fetch(
            arena2,
            funcs2[i],
        )
}

/// Behavioral identity: two function tables that run the same code yield
/// the same outcome for every call — the same results or trap and the same
/// final state, whatever addresses their arenas placed the code at. This
/// is what makes a deserialized module behave exactly like the one that
/// was serialized: placement moves, the artifact's bytes do not.
pub proof fn law_execution_depends_on_code_alone(
    arena1: CodeMemoryArena,
    funcs1: Seq<RuntimeFunctionV>,
    arena2: CodeMemoryArena,
    funcs2: Seq<RuntimeFunctionV>,
    st: SemState,
    fidx: int,
    args: Seq<Value>,
    fuel: nat,
)
    requires
        funcs_equiv(arena1, funcs1, arena2, funcs2),
    ensures
        sem_call(arena1, funcs1, st, fidx, args, fuel) == sem_call(
            arena2,
            funcs2,
            st,
            fidx,
            args,
            fuel,
        ),
    decreases fuel, 1int, 0int,
{
    if fuel == 0 {
    } else if !(0 <= fidx < funcs1.len()) {
    } else if !values_have_types(args, funcs1[fidx].ty.params) {
    } else {
        match code_fetch(arena1, funcs1[fidx]) {
            None => {
            },
            Some(code) => {
                lemma_sem_run_equiv(
                    arena1,
                    funcs1,
                    arena2,
                    funcs2,
                    st,
                    code,
                    0,
                    Seq::<Value>::empty(),
                    args,
                    funcs1[fidx].ty.results,
                    fuel,
                );
            },
        }
    }
}

/// One body runs identically under two function tables that run the same
/// code.
proof fn lemma_sem_run_equiv(
    arena1: CodeMemoryArena,
    funcs1: Seq<RuntimeFunctionV>,
    arena2: CodeMemoryArena,
    funcs2: Seq<RuntimeFunctionV>,
    st: SemState,
    code: Seq<u8>,
    pc: int,
    stack: Seq<Value>,
    args: Seq<Value>,
    results: Seq<ValType>,
    fuel: nat,
)
    requires
        funcs_equiv(arena1, funcs1, arena2, funcs2),
        fuel >= 1,
    ensures
        sem_run(arena1, funcs1, st, code, pc, stack, args, results, fuel) == sem_run(
            arena2,
            funcs2,
            st,
            code,
            pc,
            stack,
            args,
            results,
            fuel,
        ),
    decreases fuel, 0int, (if pc <= code.len() { code.len() - pc } else { 0int }),
{
    if pc < 0 || pc >= code.len() {
    } else {
        let op = code[pc];
        if op == OP_LOCAL_GET {
            if let Some((idx, next)) = spec_dec_u32(code, pc + 1) {
                if idx < args.len() {
                    lemma_sem_run_equiv(
                        arena1,
                        funcs1,
                        arena2,
                        funcs2,
                        st,
                        code,
                        next,
                        stack.push(args[idx as int]),
                        args,
                        results,
                        fuel,
                    );
                }
            }
        } else if op == OP_I32_CONST {
            if let Some((v, next)) = spec_dec_u32(code, pc + 1) {
                lemma_sem_run_equiv(
                    arena1,
                    funcs1,
                    arena2,
                    funcs2,
                    st,
                    code,
                    next,
                    stack.push(Value::I32(v as i32)),
                    args,
                    results,
                    fuel,
                );
            }
        } else if op == OP_I64_CONST {
            if let Some((v, next)) = spec_dec_u64(code, pc + 1) {
                lemma_sem_run_equiv(
                    arena1,
                    funcs1,
                    arena2,
                    funcs2,
                    st,
                    code,
                    next,
                    stack.push(Value::I64(v as i64)),
                    args,
                    results,
                    fuel,
                );
            }
        } else if op == OP_I32_ADD || op == OP_I32_SUB || op == OP_I32_MUL {
            if stack.len() >= 1 && (stack.last() matches Value::I32(_)) {
                let b = stack.last()->I32_0;
                let s1 = stack.drop_last();
                if s1.len() >= 1 && (s1.last() matches Value::I32(_)) {
                    let a = s1.last()->I32_0;
                    let wide: i64 = if op == OP_I32_ADD {
                        (a as i64 + b as i64) as i64
                    } else if op == OP_I32_SUB {
                        (a as i64 - b as i64) as i64
                    } else {
                        (a as i64 * b as i64) as i64
                    };
                    lemma_sem_run_equiv(
                        arena1,
                        funcs1,
                        arena2,
                        funcs2,
                        st,
                        code,
                        pc + 1,
                        s1.drop_last().push(Value::I32(wide as i32)),
                        args,
                        results,
                        fuel,
                    );
                }
            }
        } else if op == OP_I32_DIV_S {
            if stack.len() >= 1 && (stack.last() matches Value::I32(_)) {
                let b = stack.last()->I32_0;
                let s1 = stack.drop_last();
                if s1.len() >= 1 && (s1.last() matches Value::I32(_)) {
                    let a = s1.last()->I32_0;
                    if !(b == 0 || (a == i32::MIN && b == -1)) {
                        lemma_sem_run_equiv(
                            arena1,
                            funcs1,
                            arena2,
                            funcs2,
                            st,
                            code,
                            pc + 1,
                            s1.drop_last().push(
                                Value::I32(div_trunc(a as int, b as int) as i32),
                            ),
                            args,
                            results,
                            fuel,
                        );
                    }
                }
            }
        } else if op == OP_GLOBAL_GET {
            if let Some((idx, next)) = spec_dec_u32(code, pc + 1) {
                if let Ok(v) = sem_global_get(st, idx as int) {
                    lemma_sem_run_equiv(
                        arena1,
                        funcs1,
                        arena2,
                        funcs2,
                        st,
                        code,
                        next,
                        stack.push(v),
                        args,
                        results,
                        fuel,
                    );
                }
            }
        } else if op == OP_GLOBAL_SET {
            if let Some((idx, next)) = spec_dec_u32(code, pc + 1) {
                if stack.len() >= 1 {
                    if let Ok(st2) = sem_global_set(st, idx as int, stack.last()) {
                        lemma_sem_run_equiv(
                            arena1,
                            funcs1,
                            arena2,
                            funcs2,
                            st2,
                            code,
                            next,
                            stack.drop_last(),
                            args,
                            results,
                            fuel,
                        );
                    }
                }
            }
        } else if op == OP_CALL {
            if let Some((idx, next)) = spec_dec_u32(code, pc + 1) {
                if idx < funcs1.len() {
                    let arity = funcs1[idx as int].ty.params.len() as int;
                    if stack.len() >= arity {
                        let base = stack.len() - arity;
                        let callee_args = stack.subrange(base, stack.len() as int);
                        law_execution_depends_on_code_alone(
                            arena1,
                            funcs1,
                            arena2,
                            funcs2,
                            st,
                            idx as int,
                            callee_args,
                            (fuel - 1) as nat,
                        );
                        let out = sem_call(
                            arena1,
                            funcs1,
                            st,
                            idx as int,
                            callee_args,
                            (fuel - 1) as nat,
                        );
                        if let Ok(vals) = out.result {
                            lemma_sem_run_equiv(
                                arena1,
                                funcs1,
                                arena2,
                                funcs2,
                                out.state,
                                code,
                                next,
                                stack.take(base) + vals,
                                args,
                                results,
                                fuel,
                            );
                        }
                    }
                }
            }
        } else if op == OP_DROP {
            if stack.len() >= 1 {
                lemma_sem_run_equiv(
                    arena1,
                    funcs1,
                    arena2,
                    funcs2,
                    st,
                    code,
                    pc + 1,
                    stack.drop_last(),
                    args,
                    results,
                    fuel,
                );
            }
        }
    }
}

/// Truncating signed 32-bit division, computed through the magnitudes.
fn div_i32_trunc(a: i32, b: i32) -> (q: i32)
    requires
        b != 0,
        !(a == i32::MIN && b == -1),
    ensures
        q as int == div_trunc(a as int, b as int),
{
    let abs_a: u32 = if a >= 0 {
        a as u32
    } else {
        #[verifier::truncate] ((-(a as i64)) as u32)
    };
    let abs_b: u32 = if b >= 0 {
        b as u32
    } else {
        #[verifier::truncate] ((-(b as i64)) as u32)
    };
    proof {
        assert(abs_a as int == (if a as int >= 0 { a as int } else { -(a as int) }));
        assert(abs_b as int == (if b as int >= 0 { b as int } else { -(b as int) }));
    }
    let qm: u32 = abs_a / abs_b;
    proof {
        assert(qm as int <= abs_a as int) by (nonlinear_arith)
            requires
                abs_b >= 1,
                abs_a >= 0,
                qm as int == abs_a as int / abs_b as int,
        ;
    }
    if (a < 0) != (b < 0) {
        (-(qm as i64)) as i32
    } else {
        proof {
            if a < 0 {
                if b == -1 {
                    assert(a != i32::MIN);
                    assert(abs_a as int <= 0x7fffffff);
                } else {
                    assert(abs_b as int >= 2);
                    assert(qm as int <= abs_a as int / 2) by (nonlinear_arith)
                        requires
                            abs_b as int >= 2,
                            abs_a >= 0,
                            qm as int == abs_a as int / abs_b as int,
                    ;
                }
            }
        }
        qm as i32
    }
}

/// Whether a semantic outcome is exactly what an execution left behind
/// and returned.
pub open spec fn sem_matches(
    out: SemOut,
    gl: Seq<GlobalSlot>,
    io: crate::imports::ImportObjectV,
    r: Result<Vec<Value>, Trap>,
) -> bool {
    &&& out.state.globals == gl
    &&& out.state.imports == io
    &&& (match r {
        Ok(vals) => out.result == Ok::<Seq<Value>, Trap>(vals@),
        Err(t) => out.result == Err::<Seq<Value>, Trap>(t),
    })
}

/// Executes the function at index `fidx` of the instance's function index
/// space on the given arguments, returning exactly what the semantics
/// `sem_call` prescribes for them: the same results or trap, and the same
/// final globals and import object. Guest code is fetched from the arena
/// and only runs if its span was published; a host body runs from its
/// resolved copy. On success the results carry exactly the function's
/// declared result types; the instance's globals and the import object
/// evolve only by legal global writes.
#[verifier::rlimit(100)]
#[verifier::spinoff_prover]
pub fn exec_call(
    arena: &CodeMemoryArena,
    funcs: &Vec<RuntimeFunction>,
    globals: &mut Vec<GlobalSlot>,
    imports: &mut ImportObject,
    fidx: usize,
    args: Vec<Value>,
    fuel: u64,
) -> (r: Result<Vec<Value>, Trap>)
    requires
        arena.wf(),
    ensures
        globals_preserved(old(globals)@, final(globals)@),
        imports_preserved(old(imports)@, final(imports)@),
        (r matches Ok(vals) ==> fidx < funcs@.len() && values_have_types(
            vals@,
            funcs@[fidx as int].ty@.results,
        )),
        sem_matches(
            sem_call(
                *arena,
                funcs@.map_values(|f: RuntimeFunction| f@),
                SemState { globals: old(globals)@, imports: old(imports)@ },
                fidx as int,
                args@,
                fuel as nat,
            ),
            final(globals)@,
            final(imports)@,
            r,
        ),
    decreases fuel,
{
    let ghost fv = funcs@.map_values(|f: RuntimeFunction| f@);
    let ghost st0 = SemState { globals: globals@, imports: imports@ };
    let ghost target = sem_call(*arena, fv, st0, fidx as int, args@, fuel as nat);
    proof {
        lemma_preserved_refl(globals@, imports@);
    }
    if fuel == 0 {
        return Err(Trap::OutOfFuel);
    }
    if fidx >= funcs.len() {
        return Err(Trap::BadFunction);
    }
    let f = &funcs[fidx];
    proof {
        assert(fv[fidx as int] == funcs@[fidx as int]@);
    }
    if !check_value_types(&args, f.ty.params()) {
        return Err(Trap::TypeMismatch);
    }
    let code: Vec<u8> = match &f.code {
        CodeRef::Arena(a) => match arena.fetch_executable(*a) {
            Some(b) => b,
            None => {
                return Err(Trap::CodeNotExecutable);
            },
        },
        CodeRef::Host(b) => copy_bytes(b),
    };
    let ghost resultsv = fv[fidx as int].ty.results;
    proof {
        assert(target == sem_run(
            *arena,
            fv,
            st0,
            code@,
            0,
            Seq::<Value>::empty(),
            args@,
            resultsv,
            fuel as nat,
        ));
    }
    let n: usize = code.len();
    let mut pc: usize = 0;
    let mut stack: Vec<Value> = Vec::new();
    while pc < n
        invariant
            arena.wf(),
            fuel >= 1,
            n == code@.len(),
            0 <= pc <= n,
            fv == funcs@.map_values(|f: RuntimeFunction| f@),
            st0 == (SemState { globals: old(globals)@, imports: old(imports)@ }),
            target == sem_call(*arena, fv, st0, fidx as int, args@, fuel as nat),
            0 <= fidx < fv.len(),
            resultsv == fv[fidx as int].ty.results,
            sem_run(
                *arena,
                fv,
                SemState { globals: globals@, imports: imports@ },
                code@,
                pc as int,
                stack@,
                args@,
                resultsv,
                fuel as nat,
            ) == target,
            globals_preserved(old(globals)@, globals@),
            imports_preserved(old(imports)@, imports@),
        decreases n - pc,
    {
        let ghost st_cur = SemState { globals: globals@, imports: imports@ };
        let ghost stack_cur = stack@;
        let ghost pc_cur = pc as int;
        let op: u8 = code[pc];
        if op == OP_LOCAL_GET {
            let (idx, next) = match dec_u32(&code, pc + 1) {
                None => {
                    return Err(Trap::BadOpcode);
                },
                Some(x) => x,
            };
            if (idx as usize) >= args.len() {
                return Err(Trap::BadLocal);
            }
            stack.push(args[idx as usize]);
            pc = next;
        } else if op == OP_I32_CONST {
            let (v, next) = match dec_u32(&code, pc + 1) {
                None => {
                    return Err(Trap::BadOpcode);
                },
                Some(x) => x,
            };
            stack.push(Value::I32(v as i32));
            pc = next;
        } else if op == OP_I64_CONST {
            let (v, next) = match dec_u64(&code, pc + 1) {
                None => {
                    return Err(Trap::BadOpcode);
                },
                Some(x) => x,
            };
            stack.push(Value::I64(#[verifier::truncate] (v as i64)));
            pc = next;
        } else if op == OP_I32_ADD || op == OP_I32_SUB || op == OP_I32_MUL {
            let b = match pop_i32(&mut stack) {
                Ok(x) => x,
                Err(t) => {
                    return Err(t);
                },
            };
            let a = match pop_i32(&mut stack) {
                Ok(x) => x,
                Err(t) => {
                    return Err(t);
                },
            };
            let wide: i64 = if op == OP_I32_ADD {
                a as i64 + b as i64
            } else if op == OP_I32_SUB {
                a as i64 - b as i64
            } else {
                proof {
                    let x = a as int;
                    let y = b as int;
                    assert(x * y <= 0x4000000000000000 && x * y >= -0x4000000000000000)
                        by (nonlinear_arith)
                        requires
                            -0x80000000 <= x <= 0x7fffffff,
                            -0x80000000 <= y <= 0x7fffffff,
                    ;
                }
                (a as i64) * (b as i64)
            };
            stack.push(Value::I32(#[verifier::truncate] (wide as i32)));
            pc = pc + 1;
        } else if op == OP_I32_DIV_S {
            let b = match pop_i32(&mut stack) {
                Ok(x) => x,
                Err(t) => {
                    return Err(t);
                },
            };
            let a = match pop_i32(&mut stack) {
                Ok(x) => x,
                Err(t) => {
                    return Err(t);
                },
            };
            if b == 0 || (a == i32::MIN && b == -1) {
                return Err(Trap::DivisionError);
            }
            let q: i32 = div_i32_trunc(a, b);
            stack.push(Value::I32(q));
            pc = pc + 1;
        } else if op == OP_GLOBAL_GET {
            let (idx, next) = match dec_u32(&code, pc + 1) {
                None => {
                    return Err(Trap::BadOpcode);
                },
                Some(x) => x,
            };
            let v = match global_get(globals, imports, idx as usize) {
                Ok(v) => v,
                Err(t) => {
                    return Err(t);
                },
            };
            stack.push(v);
            pc = next;
        } else if op == OP_GLOBAL_SET {
            let (idx, next) = match dec_u32(&code, pc + 1) {
                None => {
                    return Err(Trap::BadOpcode);
                },
                Some(x) => x,
            };
            let v = match stack.pop() {
                Some(v) => v,
                None => {
                    return Err(Trap::TypeMismatch);
                },
            };
            let ghost g0 = globals@;
            let ghost i0 = imports@;
            match global_set(globals, imports, idx as usize, v) {
                Ok(()) => (),
                Err(t) => {
                    proof {
                        lemma_globals_preserved_trans(old(globals)@, g0, globals@);
                        lemma_imports_preserved_trans(old(imports)@, i0, imports@);
                    }
                    return Err(t);
                },
            }
            proof {
                lemma_globals_preserved_trans(old(globals)@, g0, globals@);
                lemma_imports_preserved_trans(old(imports)@, i0, imports@);
            }
            pc = next;
        } else if op == OP_CALL {
            let (cidx, next) = match dec_u32(&code, pc + 1) {
                None => {
                    return Err(Trap::BadOpcode);
                },
                Some(x) => x,
            };
            if (cidx as usize) >= funcs.len() {
                return Err(Trap::BadFunction);
            }
            proof {
                assert(fv[cidx as int] == funcs@[cidx as int]@);
            }
            let arity: usize = funcs[cidx as usize].ty.params_arity();
            if stack.len() < arity {
                return Err(Trap::TypeMismatch);
            }
            let base: usize = stack.len() - arity;
            let mut callee_args: Vec<Value> = Vec::new();
            let mut k: usize = 0;
            while k < arity
                invariant
                    0 <= k <= arity,
                    base + arity == stack@.len(),
                    stack@.len() <= usize::MAX,
                    stack@ == stack_cur,
                    callee_args@ =~= stack_cur.subrange(base as int, base + k),
                decreases arity - k,
            {
                callee_args.push(stack[base + k]);
                proof {
                    assert(callee_args@ =~= stack_cur.subrange(base as int, base + k + 1));
                }
                k += 1;
            }
            stack.truncate(base);
            proof {
                assert(callee_args@ =~= stack_cur.subrange(base as int, stack_cur.len() as int));
                assert(stack@ =~= stack_cur.take(base as int));
            }
            let ghost g0 = globals@;
            let ghost i0 = imports@;
            let results = match exec_call(
                arena,
                funcs,
                globals,
                imports,
                cidx as usize,
                callee_args,
                fuel - 1,
            ) {
                Ok(vs) => vs,
                Err(t) => {
                    proof {
                        lemma_globals_preserved_trans(old(globals)@, g0, globals@);
                        lemma_imports_preserved_trans(old(imports)@, i0, imports@);
                    }
                    return Err(t);
                },
            };
            proof {
                lemma_globals_preserved_trans(old(globals)@, g0, globals@);
                lemma_imports_preserved_trans(old(imports)@, i0, imports@);
            }
            let ghost stack_base = stack@;
            let m: usize = results.len();
            let mut k: usize = 0;
            while k < m
                invariant
                    m == results@.len(),
                    0 <= k <= m,
                    stack@ =~= stack_base + results@.take(k as int),
                decreases m - k,
            {
                stack.push(results[k]);
                proof {
                    assert(stack@ =~= stack_base + results@.take(k + 1));
                }
                k += 1;
            }
            proof {
                assert(results@.take(m as int) =~= results@);
                assert(stack@ =~= stack_cur.take(base as int) + results@);
            }
            pc = next;
        } else if op == OP_DROP {
            match stack.pop() {
                Some(_) => (),
                None => {
                    return Err(Trap::TypeMismatch);
                },
            }
            pc = pc + 1;
        } else if op == OP_UNREACHABLE {
            return Err(Trap::Unreachable);
        } else {
            return Err(Trap::BadOpcode);
        }
        proof {
            assert(sem_run(
                *arena,
                fv,
                SemState { globals: globals@, imports: imports@ },
                code@,
                pc as int,
                stack@,
                args@,
                resultsv,
                fuel as nat,
            ) == sem_run(*arena, fv, st_cur, code@, pc_cur, stack_cur, args@, resultsv, fuel as nat));
        }
    }
    if !check_value_types(&stack, f.ty.results()) {
        return Err(Trap::TypeMismatch);
    }
    Ok(stack)
}

} // verus!
