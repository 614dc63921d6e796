//! End-to-end tests: compiling, instantiating, calling, serializing and
//! deserializing modules against test-double code generators.

use std::cell::Cell;
use std::rc::Rc;

use wasm_engine::engine::{CodegenCapability, Engine, Tunables};
use wasm_engine::imports::{Extern, GlobalCell, HostFunction, ImportObject, Namespace};
use wasm_engine::interp::{
    OP_CALL, OP_GLOBAL_GET, OP_GLOBAL_SET, OP_I32_ADD, OP_I32_CONST, OP_I32_DIV_S, OP_I32_MUL,
    OP_LOCAL_GET, OP_UNREACHABLE,
};
use wasm_engine::types::{
    ElemSegment, ExportDecl, ExportIndex, ExternType, FunctionType, GlobalDecl, GlobalType,
    ImportDecl, ModuleInfo, TableType, ValType, Value,
};
use wasm_engine::{CompileError, DeserializeError, InstantiationError, RuntimeError, Trap};

fn le32(out: &mut Vec<u8>, v: u32) {
    out.extend_from_slice(&v.to_le_bytes());
}

fn op_imm(op: u8, imm: u32) -> Vec<u8> {
    let mut v = vec![op];
    le32(&mut v, imm);
    v
}

fn cat(parts: &[Vec<u8>]) -> Vec<u8> {
    let mut out = Vec::new();
    for p in parts {
        out.extend_from_slice(p);
    }
    out
}

fn ft(params: Vec<ValType>, results: Vec<ValType>) -> FunctionType {
    FunctionType::new(params, results)
}

fn i32ft_unary() -> FunctionType {
    ft(vec![ValType::I32], vec![ValType::I32])
}

fn empty_info() -> ModuleInfo {
    ModuleInfo {
        types: vec![],
        imports: vec![],
        functions: vec![],
        exports: vec![],
        start: None,
        globals: vec![],
        memories: vec![],
        tables: vec![],
        elements: vec![],
        data: vec![],
    }
}

/// The module behind most tests: it imports a mutable global and an
/// `(i32) -> i32` function under `"env"`, defines a table with one element
/// segment, a mutable global initialized to 3, and four functions
/// exercising constants, global writes and calls through the import.
fn sample_module() -> (ModuleInfo, Vec<Vec<u8>>) {
    let info = ModuleInfo {
        types: vec![
            i32ft_unary(),                          // t0: (i32) -> i32
            ft(vec![], vec![ValType::I32]),         // t1: () -> i32
            ft(vec![ValType::I32], vec![]),         // t2: (i32) -> ()
            ft(vec![], vec![]),                     // t3: () -> ()
        ],
        imports: vec![
            ImportDecl {
                module: b"env".to_vec(),
                field: b"outside-global".to_vec(),
                ty: ExternType::Global(GlobalType { ty: ValType::I32, mutable: true }),
            },
            ImportDecl {
                module: b"env".to_vec(),
                field: b"update-func".to_vec(),
                ty: ExternType::Function(0),
            },
        ],
        functions: vec![1, 1, 2, 3],
        exports: vec![
            ExportDecl { name: b"test-table".to_vec(), index: ExportIndex::Table(0) },
            ExportDecl { name: b"test-global".to_vec(), index: ExportIndex::Global(1) },
            ExportDecl { name: b"ret_2".to_vec(), index: ExportIndex::Function(1) },
            ExportDecl { name: b"ret_4".to_vec(), index: ExportIndex::Function(2) },
            ExportDecl { name: b"set_test_global".to_vec(), index: ExportIndex::Function(3) },
            ExportDecl {
                name: b"update_outside_global".to_vec(),
                index: ExportIndex::Function(4),
            },
        ],
        start: None,
        globals: vec![
            GlobalDecl {
                ty: GlobalType { ty: ValType::I32, mutable: true },
                init: Value::I32(3),
            },
        ],
        memories: vec![],
        tables: vec![TableType { minimum: 2, maximum: None }],
        elements: vec![ElemSegment { table: 0, offset: 0, entries: vec![1] }],
        data: vec![],
    };
    let bodies = vec![
        op_imm(OP_I32_CONST, 2),
        op_imm(OP_I32_CONST, 4),
        cat(&[op_imm(OP_LOCAL_GET, 0), op_imm(OP_GLOBAL_SET, 1)]),
        cat(&[op_imm(OP_GLOBAL_GET, 0), op_imm(OP_CALL, 0), op_imm(OP_GLOBAL_SET, 0)]),
    ];
    (info, bodies)
}

/// The doubling scenario: one import `("env","double")` of type
/// `(i32) -> i32` and one export `"call_double"` of the same type that
/// invokes the import.
fn double_module() -> (ModuleInfo, Vec<Vec<u8>>) {
    let info = ModuleInfo {
        types: vec![i32ft_unary()],
        imports: vec![
            ImportDecl {
                module: b"env".to_vec(),
                field: b"double".to_vec(),
                ty: ExternType::Function(0),
            },
        ],
        functions: vec![0],
        exports: vec![
            ExportDecl { name: b"call_double".to_vec(), index: ExportIndex::Function(1) },
        ],
        start: None,
        globals: vec![],
        memories: vec![],
        tables: vec![],
        elements: vec![],
        data: vec![],
    };
    let bodies = vec![cat(&[op_imm(OP_LOCAL_GET, 0), op_imm(OP_CALL, 0)])];
    (info, bodies)
}

/// Arithmetic module: an exported division and an exported trap.
fn arith_module() -> (ModuleInfo, Vec<Vec<u8>>) {
    let info = ModuleInfo {
        types: vec![
            ft(vec![ValType::I32, ValType::I32], vec![ValType::I32]),
            ft(vec![], vec![]),
        ],
        imports: vec![],
        functions: vec![0, 1],
        exports: vec![
            ExportDecl { name: b"div".to_vec(), index: ExportIndex::Function(0) },
            ExportDecl { name: b"crash".to_vec(), index: ExportIndex::Function(1) },
        ],
        start: None,
        globals: vec![],
        memories: vec![],
        tables: vec![],
        elements: vec![],
        data: vec![],
    };
    let bodies = vec![
        cat(&[op_imm(OP_LOCAL_GET, 0), op_imm(OP_LOCAL_GET, 1), vec![OP_I32_DIV_S]]),
        vec![OP_UNREACHABLE],
    ];
    (info, bodies)
}

/// A module whose start function traps.
fn trapping_start_module() -> (ModuleInfo, Vec<Vec<u8>>) {
    let info = ModuleInfo {
        types: vec![ft(vec![], vec![])],
        imports: vec![],
        functions: vec![0],
        exports: vec![],
        start: Some(0),
        globals: vec![],
        memories: vec![],
        tables: vec![],
        elements: vec![],
        data: vec![],
    };
    (info, vec![vec![OP_UNREACHABLE]])
}

/// The test double: maps a one-byte "binary" to a canned module, counts
/// trampoline generations.
struct TestCompiler {
    trampolines_generated: Rc<Cell<u32>>,
}

impl TestCompiler {
    fn new() -> TestCompiler {
        TestCompiler { trampolines_generated: Rc::new(Cell::new(0)) }
    }

    fn with_counter(counter: Rc<Cell<u32>>) -> TestCompiler {
        TestCompiler { trampolines_generated: counter }
    }
}

const BIN_SAMPLE: u8 = 1;
const BIN_DOUBLE: u8 = 2;
const BIN_ARITH: u8 = 3;
const BIN_TRAPPING_START: u8 = 4;
const BIN_MALFORMED: u8 = 9;
const BIN_INVALID: u8 = 0xff;

impl CodegenCapability for TestCompiler {
    fn validate_module(&self, binary: &Vec<u8>) -> Result<(), String> {
        match binary.first() {
            Some(&BIN_INVALID) | None => Err("unsupported bytecode".to_string()),
            _ => Ok(()),
        }
    }

    fn compile_module(&self, binary: &Vec<u8>) -> Result<(ModuleInfo, Vec<Vec<u8>>), String> {
        match binary.first() {
            Some(&BIN_SAMPLE) => Ok(sample_module()),
            Some(&BIN_DOUBLE) => Ok(double_module()),
            Some(&BIN_ARITH) => Ok(arith_module()),
            Some(&BIN_TRAPPING_START) => Ok(trapping_start_module()),
            Some(&BIN_MALFORMED) => {
                // a function pointing at a type that does not exist
                let mut info = empty_info();
                info.functions = vec![7];
                Ok((info, vec![vec![]]))
            },
            _ => Err("unsupported bytecode".to_string()),
        }
    }

    fn make_trampoline(&self, _ty: &FunctionType) -> Vec<u8> {
        self.trampolines_generated.set(self.trampolines_generated.get() + 1);
        vec![0x90, 0x90]
    }
}

fn full_engine() -> Engine<TestCompiler> {
    Engine::new(TestCompiler::new(), Tunables::default())
}

fn double_host() -> Extern {
    Extern::Function(HostFunction {
        ty: i32ft_unary(),
        body: cat(&[op_imm(OP_LOCAL_GET, 0), op_imm(OP_I32_CONST, 2), vec![OP_I32_MUL]]),
    })
}

fn mutable_global(v: i32) -> Extern {
    Extern::Global(GlobalCell {
        ty: GlobalType { ty: ValType::I32, mutable: true },
        value: Value::I32(v),
    })
}

fn sample_imports() -> ImportObject {
    let mut namespace = Namespace::new();
    namespace.insert("update-func", double_host());
    namespace.insert("outside-global", mutable_global(15));
    let mut import_object = ImportObject::new();
    import_object.register("env", namespace);
    import_object
}

#[test]
fn module_exports_are_ordered() {
    let mut engine = full_engine();
    let module = engine.compile(&vec![BIN_SAMPLE]).unwrap();
    let exports = module.exports();
    assert_eq!(exports.len(), 6);
    assert_eq!(exports[0].name, b"test-table".to_vec());
    assert!(matches!(exports[0].index, ExportIndex::Table(_)));
    assert_eq!(exports[1].name, b"test-global".to_vec());
    assert!(matches!(exports[1].index, ExportIndex::Global(_)));
    assert_eq!(exports[2].name, b"ret_2".to_vec());
    assert!(matches!(exports[2].index, ExportIndex::Function(_)));
    assert_eq!(exports[3].name, b"ret_4".to_vec());
    assert!(matches!(exports[3].index, ExportIndex::Function(_)));
    assert_eq!(exports[4].name, b"set_test_global".to_vec());
    assert!(matches!(exports[4].index, ExportIndex::Function(_)));
    assert_eq!(exports[5].name, b"update_outside_global".to_vec());
    assert!(matches!(exports[5].index, ExportIndex::Function(_)));
}

#[test]
fn module_imports_are_correct() {
    let mut engine = full_engine();
    let module = engine.compile(&vec![BIN_SAMPLE]).unwrap();
    let imports = module.imports();
    assert_eq!(imports.len(), 2);
}

#[test]
fn module_can_be_instantiated() {
    let mut engine = full_engine();
    let module = engine.compile(&vec![BIN_SAMPLE]).unwrap();
    let mut import_object = sample_imports();
    let instance = engine.instantiate(&module, &mut import_object);
    assert!(instance.is_ok());
}

#[test]
fn exports_work() {
    let mut engine = full_engine();
    let module = engine.compile(&vec![BIN_SAMPLE]).unwrap();
    let mut import_object = sample_imports();
    let mut instance = engine.instantiate(&module, &mut import_object).unwrap();

    assert_eq!(
        engine.call_function(&mut instance, &mut import_object, "ret_2", vec![]),
        Ok(vec![Value::I32(2)])
    );
    assert_eq!(
        engine.call_function(&mut instance, &mut import_object, "ret_4", vec![]),
        Ok(vec![Value::I32(4)])
    );

    assert!(matches!(
        instance.get_export(b"test-table"),
        Some(ExportIndex::Table(_))
    ));

    assert_eq!(
        instance.get_global(&import_object, b"test-global"),
        Some(Value::I32(3))
    );
    engine
        .call_function(
            &mut instance,
            &mut import_object,
            "set_test_global",
            vec![Value::I32(17)],
        )
        .unwrap();
    assert_eq!(
        instance.get_global(&import_object, b"test-global"),
        Some(Value::I32(17))
    );

    assert_eq!(
        import_object.global_value(b"env", b"outside-global"),
        Some(Value::I32(15))
    );
    engine
        .call_function(&mut instance, &mut import_object, "update_outside_global", vec![])
        .unwrap();
    assert_eq!(
        import_object.global_value(b"env", b"outside-global"),
        Some(Value::I32(15 * 2))
    );
    engine
        .call_function(&mut instance, &mut import_object, "update_outside_global", vec![])
        .unwrap();
    assert_eq!(
        import_object.global_value(b"env", b"outside-global"),
        Some(Value::I32(15 * 2 * 2))
    );
}

#[test]
fn doubling_import_scenario() {
    let mut engine = full_engine();
    let module = engine.compile(&vec![BIN_DOUBLE]).unwrap();

    let mut namespace = Namespace::new();
    namespace.insert("double", double_host());
    let mut import_object = ImportObject::new();
    import_object.register("env", namespace);

    let mut instance = engine.instantiate(&module, &mut import_object).unwrap();
    assert_eq!(
        engine.call_function(&mut instance, &mut import_object, "call_double", vec![
            Value::I32(21)
        ]),
        Ok(vec![Value::I32(42)])
    );

    // with no "env"."double" entry, instantiation must fail to link
    let mut empty = ImportObject::new();
    assert!(matches!(
        engine.instantiate(&module, &mut empty),
        Err(InstantiationError::Link(_))
    ));
}

#[test]
fn link_failure_is_deterministic() {
    let mut engine = full_engine();
    let module = engine.compile(&vec![BIN_DOUBLE]).unwrap();

    // (a) the import is missing entirely
    let mut missing = ImportObject::new();
    missing.register("env", Namespace::new());
    assert!(matches!(
        engine.instantiate(&module, &mut missing),
        Err(InstantiationError::Link(_))
    ));

    // (b) the import resolves to a function of a different type
    let mut wrong_ns = Namespace::new();
    wrong_ns.insert(
        "double",
        Extern::Function(HostFunction {
            ty: ft(vec![ValType::I64], vec![ValType::I64]),
            body: vec![],
        }),
    );
    let mut wrong = ImportObject::new();
    wrong.register("env", wrong_ns);
    assert!(matches!(
        engine.instantiate(&module, &mut wrong),
        Err(InstantiationError::Link(_))
    ));

    // (c) the import resolves to the wrong kind
    let mut kind_ns = Namespace::new();
    kind_ns.insert("double", mutable_global(0));
    let mut kind = ImportObject::new();
    kind.register("env", kind_ns);
    assert!(matches!(
        engine.instantiate(&module, &mut kind),
        Err(InstantiationError::Link(_))
    ));
}

#[test]
fn headless_engine_cannot_compile_but_instantiates() {
    let mut engine = full_engine();
    let module = engine.compile(&vec![BIN_DOUBLE]).unwrap();
    let bytes = engine.serialize(&module).unwrap();

    let mut headless: Engine<TestCompiler> = Engine::headless(Tunables::default());
    assert!(matches!(
        headless.validate(&vec![BIN_DOUBLE]),
        Err(CompileError::Codegen(_))
    ));
    assert!(matches!(
        headless.compile(&vec![BIN_DOUBLE]),
        Err(CompileError::Codegen(_))
    ));

    let restored = headless.deserialize(&bytes).unwrap();
    let mut namespace = Namespace::new();
    namespace.insert("double", double_host());
    let mut import_object = ImportObject::new();
    import_object.register("env", namespace);
    let mut instance = headless.instantiate(&restored, &mut import_object).unwrap();
    assert_eq!(
        headless.call_function(&mut instance, &mut import_object, "call_double", vec![
            Value::I32(21)
        ]),
        Ok(vec![Value::I32(42)])
    );
}

#[test]
fn serialization_round_trips() {
    let mut engine = full_engine();
    let module = engine.compile(&vec![BIN_SAMPLE]).unwrap();
    let bytes = engine.serialize(&module).unwrap();
    assert!(Engine::<TestCompiler>::is_deserializable(&bytes));
    // the engine family's fixed header opens every serialized artifact
    assert_eq!(&bytes[..11], b"\0wasmer-jit");

    let restored = engine.deserialize(&bytes).unwrap();
    assert_eq!(module.exports().len(), restored.exports().len());
    for (a, b) in module.exports().iter().zip(restored.exports().iter()) {
        assert_eq!(a.name, b.name);
    }
    assert_eq!(module.artifact.bodies, restored.artifact.bodies);
    assert_eq!(module.artifact.trampolines, restored.artifact.trampolines);

    // the restored module instantiates to behaviorally identical exports
    let mut io1 = sample_imports();
    let mut io2 = sample_imports();
    let mut inst1 = engine.instantiate(&module, &mut io1).unwrap();
    let mut inst2 = engine.instantiate(&restored, &mut io2).unwrap();
    assert_eq!(
        engine.call_function(&mut inst1, &mut io1, "ret_2", vec![]),
        engine.call_function(&mut inst2, &mut io2, "ret_2", vec![])
    );
    engine
        .call_function(&mut inst1, &mut io1, "update_outside_global", vec![])
        .unwrap();
    engine
        .call_function(&mut inst2, &mut io2, "update_outside_global", vec![])
        .unwrap();
    assert_eq!(
        io1.global_value(b"env", b"outside-global"),
        io2.global_value(b"env", b"outside-global")
    );
}

#[test]
fn deserialize_rejects_foreign_bytes() {
    let mut engine = full_engine();
    assert!(!Engine::<TestCompiler>::is_deserializable(b"not an artifact"));
    assert!(matches!(
        engine.deserialize(&b"not an artifact".to_vec()),
        Err(DeserializeError::Incompatible(_))
    ));
    // the right header but a truncated artifact
    let module = engine.compile(&vec![BIN_DOUBLE]).unwrap();
    let bytes = engine.serialize(&module).unwrap();
    let truncated = bytes[..bytes.len() - 1].to_vec();
    assert!(matches!(
        engine.deserialize(&truncated),
        Err(DeserializeError::Incompatible(_))
    ));
}

#[test]
fn validate_reports_rejection() {
    let engine = full_engine();
    assert!(matches!(
        engine.validate(&vec![BIN_INVALID]),
        Err(CompileError::Validate(_))
    ));
    assert!(engine.validate(&vec![BIN_SAMPLE]).is_ok());
}

#[test]
fn compile_rejects_malformed_capability_output() {
    let mut engine = full_engine();
    assert!(matches!(
        engine.compile(&vec![BIN_MALFORMED]),
        Err(CompileError::Codegen(_))
    ));
}

#[test]
fn trampolines_are_cached_per_signature() {
    let mut engine = full_engine();
    // the double module's one type is (i32) -> i32, which the sample
    // module also declares; compiling both generates that trampoline once
    let m1 = engine.compile(&vec![BIN_DOUBLE]).unwrap();
    let m2 = engine.compile(&vec![BIN_SAMPLE]).unwrap();
    // the sample module declares four types, one of which it shares with
    // the double module: five distinct signatures in all
    assert_eq!(m1.trampoline_addrs.len(), 1);
    assert_eq!(m2.trampoline_addrs.len(), 4);
    // the shared signature reuses the very same trampoline address
    assert_eq!(m1.trampoline_addrs[0], m2.trampoline_addrs[0]);
}

#[test]
fn trampoline_generation_counted_once() {
    let counter = Rc::new(Cell::new(0u32));
    let compiler = TestCompiler::with_counter(counter.clone());
    let mut engine = Engine::new(compiler, Tunables::default());
    engine.compile(&vec![BIN_DOUBLE]).unwrap();
    engine.compile(&vec![BIN_DOUBLE]).unwrap();
    // both compilations share the single (i32) -> i32 signature: exactly
    // one trampoline generation, observed on the capability's counter
    assert_eq!(counter.get(), 1);
    // the signature kept its index and no second one appeared
    assert_eq!(engine.register_signature(&i32ft_unary()), 0);
    assert!(engine.lookup_signature(1).is_none());
}

#[test]
fn traps_are_values_not_panics() {
    let mut engine = full_engine();
    let module = engine.compile(&vec![BIN_ARITH]).unwrap();
    let mut io = ImportObject::new();
    let mut inst = engine.instantiate(&module, &mut io).unwrap();
    assert_eq!(
        engine.call_function(&mut inst, &mut io, "div", vec![Value::I32(42), Value::I32(7)]),
        Ok(vec![Value::I32(6)])
    );
    assert_eq!(
        engine.call_function(&mut inst, &mut io, "div", vec![Value::I32(1), Value::I32(0)]),
        Err(RuntimeError::Trap(Trap::DivisionError))
    );
    assert_eq!(
        engine.call_function(&mut inst, &mut io, "div", vec![Value::I32(i32::MIN), Value::I32(-1)]),
        Err(RuntimeError::Trap(Trap::DivisionError))
    );
    assert_eq!(
        engine.call_function(&mut inst, &mut io, "crash", vec![]),
        Err(RuntimeError::Trap(Trap::Unreachable))
    );
    assert_eq!(
        engine.call_function(&mut inst, &mut io, "div", vec![Value::I32(1)]),
        Err(RuntimeError::Trap(Trap::TypeMismatch))
    );
    assert_eq!(
        engine.call_function(&mut inst, &mut io, "no_such_export", vec![]),
        Err(RuntimeError::ExportNotFound)
    );
}

#[test]
fn trapping_start_aborts_instantiation() {
    let mut engine = full_engine();
    let module = engine.compile(&vec![BIN_TRAPPING_START]).unwrap();
    let mut io = ImportObject::new();
    assert!(matches!(
        engine.instantiate(&module, &mut io),
        Err(InstantiationError::Start(Trap::Unreachable))
    ));
}

#[test]
fn memory_plan_over_tunables_is_a_resource_error() {
    let compiler = TestCompiler::new();
    let mut engine = Engine::new(
        compiler,
        Tunables { memory_pages_limit: 1, table_elements_limit: 10, guard_pages: 0 },
    );
    // reuse the arith module but with a two-page memory plan
    let (mut info, bodies) = arith_module();
    info.memories = vec![wasm_engine::types::MemoryType { minimum: 2, maximum: None }];
    // place it through serialization: encode by hand via a full engine
    let mut donor = full_engine();
    let cm = donor
        .compile(&vec![BIN_ARITH])
        .map(|mut m| {
            m.artifact.info = info;
            m.artifact.bodies = bodies;
            m
        })
        .unwrap();
    let bytes = donor.serialize(&cm).unwrap();
    let restored = engine.deserialize(&bytes).unwrap();
    let mut io = ImportObject::new();
    assert!(matches!(
        engine.instantiate(&restored, &mut io),
        Err(InstantiationError::Resource(_))
    ));
}

#[test]
fn runaway_recursion_runs_out_of_fuel() {
    let mut engine = full_engine();
    // a module whose one function calls itself forever
    let (mut info, _) = arith_module();
    info.types = vec![ft(vec![], vec![])];
    info.functions = vec![0];
    info.exports = vec![ExportDecl { name: b"spin".to_vec(), index: ExportIndex::Function(0) }];
    let bodies = vec![op_imm(OP_CALL, 0)];
    let mut donor = full_engine();
    let cm = donor
        .compile(&vec![BIN_ARITH])
        .map(|mut m| {
            m.artifact.info = info;
            m.artifact.bodies = bodies;
            m.artifact.trampolines.truncate(1);
            m
        })
        .unwrap();
    let bytes = donor.serialize(&cm).unwrap();
    let restored = engine.deserialize(&bytes).unwrap();
    let mut io = ImportObject::new();
    let mut inst = engine.instantiate(&restored, &mut io).unwrap();
    assert_eq!(
        engine.call_function(&mut inst, &mut io, "spin", vec![]),
        Err(RuntimeError::Trap(Trap::OutOfFuel))
    );
}

#[test]
fn division_truncates_toward_zero() {
    let mut engine = full_engine();
    let module = engine.compile(&vec![BIN_ARITH]).unwrap();
    let mut io = ImportObject::new();
    let mut inst = engine.instantiate(&module, &mut io).unwrap();
    let mut div = |a: i32, b: i32| {
        engine.call_function(&mut inst, &mut io, "div", vec![Value::I32(a), Value::I32(b)])
    };
    assert_eq!(div(7, 2), Ok(vec![Value::I32(3)]));
    assert_eq!(div(-7, 2), Ok(vec![Value::I32(-3)]));
    assert_eq!(div(7, -2), Ok(vec![Value::I32(-3)]));
    assert_eq!(div(-7, -2), Ok(vec![Value::I32(3)]));
    assert_eq!(div(i32::MIN, 1), Ok(vec![Value::I32(i32::MIN)]));
}

#[test]
fn addition_wraps_around() {
    let mut engine = full_engine();
    // an exported (i32, i32) -> i32 addition
    let (mut info, _) = arith_module();
    info.exports = vec![ExportDecl { name: b"sum".to_vec(), index: ExportIndex::Function(0) }];
    let bodies = vec![
        cat(&[op_imm(OP_LOCAL_GET, 0), op_imm(OP_LOCAL_GET, 1), vec![OP_I32_ADD]]),
        vec![OP_UNREACHABLE],
    ];
    let mut donor = full_engine();
    let cm = donor
        .compile(&vec![BIN_ARITH])
        .map(|mut m| {
            m.artifact.info = info;
            m.artifact.bodies = bodies;
            m
        })
        .unwrap();
    let bytes = donor.serialize(&cm).unwrap();
    let restored = engine.deserialize(&bytes).unwrap();
    let mut io = ImportObject::new();
    let mut inst = engine.instantiate(&restored, &mut io).unwrap();
    assert_eq!(
        engine.call_function(&mut inst, &mut io, "sum", vec![
            Value::I32(i32::MAX),
            Value::I32(1)
        ]),
        Ok(vec![Value::I32(i32::MIN)])
    );
}

#[test]
fn writing_an_immutable_global_traps() {
    let mut engine = full_engine();
    let (mut info, bodies) = sample_module();
    // declare the imported global immutable; the module still writes it
    info.imports[0].ty = ExternType::Global(GlobalType { ty: ValType::I32, mutable: false });
    let mut donor = full_engine();
    let cm = donor
        .compile(&vec![BIN_SAMPLE])
        .map(|mut m| {
            m.artifact.info = info;
            m.artifact.bodies = bodies;
            m
        })
        .unwrap();
    let bytes = donor.serialize(&cm).unwrap();
    let restored = engine.deserialize(&bytes).unwrap();
    let mut namespace = Namespace::new();
    namespace.insert("update-func", double_host());
    namespace.insert(
        "outside-global",
        Extern::Global(GlobalCell {
            ty: GlobalType { ty: ValType::I32, mutable: false },
            value: Value::I32(15),
        }),
    );
    let mut io = ImportObject::new();
    io.register("env", namespace);
    let mut inst = engine.instantiate(&restored, &mut io).unwrap();
    assert_eq!(
        engine.call_function(&mut inst, &mut io, "update_outside_global", vec![]),
        Err(RuntimeError::Trap(Trap::BadGlobal))
    );
}

#[test]
fn out_of_bounds_element_segment_fails_to_link() {
    let mut engine = full_engine();
    let (mut info, bodies) = sample_module();
    // the table holds two entries; write past them
    info.elements = vec![ElemSegment { table: 0, offset: 2, entries: vec![1] }];
    let mut donor = full_engine();
    let cm = donor
        .compile(&vec![BIN_SAMPLE])
        .map(|mut m| {
            m.artifact.info = info;
            m.artifact.bodies = bodies;
            m
        })
        .unwrap();
    let bytes = donor.serialize(&cm).unwrap();
    let restored = engine.deserialize(&bytes).unwrap();
    let mut io = sample_imports();
    assert!(matches!(
        engine.instantiate(&restored, &mut io),
        Err(InstantiationError::Link(_))
    ));
}
