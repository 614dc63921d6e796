//! Import objects, namespaces, the signature registry, the code memory
//! arena, and the embedding facade.

use wasm_engine::arena::CodeMemoryArena;
use wasm_engine::capi::{
    wasmer_import_descriptors, wasmer_import_func_t, wasmer_import_object_iterate_functions,
    wasmer_import_object_t, wasmer_import_t,
};
use wasm_engine::imports::{Extern, GlobalCell, HostFunction, ImportObject, Namespace};
use wasm_engine::interp::{OP_I32_ADD, OP_I32_CONST, OP_LOCAL_GET};
use wasm_engine::engine::{CodegenCapability, Engine, Tunables};
use wasm_engine::registry::SignatureRegistry;
use wasm_engine::types::{
    ExportDecl, ExportIndex, ExternType, FunctionType, GlobalType, ImportDecl, ModuleInfo,
    ValType, Value,
};

fn unary_body() -> Vec<u8> {
    let mut body = vec![OP_LOCAL_GET];
    body.extend_from_slice(&0u32.to_le_bytes());
    body.push(OP_I32_CONST);
    body.extend_from_slice(&1u32.to_le_bytes());
    body.push(OP_I32_ADD);
    body
}

fn func() -> Extern {
    Extern::Function(HostFunction {
        ty: FunctionType::new(vec![ValType::I32], vec![ValType::I32]),
        body: unary_body(),
    })
}

#[test]
fn imports_macro_allows_trailing_comma_and_none() {
    let _ = {
        let mut import_object = ImportObject::new();
        {
            let mut namespace = Namespace::new();
            namespace.insert("func", func());
            import_object.register("env", namespace);
        }
        import_object
    };
    let _ = {
        let mut import_object = ImportObject::new();
        {
            let mut namespace = Namespace::new();
            namespace.insert("func", func());
            import_object.register("env", namespace);
        }
        import_object
    };
    let _ = {
        let mut import_object = ImportObject::new();
        {
            let mut namespace = Namespace::new();
            namespace.insert("func", func());
            import_object.register("env", namespace);
        }
        {
            let mut namespace = Namespace::new();
            namespace.insert("def", func());
            import_object.register("abc", namespace);
        }
        import_object
    };
    let _ = {
        let mut import_object = ImportObject::new();
        {
            let mut namespace = Namespace::new();
            namespace.insert("func", func());
            import_object.register("env", namespace);
        }
        import_object
    };
    let _ = {
        let mut import_object = ImportObject::new();
        {
            let mut namespace = Namespace::new();
            namespace.insert("func", func());
            import_object.register("env", namespace);
        }
        import_object
    };
    let _ = {
        let mut import_object = ImportObject::new();
        {
            let mut namespace = Namespace::new();
            namespace.insert("func1", func());
            namespace.insert("func2", func());
            import_object.register("env", namespace);
        }
        import_object
    };
    let _ = {
        let mut import_object = ImportObject::new();
        {
            let mut namespace = Namespace::new();
            namespace.insert("func1", func());
            namespace.insert("func2", func());
            import_object.register("env", namespace);
        }
        import_object
    };
}

#[test]
fn namespace_contains_key_finds_insertions() {
    let mut namespace = Namespace::new();
    assert!(!namespace.contains_key("func"));
    namespace.insert("func", func());
    assert!(namespace.contains_key("func"));
    assert!(!namespace.contains_key("other"));
}

#[test]
fn import_object_resolves_globals() {
    let mut namespace = Namespace::new();
    namespace.insert(
        "g",
        Extern::Global(GlobalCell {
            ty: GlobalType { ty: ValType::I64, mutable: false },
            value: Value::I64(7),
        }),
    );
    let mut io = ImportObject::new();
    io.register("env", namespace);
    assert_eq!(io.global_value(b"env", b"g"), Some(Value::I64(7)));
    assert_eq!(io.global_value(b"env", b"missing"), None);
    assert_eq!(io.global_value(b"other", b"g"), None);
}

#[test]
fn signature_registry_canonicalizes() {
    let mut registry = SignatureRegistry::new();
    let a = FunctionType::new(vec![ValType::I32], vec![ValType::I32]);
    let b = FunctionType::new(vec![ValType::I32], vec![ValType::I32]);
    let c = FunctionType::new(vec![ValType::I32], vec![ValType::I64]);
    let ia = registry.register(&a);
    let ib = registry.register(&b);
    let ic = registry.register(&c);
    assert_eq!(ia, ib);
    assert_ne!(ia, ic);
    assert_eq!(registry.len(), 2);
    let found = registry.lookup(ia).unwrap();
    assert!(found.same(&a));
    assert!(registry.lookup(5).is_none());
}

#[test]
fn arena_write_execute_exclusivity() {
    let mut arena = CodeMemoryArena::new();
    let body = vec![1u8, 2, 3, 4, 5];
    let addr = arena.allocate_for_function(&body).unwrap();
    // not callable before the owning publish
    assert!(arena.fetch_executable(addr).is_none());
    arena.publish();
    // after publish: executable, holding exactly the written bytes
    assert_eq!(arena.fetch_executable(addr), Some(body.clone()));
    // later allocations neither disturb it nor become executable early
    let addr2 = arena.allocate_for_function(&vec![9u8]).unwrap();
    assert!(arena.fetch_executable(addr2).is_none());
    assert_eq!(arena.fetch_executable(addr), Some(body));
    // every span address respects the instruction alignment
    assert_eq!(arena.span_offset(addr).unwrap() % 16, 0);
    assert_eq!(arena.span_offset(addr2).unwrap() % 16, 0);
}

#[test]
fn import_object_extend_binds_batches() {
    let mut io = wasmer_import_object_t::new();
    io.extend(vec![
        wasmer_import_t {
            module_name: b"env".to_vec(),
            import_name: b"f".to_vec(),
            value: func(),
        },
        wasmer_import_t {
            module_name: b"env".to_vec(),
            import_name: b"g".to_vec(),
            value: Extern::Global(GlobalCell {
                ty: GlobalType { ty: ValType::I32, mutable: false },
                value: Value::I32(5),
            }),
        },
    ]);
    assert_eq!(io.inner.global_value(b"env", b"g"), Some(Value::I32(5)));
    // a later batch takes precedence over an earlier binding
    io.extend(vec![wasmer_import_t {
        module_name: b"env".to_vec(),
        import_name: b"g".to_vec(),
        value: Extern::Global(GlobalCell {
            ty: GlobalType { ty: ValType::I32, mutable: false },
            value: Value::I32(6),
        }),
    }]);
    assert_eq!(io.inner.global_value(b"env", b"g"), Some(Value::I32(6)));
}

#[test]
fn import_object_iteration_yields_functions_only() {
    let mut io = wasmer_import_object_t::new();
    io.extend(vec![
        wasmer_import_t {
            module_name: b"env".to_vec(),
            import_name: b"f".to_vec(),
            value: func(),
        },
        wasmer_import_t {
            module_name: b"env".to_vec(),
            import_name: b"g".to_vec(),
            value: Extern::Global(GlobalCell {
                ty: GlobalType { ty: ValType::I32, mutable: false },
                value: Value::I32(5),
            }),
        },
    ]);
    let mut iter = wasmer_import_object_iterate_functions(&io);
    let mut seen = 0;
    while !iter.at_end() {
        let item = iter.next().unwrap();
        assert!(matches!(item.value, Extern::Function(_)));
        seen += 1;
    }
    assert_eq!(seen, 1);
    assert!(iter.next().is_none());
}

#[test]
fn import_func_arities() {
    let f = wasmer_import_func_t {
        inner: HostFunction {
            ty: FunctionType::new(vec![ValType::I32, ValType::I64], vec![ValType::I32]),
            body: vec![],
        },
    };
    assert_eq!(f.params_arity(), 2);
    assert_eq!(f.returns_arity(), 1);
    assert_eq!(f.params(), vec![ValType::I32, ValType::I64]);
    assert_eq!(f.results(), vec![ValType::I32]);
}

#[test]
fn import_descriptors_list_declarations() {
    struct OneModule;

    impl CodegenCapability for OneModule {
        fn validate_module(&self, _binary: &Vec<u8>) -> Result<(), String> {
            Ok(())
        }

        fn compile_module(&self, _binary: &Vec<u8>) -> Result<(ModuleInfo, Vec<Vec<u8>>), String> {
            Ok((
                ModuleInfo {
                    types: vec![FunctionType::new(vec![ValType::I32], vec![ValType::I32])],
                    imports: vec![ImportDecl {
                        module: b"env".to_vec(),
                        field: b"double".to_vec(),
                        ty: ExternType::Function(0),
                    }],
                    functions: vec![],
                    exports: vec![ExportDecl {
                        name: b"nothing".to_vec(),
                        index: ExportIndex::Function(0),
                    }],
                    start: None,
                    globals: vec![],
                    memories: vec![],
                    tables: vec![],
                    elements: vec![],
                    data: vec![],
                },
                vec![],
            ))
        }

        fn make_trampoline(&self, _ty: &FunctionType) -> Vec<u8> {
            vec![0]
        }
    }

    let mut engine = Engine::new(OneModule, Tunables::default());
    let module = engine.compile(&vec![0]).unwrap();
    let descriptors = wasmer_import_descriptors(&module);
    assert_eq!(descriptors.len(), 1);
    let d = descriptors.get(0).unwrap();
    assert_eq!(d.module_name(), &b"env".to_vec());
    assert_eq!(d.name(), &b"double".to_vec());
    assert!(matches!(d.kind(), ExternType::Function(0)));
    assert!(descriptors.get(1).is_none());
}
