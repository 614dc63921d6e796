//! The engine: owns the code memory arena, the signature registry and the
//! trampoline cache, composes the code-generation capability, and exposes
//! validate / compile / serialize / deserialize.
//!
//! The engine is an explicit owned state value: callers that mutate it
//! (compile, deserialize, signature registration) hold it exclusively
//! through `&mut`, which is the single-writer discipline; lookups take
//! `&self` and run without contention.

use vstd::prelude::*;

verus! {

use crate::arena::CodeMemoryArena;
use crate::imports::ImportObject;
use crate::codec::Wire;
use crate::module::{CompiledModule, CompiledModuleV, SerializableModule, check_artifact};
use crate::registry::{
    SignatureIndex, SignatureRegistry, lemma_index_of_prefix, lemma_index_unique, reg_result,
    reg_state, spec_contains, spec_index_of,
};
use crate::types::{ExportIndex, FunctionType, FunctionTypeV, ModuleInfo, Value, copy_bytes};
use crate::{CompileError, DeserializeError, InstantiationError, RuntimeError, SerializeError};
use vstd::pervasive::VecAdditionalExecFns;
use vstd::string::StringSliceAdditionalSpecFns;

/// The code-generation capability: an opaque, swappable strategy that
/// validates WebAssembly bytecode and turns it into a module description
/// plus one body per local function, and generates one calling-convention
/// trampoline body per function type. Exactly one is attached per
/// full-mode engine; a headless engine has none.
pub trait CodegenCapability {
    /// Checks the binary; an error message describes the rejection.
    fn validate_module(&self, binary: &Vec<u8>) -> Result<(), String>;

    /// Translates the binary into a module description and one compiled
    /// body per local function, in the engine's body format.
    fn compile_module(&self, binary: &Vec<u8>) -> Result<(ModuleInfo, Vec<Vec<u8>>), String>;

    /// Generates the trampoline body bridging the host calling convention
    /// to guest functions of the given type.
    fn make_trampoline(&self, ty: &FunctionType) -> Vec<u8>;
}

/// Configuration fixed at engine construction: limits for instance
/// storage allocation and guard sizing. Never mutated afterwards.
#[derive(Debug, Clone, Copy, PartialEq, Eq, Structural)]
pub struct Tunables {
    /// The largest memory, in pages, an instance may allocate.
    pub memory_pages_limit: u32,
    /// The largest table, in elements, an instance may allocate.
    pub table_elements_limit: u32,
    /// How many guard pages surround a memory.
    pub guard_pages: u32,
}

impl Default for Tunables {
    /// The stock limits.
    fn default() -> (r: Tunables)
        ensures
            r.memory_pages_limit == 65536,
            r.table_elements_limit == 100000,
            r.guard_pages == 2,
    {
        Tunables { memory_pages_limit: 65536, table_elements_limit: 100000, guard_pages: 2 }
    }
}

/// The fixed byte sequence identifying this engine family's serialized
/// artifacts: a zero byte followed by `wasmer-jit`.
pub open spec fn spec_magic() -> Seq<u8> {
    seq![0u8, 119u8, 97u8, 115u8, 109u8, 101u8, 114u8, 45u8, 106u8, 105u8, 116u8]
}

/// The magic header as bytes.
pub fn magic_header() -> (r: Vec<u8>)
    ensures
        r@ == spec_magic(),
{
    let mut v: Vec<u8> = Vec::new();
    v.push(0);
    v.push(119);
    v.push(97);
    v.push(115);
    v.push(109);
    v.push(101);
    v.push(114);
    v.push(45);
    v.push(106);
    v.push(105);
    v.push(116);
    proof {
        assert(v@ =~= spec_magic());
    }
    v
}

/// One cached trampoline: where its body was placed, and the body itself,
/// kept so that later artifacts can embed it without reading code memory.
struct TrampolineEntry {
    addr: usize,
    body: Vec<u8>,
}

/// A WebAssembly engine. In full mode a code-generation capability is
/// attached and every operation is available; in headless mode `validate`
/// and `compile` fail deterministically while deserialized modules still
/// instantiate.
pub struct Engine<C> {
    compiler: Option<C>,
    tunables: Tunables,
    arena: CodeMemoryArena,
    signatures: SignatureRegistry,
    trampolines: Vec<Option<TrampolineEntry>>,
}

impl<C: CodegenCapability> Engine<C> {
    /// Whether no code-generation capability is attached.
    pub closed spec fn spec_headless(&self) -> bool {
        self.compiler is None
    }

    /// The registered function types, in index order.
    pub closed spec fn spec_signatures(&self) -> Seq<FunctionTypeV> {
        self.signatures.spec_types()
    }

    /// The cached trampoline address per signature index, if one exists.
    pub closed spec fn spec_trampolines(&self) -> Seq<Option<usize>> {
        self.trampolines@.map_values(
            |t: Option<TrampolineEntry>|
                match t {
                    None => None,
                    Some(e) => Some(e.addr),
                },
        )
    }

    /// The code memory arena.
    pub closed spec fn spec_arena(&self) -> CodeMemoryArena {
        self.arena
    }

    /// The tunables fixed at construction.
    pub closed spec fn spec_tunables(&self) -> Tunables {
        self.tunables
    }

    /// Whether a trampoline is already cached for a signature structurally
    /// equal to `ty`.
    pub open spec fn spec_has_trampoline_for(&self, ty: FunctionTypeV) -> bool {
        &&& spec_contains(self.spec_signatures(), ty)
        &&& self.spec_trampolines()[spec_index_of(self.spec_signatures(), ty)] is Some
    }

    /// Whether a trampoline is already cached for a signature structurally
    /// equal to `ty`.
    fn has_cached_trampoline(&self, ty: &FunctionType) -> (r: bool)
        requires
            self.wf(),
        ensures
            r == self.spec_has_trampoline_for(ty@),
    {
        match self.signatures.find(ty) {
            None => false,
            Some(sig) => {
                proof {
                    let j = spec_index_of(self.spec_signatures(), ty@);
                    assert(0 <= j < self.spec_signatures().len() && self.spec_signatures()[j]
                        == ty@);
                }
                if sig < self.trampolines.len() {
                    proof {
                        assert(self.spec_trampolines()[sig as int] == (
                        match self.trampolines@[sig as int] {
                            None => None::<usize>,
                            Some(e) => Some(e.addr),
                        }));
                    }
                    match &self.trampolines[sig] {
                        Some(_) => true,
                        None => false,
                    }
                } else {
                    proof {
                        assert(false);
                    }
                    false
                }
            },
        }
    }

    /// Well-formedness: the arena and registry are well-formed, there is
    /// one cache slot per registered signature, every cached trampoline
    /// points at a published span holding exactly its body, and everything
    /// allocated so far is published.
    pub closed spec fn wf(&self) -> bool {
        &&& self.arena.wf()
        &&& self.signatures.wf()
        &&& self.trampolines@.len() == self.signatures.spec_types().len()
        &&& forall|i: int|
            0 <= i < self.trampolines@.len() ==> ((#[trigger] self.trampolines@[i]) matches Some(e)
                ==> e.addr < self.arena.spec_spans().len() && self.arena.span_bytes(e.addr as int)
                == e.body@)
        &&& self.arena.spec_published() == self.arena.spec_spans().len()
    }

    /// Creates a full-mode engine around the given capability.
    pub fn new(compiler: C, tunables: Tunables) -> (r: Engine<C>)
        ensures
            r.wf(),
            !r.spec_headless(),
            r.spec_signatures() == Seq::<FunctionTypeV>::empty(),
            r.spec_trampolines() == Seq::<Option<usize>>::empty(),
            r.spec_tunables() == tunables,
    {
        let r = Engine {
            compiler: Some(compiler),
            tunables,
            arena: CodeMemoryArena::new(),
            signatures: SignatureRegistry::new(),
            trampolines: Vec::new(),
        };
        proof {
            assert(r.spec_signatures() =~= Seq::<FunctionTypeV>::empty());
            assert(r.spec_trampolines() =~= Seq::<Option<usize>>::empty());
        }
        r
    }

    /// Creates a headless engine: no capability, so `validate` and
    /// `compile` fail deterministically, but a deserialized module still
    /// instantiates.
    pub fn headless(tunables: Tunables) -> (r: Engine<C>)
        ensures
            r.wf(),
            r.spec_headless(),
            r.spec_signatures() == Seq::<FunctionTypeV>::empty(),
            r.spec_trampolines() == Seq::<Option<usize>>::empty(),
            r.spec_tunables() == tunables,
    {
        let r = Engine {
            compiler: None,
            tunables,
            arena: CodeMemoryArena::new(),
            signatures: SignatureRegistry::new(),
            trampolines: Vec::new(),
        };
        proof {
            assert(r.spec_signatures() =~= Seq::<FunctionTypeV>::empty());
            assert(r.spec_trampolines() =~= Seq::<Option<usize>>::empty());
        }
        r
    }

    /// Whether the bytes look like an artifact this engine family wrote:
    /// they begin with the magic header.
    pub fn is_deserializable(bytes: &[u8]) -> (r: bool)
        ensures
            r == spec_is_deserializable(bytes@),
    {
        let magic = magic_header();
        if bytes.len() < magic.len() {
            proof {
                assert(bytes@.len() < spec_magic().len());
            }
            return false;
        }
        let n: usize = magic.len();
        let mut i: usize = 0;
        while i < n
            invariant
                n == spec_magic().len(),
                magic@ == spec_magic(),
                n <= bytes@.len(),
                0 <= i <= n,
                forall|k: int| 0 <= k < i ==> bytes@[k] == spec_magic()[k],
            decreases n - i,
        {
            if bytes[i] != magic[i] {
                proof {
                    assert(bytes@.subrange(0, spec_magic().len() as int)[i as int] != spec_magic()[
                        i as int
                    ]);
                }
                return false;
            }
            i += 1;
        }
        proof {
            assert(bytes@.subrange(0, spec_magic().len() as int) =~= spec_magic());
        }
        true
    }

    /// The tunables fixed at construction.
    pub fn tunables(&self) -> (r: &Tunables)
        ensures
            *r == self.spec_tunables(),
    {
        &self.tunables
    }

    /// Registers a function type, returning its canonical index: the
    /// existing one if a structurally equal type is already known, else the
    /// next dense index. No trampoline is generated here.
    pub fn register_signature(&mut self, ty: &FunctionType) -> (idx: SignatureIndex)
        requires
            old(self).wf(),
        ensures
            final(self).wf(),
            engine_preserves(*old(self), *final(self)),
            final(self).spec_signatures() == reg_state(old(self).spec_signatures(), ty@),
            idx as int == reg_result(old(self).spec_signatures(), ty@),
            idx < final(self).spec_signatures().len(),
            final(self).spec_signatures()[idx as int] == ty@,
            final(self).spec_arena() == old(self).spec_arena(),
    {
        let idx = self.signatures.register(ty);
        if self.trampolines.len() < self.signatures.len() {
            self.trampolines.push(None);
        }
        proof {
            let pre = old(self).spec_trampolines();
            if self.spec_trampolines().len() > pre.len() {
                assert(self.spec_trampolines() =~= pre.push(None));
            } else {
                assert(self.spec_trampolines() =~= pre);
            }
        }
        idx
    }

    /// The reverse mapping: the type registered under `idx`, or `None` for
    /// an index that was never handed out.
    pub fn lookup_signature(&self, idx: SignatureIndex) -> (r: Option<FunctionType>)
        ensures
            match r {
                Some(t) => idx < self.spec_signatures().len() && t@ == self.spec_signatures()[
                    idx as int
                ],
                None => idx >= self.spec_signatures().len(),
            },
    {
        self.signatures.lookup(idx)
    }

    /// The trampoline address cached for the signature index, if any.
    pub fn trampoline(&self, idx: SignatureIndex) -> (r: Option<usize>)
        requires
            self.wf(),
        ensures
            match r {
                Some(a) => idx < self.spec_trampolines().len() && self.spec_trampolines()[
                    idx as int
                ] == Some(a),
                None => idx >= self.spec_trampolines().len() || self.spec_trampolines()[
                    idx as int
                ] is None,
            },
    {
        if idx < self.trampolines.len() {
            proof {
                assert(self.spec_trampolines()[idx as int] == (match self.trampolines@[idx as int] {
                    None => None::<usize>,
                    Some(e) => Some(e.addr),
                }));
            }
            match &self.trampolines[idx] {
                Some(e) => Some(e.addr),
                None => None,
            }
        } else {
            None
        }
    }

    /// Validates a WebAssembly binary through the attached capability. A
    /// headless engine rejects every binary with a `Codegen` error.
    pub fn validate(&self, binary: &Vec<u8>) -> (r: Result<(), CompileError>)
        ensures
            self.spec_headless() ==> (r matches Err(CompileError::Codegen(_))),
            !self.spec_headless() ==> (r is Ok || (r matches Err(CompileError::Validate(_)))),
    {
        match &self.compiler {
            None => Err(
                CompileError::Codegen(
                    "the engine is operating in headless mode, so it can only execute already compiled modules".to_owned(),
                ),
            ),
            Some(c) => match c.validate_module(binary) {
                Ok(()) => Ok(()),
                Err(msg) => Err(CompileError::Validate(msg)),
            },
        }
    }

    /// Compiles a WebAssembly binary: validates it, obtains per-function
    /// bodies and the module description from the capability, generates a
    /// trampoline body for every signature that has none cached yet (and
    /// only for those), places everything into the code memory arena, and
    /// publishes it before returning. A headless engine fails with
    /// `Codegen` and changes nothing; a `Validate` or `Resource` failure
    /// can only arise in full mode, `Resource` only from the placement.
    pub fn compile(&mut self, binary: &Vec<u8>) -> (r: Result<CompiledModule, CompileError>)
        requires
            old(self).wf(),
        ensures
            final(self).wf(),
            engine_preserves(*old(self), *final(self)),
            old(self).spec_headless() ==> (r matches Err(CompileError::Codegen(_))),
            old(self).spec_headless() ==> *final(self) == *old(self),
            (r matches Err(CompileError::Validate(_)) ==> !old(self).spec_headless()),
            (r matches Err(CompileError::Resource(_)) ==> !old(self).spec_headless()),
            (r matches Ok(cm) ==> {
                &&& cm@.wf()
                &&& cm@.owned_by(final(self).spec_arena())
                &&& !old(self).spec_headless()
                &&& module_trampolines_cached(*final(self), cm@)
            }),
    {
        proof {
            lemma_engine_preserves_refl(*self);
        }
        if self.compiler.is_none() {
            return Err(
                CompileError::Codegen(
                    "the engine is operating in headless mode, so it can only execute already compiled modules".to_owned(),
                ),
            );
        }
        let validation = match &self.compiler {
            Some(c) => c.validate_module(binary),
            None => Ok(()),
        };
        if let Err(msg) = validation {
            return Err(CompileError::Validate(msg));
        }
        let compiled = match &self.compiler {
            Some(c) => c.compile_module(binary),
            None => Err(String::new()),
        };
        let (info, bodies) = match compiled {
            Ok(x) => x,
            Err(msg) => {
                return Err(CompileError::Codegen(msg));
            },
        };
        if !crate::types::check_module_wf(&info) || bodies.len() != info.functions.len() {
            return Err(
                CompileError::Codegen(
                    "the capability returned a structurally malformed module".to_owned(),
                ),
            );
        }
        // generate a trampoline body for each signature that has none yet:
        // neither cached on the engine nor equal to an earlier type of this
        // very module
        let ghost tyv = info@.types;
        let n_types: usize = info.types.len();
        let mut jobs: Vec<Option<Vec<u8>>> = Vec::new();
        let mut i: usize = 0;
        while i < n_types
            invariant
                n_types == tyv.len(),
                tyv == info@.types,
                n_types == info.types@.len(),
                0 <= i <= n_types,
                *self == *old(self),
                self.wf(),
                !self.spec_headless(),
                jobs@.len() == i,
                forall|k: int|
                    0 <= k < i ==> ((#[trigger] jobs@[k]) is None ==> (
                    old(self).spec_has_trampoline_for(tyv[k]) || exists|j: int|
                        0 <= j < k && tyv[j] == tyv[k])),
            decreases n_types - i,
        {
            proof {
                assert(tyv[i as int] == info.types@[i as int]@);
            }
            let cached = self.has_cached_trampoline(&info.types[i]);
            let mut seen = false;
            let mut j: usize = 0;
            while j < i
                invariant
                    0 <= j <= i,
                    i < n_types,
                    n_types == info.types@.len(),
                    tyv == info@.types,
                    n_types == tyv.len(),
                    seen ==> exists|x: int| 0 <= x < i && tyv[x] == tyv[i as int],
                decreases i - j,
            {
                proof {
                    assert(tyv[j as int] == info.types@[j as int]@);
                }
                if info.types[j].same(&info.types[i]) {
                    seen = true;
                }
                j += 1;
            }
            if cached || seen {
                jobs.push(None);
            } else {
                let body = match &self.compiler {
                    Some(c) => c.make_trampoline(&info.types[i]),
                    None => Vec::new(),
                };
                jobs.push(Some(body));
            }
            i += 1;
        }
        self.place_and_publish(info, bodies, jobs)
    }

    /// Places a checked module description, its bodies and the freshly
    /// generated trampoline bodies: registers the signatures, caches each
    /// generated trampoline under its canonical index, allocates
    /// everything, publishes. On success the returned module carries
    /// exactly the given description and bodies; the only failure is
    /// `Resource`, exactly when placing the generated trampolines and the
    /// bodies exhausts the address space.
    fn place_and_publish(
        &mut self,
        info: ModuleInfo,
        bodies: Vec<Vec<u8>>,
        jobs: Vec<Option<Vec<u8>>>,
    ) -> (r: Result<CompiledModule, CompileError>)
        requires
            old(self).wf(),
            info@.wf(),
            bodies@.len() == info@.functions.len(),
            jobs@.len() == info@.types.len(),
            forall|k: int|
                0 <= k < jobs@.len() ==> ((#[trigger] jobs@[k]) is None ==> (
                old(self).spec_has_trampoline_for(info@.types[k]) || exists|j: int|
                    0 <= j < k && info@.types[j] == info@.types[k])),
        ensures
            final(self).wf(),
            engine_preserves(*old(self), *final(self)),
            (r matches Ok(cm) ==> {
                &&& cm@.wf()
                &&& cm@.artifact.info == info@
                &&& cm@.artifact.bodies == bodies@.map_values(|b: Vec<u8>| b@)
                &&& cm@.owned_by(final(self).spec_arena())
                &&& module_trampolines_cached(*final(self), cm@)
            }),
            (r matches Err(e) ==> e is Resource),
            crate::arena::placement_fits(
                old(self).spec_arena().spec_cursor(),
                some_items(jobs@.map_values(|o: Option<Vec<u8>>| job_view(o))) + bodies@.map_values(
                    |b: Vec<u8>| b@,
                ),
            ) ==> r is Ok,
            r is Err ==> !crate::arena::placement_fits(
                old(self).spec_arena().spec_cursor(),
                some_items(jobs@.map_values(|o: Option<Vec<u8>>| job_view(o))) + bodies@.map_values(
                    |b: Vec<u8>| b@,
                ),
            ),
    {
        let ghost pre = *old(self);
        let ghost tyv = info@.types;
        let ghost jv = jobs@.map_values(|o: Option<Vec<u8>>| job_view(o));
        let ghost bodiesv = bodies@.map_values(|b: Vec<u8>| b@);
        let ghost c0 = pre.spec_arena().spec_cursor();
        let n_types: usize = info.types.len();
        let mut jobs_rest = jobs;
        let mut tramp_addrs: Vec<usize> = Vec::new();
        let mut tramp_bodies: Vec<Vec<u8>> = Vec::new();
        let mut i: usize = 0;
        proof {
            assert(jv.skip(0) =~= jv);
        }
        while i < n_types
            invariant
                n_types == tyv.len(),
                tyv == info@.types,
                n_types == info.types@.len(),
                0 <= i <= n_types,
                pre == *old(self),
                pre.wf(),
                jv == jobs@.map_values(|o: Option<Vec<u8>>| job_view(o)),
                jv.len() == n_types,
                bodiesv == bodies@.map_values(|b: Vec<u8>| b@),
                c0 == pre.spec_arena().spec_cursor(),
                jobs_rest@.len() == n_types - i,
                forall|k: int|
                    0 <= k < n_types - i ==> job_view(#[trigger] jobs_rest@[k]) == jv[i + k],
                forall|k: int|
                    0 <= k < jv.len() ==> ((#[trigger] jv[k]) is None ==> (
                    pre.spec_has_trampoline_for(tyv[k]) || exists|j: int|
                        0 <= j < k && tyv[j] == tyv[k])),
                crate::arena::sim_place(
                    self.spec_arena().spec_cursor(),
                    some_items(jv.skip(i as int)) + bodiesv,
                ) <= crate::arena::sim_place(c0, some_items(jv) + bodiesv),
                pre.spec_trampolines().len() <= self.spec_trampolines().len(),
                self.spec_headless() == pre.spec_headless(),
                self.spec_tunables() == pre.spec_tunables(),
                self.spec_arena().wf(),
                self.signatures.wf(),
                self.trampolines@.len() == self.spec_signatures().len(),
                forall|k: int|
                    0 <= k < self.trampolines@.len() ==> ((#[trigger] self.trampolines@[k]) matches
                    Some(e) ==> e.addr < self.spec_arena().spec_spans().len() && self.spec_arena(
                    ).span_bytes(e.addr as int) == e.body@),
                self.spec_arena().spec_published() == pre.spec_arena().spec_published(),
                pre.spec_arena().spec_spans().is_prefix_of(self.spec_arena().spec_spans()),
                pre.spec_signatures().is_prefix_of(self.spec_signatures()),
                forall|k: int|
                    0 <= k < pre.spec_trampolines().len() && pre.spec_trampolines()[k] is Some
                        ==> #[trigger] self.spec_trampolines()[k] == pre.spec_trampolines()[k],
                tramp_addrs@.len() == i,
                tramp_bodies@.len() == i,
                forall|k: int|
                    0 <= k < i ==> spec_contains(self.spec_signatures(), #[trigger] tyv[k]),
                forall|k: int|
                    0 <= k < i ==> self.spec_trampolines()[spec_index_of(
                        self.spec_signatures(),
                        #[trigger] tyv[k],
                    )] == Some(tramp_addrs@[k]),
                forall|k: int|
                    0 <= k < i ==> (#[trigger] tramp_addrs@[k]) < self.spec_arena().spec_spans(
                    ).len(),
                forall|k: int|
                    0 <= k < i ==> self.spec_arena().span_bytes(#[trigger] tramp_addrs@[k] as int)
                        == tramp_bodies@[k]@,
            decreases n_types - i,
        {
            let ghost snap = *self;
            let ghost cur = self.spec_arena().spec_cursor();
            let job: Option<Vec<u8>> = jobs_rest.remove(0);
            proof {
                assert(info@.types[i as int] == info.types@[i as int]@);
                assert(job_view(job) == jv[i as int]);
                assert(jv.skip(i as int).first() == jv[i as int]);
                assert(jv.skip(i as int).drop_first() =~= jv.skip(i + 1));
                assert forall|k: int| 0 <= k < n_types - (i + 1) implies job_view(
                    #[trigger] jobs_rest@[k],
                ) == jv[i + 1 + k] by {}
            }
            let sig = self.signatures.register(&info.types[i]);
            if self.trampolines.len() < self.signatures.len() {
                self.trampolines.push(None);
            }
            proof {
                let prev = snap.spec_trampolines();
                if self.spec_trampolines().len() > prev.len() {
                    assert(self.spec_trampolines() =~= prev.push(None));
                } else {
                    assert(self.spec_trampolines() =~= prev);
                }
                assert(snap.spec_signatures().is_prefix_of(self.spec_signatures())) by {
                    assert(self.spec_signatures().subrange(
                        0,
                        snap.spec_signatures().len() as int,
                    ) =~= snap.spec_signatures());
                }
            }
            let needs = match &self.trampolines[sig] {
                None => true,
                Some(_) => false,
            };
            if needs {
                let body: Vec<u8> = match job {
                    Some(b) => b,
                    None => {
                        proof {
                            // a missing job would mean the trampoline was
                            // already available, contradicting the empty
                            // cache slot
                            if pre.spec_has_trampoline_for(tyv[i as int]) {
                                lemma_index_of_prefix(
                                    pre.spec_signatures(),
                                    self.spec_signatures(),
                                    tyv[i as int],
                                );
                                lemma_index_unique(
                                    self.spec_signatures(),
                                    tyv[i as int],
                                    sig as int,
                                );
                                assert(self.spec_trampolines()[sig as int] is Some);
                            } else {
                                let j = choose|j: int| 0 <= j < i && tyv[j] == tyv[i as int];
                                lemma_index_of_prefix(
                                    snap.spec_signatures(),
                                    self.spec_signatures(),
                                    tyv[j],
                                );
                                lemma_index_unique(
                                    self.spec_signatures(),
                                    tyv[i as int],
                                    sig as int,
                                );
                                assert(snap.spec_trampolines()[spec_index_of(
                                    snap.spec_signatures(),
                                    tyv[j],
                                )] == Some(tramp_addrs@[j]));
                                assert(self.spec_trampolines()[sig as int] is Some);
                            }
                            assert(false);
                        }
                        return Err(CompileError::Resource(String::new()));
                    },
                };
                proof {
                    assert(some_items(jv.skip(i as int)) =~= seq![body@] + some_items(
                        jv.skip(i + 1),
                    ));
                    assert((seq![body@] + some_items(jv.skip(i + 1))) + bodiesv =~= seq![body@]
                        + (some_items(jv.skip(i + 1)) + bodiesv));
                    assert((some_items(jv.skip(i as int)) + bodiesv).first() == body@);
                    assert((some_items(jv.skip(i as int)) + bodiesv).drop_first()
                        =~= some_items(jv.skip(i + 1)) + bodiesv);
                }
                let ghost snap2 = *self;
                let addr = match self.arena.allocate_for_function(&body) {
                    Ok(a) => a,
                    Err(_) => {
                        proof {
                            crate::arena::lemma_sim_place_lb(
                                crate::arena::align_up(cur) + body@.len(),
                                some_items(jv.skip(i + 1)) + bodiesv,
                            );
                            assert(crate::arena::sim_place(
                                cur,
                                some_items(jv.skip(i as int)) + bodiesv,
                            ) > usize::MAX);
                            assert(!crate::arena::placement_fits(
                                c0,
                                some_items(jv) + bodiesv,
                            ));
                        }
                        self.arena.publish();
                        proof {
                            assert(self.spec_trampolines() =~= snap2.spec_trampolines());
                            assert(self.spec_signatures() == snap2.spec_signatures());
                            lemma_engine_preserves_from(pre, *self);
                        }
                        return Err(
                            CompileError::Resource(
                                "failed to allocate memory for trampolines".to_owned(),
                            ),
                        );
                    },
                };
                tramp_addrs.push(addr);
                tramp_bodies.push(copy_bytes(&body));
                let ghost snap3 = *self;
                self.trampolines.set(sig, Some(TrampolineEntry { addr, body }));
                proof {
                    assert(self.spec_trampolines() =~= snap3.spec_trampolines().update(
                        sig as int,
                        Some(addr),
                    ));
                    assert(snap3.spec_trampolines()[sig as int] is None);
                    assert forall|k: int| 0 <= k < i implies spec_contains(
                        self.spec_signatures(),
                        #[trigger] tyv[k],
                    ) && self.spec_trampolines()[spec_index_of(self.spec_signatures(), tyv[k])]
                        == Some(tramp_addrs@[k]) by {
                        lemma_index_of_prefix(
                            snap.spec_signatures(),
                            self.spec_signatures(),
                            tyv[k],
                        );
                        let slot = spec_index_of(snap.spec_signatures(), tyv[k]);
                        assert(snap.spec_trampolines()[slot] == Some(tramp_addrs@[k]));
                        assert(snap3.spec_trampolines()[slot] == Some(tramp_addrs@[k]));
                        assert(slot != sig as int);
                    }
                    lemma_index_unique(self.spec_signatures(), tyv[i as int], sig as int);
                    assert(self.spec_trampolines()[sig as int] == Some(addr));
                    assert(tramp_addrs@[i as int] == addr);
                    assert(self.spec_arena().span_bytes(addr as int) == tramp_bodies@[i as int]@);
                    assert(self.spec_arena().spec_cursor() == crate::arena::align_up(cur)
                        + tramp_bodies@[i as int]@.len());
                }
            } else {
                let (addr, body_copy): (usize, Vec<u8>) = match &self.trampolines[sig] {
                    Some(e) => (e.addr, copy_bytes(&e.body)),
                    None => {
                        proof {
                            assert(false);
                        }
                        return Err(CompileError::Resource(String::new()));
                    },
                };
                tramp_addrs.push(addr);
                tramp_bodies.push(body_copy);
                proof {
                    match jv[i as int] {
                        Some(b) => {
                            assert(some_items(jv.skip(i as int)) =~= seq![b] + some_items(
                                jv.skip(i + 1),
                            ));
                            assert((seq![b] + some_items(jv.skip(i + 1))) + bodiesv =~= seq![b]
                                + (some_items(jv.skip(i + 1)) + bodiesv));
                            assert((some_items(jv.skip(i as int)) + bodiesv).first() == b);
                            assert((some_items(jv.skip(i as int)) + bodiesv).drop_first()
                                =~= some_items(jv.skip(i + 1)) + bodiesv);
                            crate::arena::lemma_align_up_lb(cur);
                            crate::arena::lemma_sim_place_mono(
                                cur,
                                crate::arena::align_up(cur) + b.len(),
                                some_items(jv.skip(i + 1)) + bodiesv,
                            );
                        },
                        None => {
                            assert(some_items(jv.skip(i as int)) =~= some_items(jv.skip(i + 1)));
                        },
                    }
                    if !spec_contains(snap.spec_signatures(), tyv[i as int]) {
                        assert(self.spec_trampolines()[sig as int] is None);
                        assert(false);
                    }
                    assert(self.spec_signatures() == snap.spec_signatures());
                    assert(self.spec_trampolines() =~= snap.spec_trampolines());
                    lemma_index_unique(self.spec_signatures(), tyv[i as int], sig as int);
                    assert(self.spec_trampolines()[sig as int] == Some(addr));
                }
            }
            i += 1;
        }
        let ghost mid = *self;
        proof {
            assert(some_items(jv.skip(n_types as int)) =~= Seq::<Seq<u8>>::empty());
            assert(some_items(jv.skip(n_types as int)) + bodiesv =~= bodiesv);
        }
        let function_addrs = match self.arena.allocate_functions(&bodies) {
            Ok(a) => a,
            Err(_) => {
                proof {
                    assert(!crate::arena::placement_fits(
                        mid.spec_arena().spec_cursor(),
                        bodiesv,
                    ));
                    assert(!crate::arena::placement_fits(c0, some_items(jv) + bodiesv));
                }
                self.arena.publish();
                proof {
                    assert(self.spec_trampolines() =~= mid.spec_trampolines());
                    assert(self.spec_signatures() == mid.spec_signatures());
                    lemma_engine_preserves_from(pre, *self);
                }
                return Err(
                    CompileError::Resource("failed to allocate memory for functions".to_owned()),
                );
            },
        };
        self.arena.publish();
        let cm = CompiledModule {
            artifact: SerializableModule { info, bodies, trampolines: tramp_bodies },
            function_addrs,
            trampoline_addrs: tramp_addrs,
        };
        proof {
            assert(self.spec_trampolines() =~= mid.spec_trampolines());
            assert(self.spec_signatures() == mid.spec_signatures());
            lemma_engine_preserves_from(pre, *self);
            assert(cm@.artifact.bodies.len() == cm@.artifact.info.functions.len());
            assert(cm@.artifact.trampolines.len() == cm@.artifact.info.types.len());
            // placed function bodies
            assert forall|k: int| 0 <= k < cm@.function_addrs.len() implies self.spec_arena(
            ).is_executable(#[trigger] cm@.function_addrs[k] as int) && self.spec_arena(
            ).span_bytes(cm@.function_addrs[k] as int) == cm@.artifact.bodies[k] by {
                assert(cm@.artifact.bodies[k] == cm.artifact.bodies@[k]@);
            }
            // placed trampolines
            assert forall|k: int| 0 <= k < cm@.trampoline_addrs.len() implies self.spec_arena(
            ).is_executable(#[trigger] cm@.trampoline_addrs[k] as int) && self.spec_arena(
            ).span_bytes(cm@.trampoline_addrs[k] as int) == cm@.artifact.trampolines[k] by {
                assert(cm@.artifact.trampolines[k] == cm.artifact.trampolines@[k]@);
                assert(mid.spec_arena().span_bytes(tramp_addrs@[k] as int) == tramp_bodies@[k]@);
            }
            // every module signature has its trampoline cached
            assert forall|k: int| 0 <= k < cm@.artifact.info.types.len() implies spec_contains(
                self.spec_signatures(),
                #[trigger] cm@.artifact.info.types[k],
            ) && self.spec_trampolines()[spec_index_of(
                self.spec_signatures(),
                cm@.artifact.info.types[k],
            )] == Some(cm@.trampoline_addrs[k]) by {
                assert(cm@.artifact.info.types[k] == tyv[k]);
            }
        }
        Ok(cm)
    }

    /// Deserializes an artifact this engine family serialized: checks the
    /// magic header first and fails fast with `Incompatible` when it does
    /// not match, without interpreting the remainder; decodes the
    /// artifact; places its bodies and trampolines into the arena without
    /// invoking any code-generation capability (so a headless engine can
    /// run it); publishes; and returns the reconstructed compiled module.
    /// WebAssembly-level semantics of the embedded code are not
    /// re-validated.
    pub fn deserialize(&mut self, bytes: &Vec<u8>) -> (r: Result<CompiledModule, DeserializeError>)
        requires
            old(self).wf(),
        ensures
            final(self).wf(),
            engine_preserves(*old(self), *final(self)),
            !spec_is_deserializable(bytes@) ==> (r matches Err(DeserializeError::Incompatible(_))
                && *final(self) == *old(self)),
            (spec_is_deserializable(bytes@) && !spec_artifact_decodes(bytes@)) ==> (r matches Err(
                DeserializeError::Incompatible(_),
            ) && *final(self) == *old(self)),
            (r matches Ok(cm) ==> {
                &&& spec_is_deserializable(bytes@)
                &&& <SerializableModule as Wire>::wdec(bytes@, spec_magic().len() as int)
                    == Some((cm@.artifact, bytes@.len() as int))
                &&& cm@.wf()
                &&& cm@.owned_by(final(self).spec_arena())
                &&& module_signatures_known(*final(self), cm@.artifact.info)
            }),
            (r matches Err(DeserializeError::Resource(_)) ==> spec_is_deserializable(bytes@)
                && spec_artifact_decodes(bytes@) && !crate::arena::placement_fits(
                old(self).spec_arena().spec_cursor(),
                spec_decoded_items(bytes@),
            )),
            (r matches Err(DeserializeError::Incompatible(_)) ==> !(spec_is_deserializable(bytes@)
                && spec_artifact_decodes(bytes@))),
            (spec_is_deserializable(bytes@) && spec_artifact_decodes(bytes@)
                && crate::arena::placement_fits(
                old(self).spec_arena().spec_cursor(),
                spec_decoded_items(bytes@),
            )) ==> r is Ok,
    {
        proof {
            lemma_engine_preserves_refl(*self);
        }
        if !Self::is_deserializable(bytes.as_slice()) {
            return Err(
                DeserializeError::Incompatible(
                    "the provided bytes do not carry this engine family's header".to_owned(),
                ),
            );
        }
        let (art, p) = match <SerializableModule as Wire>::dec(bytes, 11) {
            None => {
                return Err(
                    DeserializeError::Incompatible("the artifact is malformed".to_owned()),
                );
            },
            Some(x) => x,
        };
        if p != bytes.len() {
            return Err(
                DeserializeError::Incompatible(
                    "the artifact carries trailing bytes".to_owned(),
                ),
            );
        }
        if !check_artifact(&art) {
            return Err(
                DeserializeError::Incompatible(
                    "the artifact's description is malformed".to_owned(),
                ),
            );
        }
        self.place_artifact(art)
    }

    /// Places a checked artifact: registers its signatures, places its
    /// trampolines (reusing a cached one only when its body is the same),
    /// places its function bodies, publishes.
    fn place_artifact(&mut self, art: SerializableModule) -> (r: Result<
        CompiledModule,
        DeserializeError,
    >)
        requires
            old(self).wf(),
            art@.wf(),
        ensures
            final(self).wf(),
            engine_preserves(*old(self), *final(self)),
            (r matches Ok(cm) ==> {
                &&& cm@.artifact == art@
                &&& cm@.wf()
                &&& cm@.owned_by(final(self).spec_arena())
                &&& module_signatures_known(*final(self), cm@.artifact.info)
            }),
            (r matches Err(e) ==> e is Resource),
            crate::arena::placement_fits(
                old(self).spec_arena().spec_cursor(),
                art@.trampolines + art@.bodies,
            ) ==> r is Ok,
            r is Err ==> !crate::arena::placement_fits(
                old(self).spec_arena().spec_cursor(),
                art@.trampolines + art@.bodies,
            ),
    {
        let ghost pre = *old(self);
        let ghost tyv = art@.info.types;
        let ghost trv = art@.trampolines;
        let ghost items = art@.trampolines + art@.bodies;
        let ghost c0 = pre.spec_arena().spec_cursor();
        let n_types: usize = art.info.types.len();
        let mut tramp_addrs: Vec<usize> = Vec::new();
        let mut i: usize = 0;
        proof {
            assert(art@.trampolines.len() == art.trampolines@.len());
            assert(items.skip(0) =~= items);
        }
        while i < n_types
            invariant
                n_types == tyv.len(),
                tyv == art@.info.types,
                trv == art@.trampolines,
                trv.len() == n_types,
                n_types == art.info.types@.len(),
                n_types == art.trampolines@.len(),
                0 <= i <= n_types,
                pre == *old(self),
                pre.wf(),
                items == art@.trampolines + art@.bodies,
                c0 == pre.spec_arena().spec_cursor(),
                crate::arena::sim_place(
                    self.spec_arena().spec_cursor(),
                    items.skip(i as int),
                ) <= crate::arena::sim_place(c0, items),
                pre.spec_trampolines().len() <= self.spec_trampolines().len(),
                self.spec_headless() == pre.spec_headless(),
                self.spec_tunables() == pre.spec_tunables(),
                self.spec_arena().wf(),
                self.signatures.wf(),
                self.trampolines@.len() == self.spec_signatures().len(),
                forall|k: int|
                    0 <= k < self.trampolines@.len() ==> ((#[trigger] self.trampolines@[k]) matches
                    Some(e) ==> e.addr < self.spec_arena().spec_spans().len() && self.spec_arena(
                    ).span_bytes(e.addr as int) == e.body@),
                self.spec_arena().spec_published() == pre.spec_arena().spec_published(),
                pre.spec_arena().spec_spans().is_prefix_of(self.spec_arena().spec_spans()),
                pre.spec_signatures().is_prefix_of(self.spec_signatures()),
                forall|k: int|
                    0 <= k < pre.spec_trampolines().len() && pre.spec_trampolines()[k] is Some
                        ==> #[trigger] self.spec_trampolines()[k] == pre.spec_trampolines()[k],
                tramp_addrs@.len() == i,
                forall|k: int|
                    0 <= k < i ==> spec_contains(self.spec_signatures(), #[trigger] tyv[k]),
                forall|k: int|
                    0 <= k < i ==> self.spec_trampolines()[spec_index_of(
                        self.spec_signatures(),
                        #[trigger] tyv[k],
                    )] is Some,
                forall|k: int|
                    0 <= k < i ==> (#[trigger] tramp_addrs@[k]) < self.spec_arena().spec_spans(
                    ).len(),
                forall|k: int|
                    0 <= k < i ==> self.spec_arena().span_bytes(#[trigger] tramp_addrs@[k] as int)
                        == trv[k],
            decreases n_types - i,
        {
            let ghost snap = *self;
            let ghost cur = self.spec_arena().spec_cursor();
            proof {
                assert(art@.info.types[i as int] == art.info.types@[i as int]@);
                assert(art@.trampolines[i as int] == art.trampolines@[i as int]@);
                assert(items.skip(i as int).first() == items[i as int]);
                assert(items[i as int] == trv[i as int]);
                assert(items.skip(i as int).drop_first() =~= items.skip(i + 1));
            }
            let sig = self.signatures.register(&art.info.types[i]);
            if self.trampolines.len() < self.signatures.len() {
                self.trampolines.push(None);
            }
            proof {
                let prev = snap.spec_trampolines();
                if self.spec_trampolines().len() > prev.len() {
                    assert(self.spec_trampolines() =~= prev.push(None));
                } else {
                    assert(self.spec_trampolines() =~= prev);
                }
                assert(snap.spec_signatures().is_prefix_of(self.spec_signatures())) by {
                    assert(self.spec_signatures().subrange(
                        0,
                        snap.spec_signatures().len() as int,
                    ) =~= snap.spec_signatures());
                }
            }
            let reusable: Option<usize> = match &self.trampolines[sig] {
                None => None,
                Some(e) => {
                    if crate::types::bytes_eq(e.body.as_slice(), art.trampolines[i].as_slice()) {
                        Some(e.addr)
                    } else {
                        None
                    }
                },
            };
            let cached = match &self.trampolines[sig] {
                None => false,
                Some(_) => true,
            };
            match reusable {
                Some(addr) => {
                    tramp_addrs.push(addr);
                    proof {
                        crate::arena::lemma_align_up_lb(cur);
                        crate::arena::lemma_sim_place_mono(
                            cur,
                            crate::arena::align_up(cur) + trv[i as int].len(),
                            items.skip(i + 1),
                        );
                        lemma_index_unique(self.spec_signatures(), tyv[i as int], sig as int);
                        assert forall|k: int| 0 <= k < i implies spec_contains(
                            self.spec_signatures(),
                            #[trigger] tyv[k],
                        ) && self.spec_trampolines()[spec_index_of(
                            self.spec_signatures(),
                            tyv[k],
                        )] is Some by {
                            lemma_index_of_prefix(
                                snap.spec_signatures(),
                                self.spec_signatures(),
                                tyv[k],
                            );
                        }
                    }
                },
                None => {
                    let body = copy_bytes(&art.trampolines[i]);
                    let ghost snap2 = *self;
                    let addr = match self.arena.allocate_for_function(&body) {
                        Ok(a) => a,
                        Err(_) => {
                            proof {
                                crate::arena::lemma_sim_place_lb(
                                    crate::arena::align_up(cur) + trv[i as int].len(),
                                    items.skip(i + 1),
                                );
                                assert(crate::arena::sim_place(cur, items.skip(i as int))
                                    > usize::MAX);
                                assert(!crate::arena::placement_fits(c0, items));
                            }
                            self.arena.publish();
                            proof {
                                assert(self.spec_trampolines() =~= snap2.spec_trampolines());
                                assert(self.spec_signatures() == snap2.spec_signatures());
                                lemma_engine_preserves_from(pre, *self);
                            }
                            return Err(
                                DeserializeError::Resource(
                                    "failed to allocate memory for trampolines".to_owned(),
                                ),
                            );
                        },
                    };
                    tramp_addrs.push(addr);
                    if !cached {
                        let ghost snap3 = *self;
                        self.trampolines.set(sig, Some(TrampolineEntry { addr, body }));
                        proof {
                            assert(self.spec_trampolines() =~= snap3.spec_trampolines().update(
                                sig as int,
                                Some(addr),
                            ));
                        }
                    }
                    proof {
                        lemma_index_unique(self.spec_signatures(), tyv[i as int], sig as int);
                        assert(self.spec_trampolines()[sig as int] is Some);
                        assert forall|k: int| 0 <= k < i implies spec_contains(
                            self.spec_signatures(),
                            #[trigger] tyv[k],
                        ) && self.spec_trampolines()[spec_index_of(
                            self.spec_signatures(),
                            tyv[k],
                        )] is Some by {
                            lemma_index_of_prefix(
                                snap.spec_signatures(),
                                self.spec_signatures(),
                                tyv[k],
                            );
                        }
                        assert(self.spec_arena().span_bytes(addr as int) == trv[i as int]);
                        assert(self.spec_arena().spec_cursor() == crate::arena::align_up(cur)
                            + trv[i as int].len());
                    }
                },
            }
            i += 1;
        }
        let ghost mid = *self;
        proof {
            assert(items.skip(n_types as int) =~= art@.bodies);
            assert(art@.bodies == art.bodies@.map_values(|b: Vec<u8>| b@));
        }
        let function_addrs = match self.arena.allocate_functions(&art.bodies) {
            Ok(a) => a,
            Err(_) => {
                proof {
                    assert(!crate::arena::placement_fits(
                        mid.spec_arena().spec_cursor(),
                        art@.bodies,
                    ));
                    assert(!crate::arena::placement_fits(c0, items));
                }
                self.arena.publish();
                proof {
                    assert(self.spec_trampolines() =~= mid.spec_trampolines());
                    assert(self.spec_signatures() == mid.spec_signatures());
                    lemma_engine_preserves_from(pre, *self);
                }
                return Err(
                    DeserializeError::Resource(
                        "failed to allocate memory for functions".to_owned(),
                    ),
                );
            },
        };
        self.arena.publish();
        let ghost artv = art@;
        let cm = CompiledModule { artifact: art, function_addrs, trampoline_addrs: tramp_addrs };
        proof {
            assert(self.spec_trampolines() =~= mid.spec_trampolines());
            assert(self.spec_signatures() == mid.spec_signatures());
            lemma_engine_preserves_from(pre, *self);
            assert forall|k: int| 0 <= k < cm@.function_addrs.len() implies self.spec_arena(
            ).is_executable(#[trigger] cm@.function_addrs[k] as int) && self.spec_arena(
            ).span_bytes(cm@.function_addrs[k] as int) == cm@.artifact.bodies[k] by {
                assert(cm@.artifact.bodies[k] == cm.artifact.bodies@[k]@);
            }
            assert forall|k: int| 0 <= k < cm@.trampoline_addrs.len() implies self.spec_arena(
            ).is_executable(#[trigger] cm@.trampoline_addrs[k] as int) && self.spec_arena(
            ).span_bytes(cm@.trampoline_addrs[k] as int) == cm@.artifact.trampolines[k] by {
                assert(cm@.artifact.trampolines[k] == trv[k]);
                assert(mid.spec_arena().span_bytes(tramp_addrs@[k] as int) == trv[k]);
            }
            assert forall|k: int| 0 <= k < cm@.artifact.info.types.len() implies spec_contains(
                self.spec_signatures(),
                #[trigger] cm@.artifact.info.types[k],
            ) && self.spec_trampolines()[spec_index_of(
                self.spec_signatures(),
                cm@.artifact.info.types[k],
            )] is Some by {
                assert(cm@.artifact.info.types[k] == tyv[k]);
            }
        }
        Ok(cm)
    }

    /// Whether the compiled module belongs to this engine: it is
    /// structurally well-formed and every one of its placed addresses is an
    /// executable span of this engine's arena holding exactly the
    /// artifact's bytes.
    pub fn owns_module(&self, cm: &CompiledModule) -> (r: bool)
        requires
            self.wf(),
        ensures
            r == (cm@.wf() && cm@.owned_by(self.spec_arena())),
    {
        if !check_artifact(&cm.artifact) {
            return false;
        }
        if cm.function_addrs.len() != cm.artifact.bodies.len() || cm.trampoline_addrs.len()
            != cm.artifact.trampolines.len() {
            proof {
                assert(cm@.function_addrs.len() == cm.function_addrs@.len());
                assert(cm@.trampoline_addrs.len() == cm.trampoline_addrs@.len());
                assert(cm@.artifact.bodies.len() == cm.artifact.bodies@.len());
                assert(cm@.artifact.trampolines.len() == cm.artifact.trampolines@.len());
            }
            return false;
        }
        let n: usize = cm.function_addrs.len();
        let mut i: usize = 0;
        while i < n
            invariant
                self.wf(),
                n == cm@.function_addrs.len(),
                n == cm.function_addrs@.len(),
                cm@.artifact.bodies.len() == n,
                cm.artifact.bodies@.len() == n,
                0 <= i <= n,
                forall|k: int|
                    0 <= k < i ==> self.spec_arena().is_executable(
                        #[trigger] cm@.function_addrs[k] as int,
                    ) && self.spec_arena().span_bytes(cm@.function_addrs[k] as int)
                        == cm@.artifact.bodies[k],
            decreases n - i,
        {
            proof {
                assert(cm@.function_addrs[i as int] == cm.function_addrs@[i as int]);
                assert(cm@.artifact.bodies[i as int] == cm.artifact.bodies@[i as int]@);
            }
            match self.arena.fetch_executable(cm.function_addrs[i]) {
                None => {
                    return false;
                },
                Some(b) => {
                    if !crate::types::bytes_eq(b.as_slice(), cm.artifact.bodies[i].as_slice()) {
                        return false;
                    }
                },
            }
            i += 1;
        }
        let n: usize = cm.trampoline_addrs.len();
        let mut i: usize = 0;
        while i < n
            invariant
                self.wf(),
                n == cm@.trampoline_addrs.len(),
                n == cm.trampoline_addrs@.len(),
                cm@.artifact.trampolines.len() == n,
                cm.artifact.trampolines@.len() == n,
                0 <= i <= n,
                forall|k: int|
                    0 <= k < cm@.function_addrs.len() ==> self.spec_arena().is_executable(
                        #[trigger] cm@.function_addrs[k] as int,
                    ) && self.spec_arena().span_bytes(cm@.function_addrs[k] as int)
                        == cm@.artifact.bodies[k],
                forall|k: int|
                    0 <= k < i ==> self.spec_arena().is_executable(
                        #[trigger] cm@.trampoline_addrs[k] as int,
                    ) && self.spec_arena().span_bytes(cm@.trampoline_addrs[k] as int)
                        == cm@.artifact.trampolines[k],
            decreases n - i,
        {
            proof {
                assert(cm@.trampoline_addrs[i as int] == cm.trampoline_addrs@[i as int]);
                assert(cm@.artifact.trampolines[i as int] == cm.artifact.trampolines@[i as int]@);
            }
            match self.arena.fetch_executable(cm.trampoline_addrs[i]) {
                None => {
                    return false;
                },
                Some(b) => {
                    if !crate::types::bytes_eq(
                        b.as_slice(),
                        cm.artifact.trampolines[i].as_slice(),
                    ) {
                        return false;
                    }
                },
            }
            i += 1;
        }
        true
    }

    /// Instantiates a compiled module against the caller-supplied import
    /// object: resolves and type-checks every declared import, allocates
    /// the instance-owned storage within the tunables, patches the function
    /// index space, applies the static initialization segments, and runs
    /// the start function if one is declared. A module that does not belong
    /// to this engine is refused with `Link`. Only global values in the
    /// import object can change, and only through a start function.
    pub fn instantiate(&self, cm: &CompiledModule, imports: &mut ImportObject) -> (r: Result<
        crate::instance::Instance,
        InstantiationError,
    >)
        requires
            self.wf(),
        ensures
            crate::interp::imports_preserved(old(imports)@, final(imports)@),
            !(cm@.wf() && cm@.owned_by(self.spec_arena())) ==> (r matches Err(
                InstantiationError::Link(_),
            ) && *final(imports) == *old(imports)),
            (cm@.wf() && cm@.owned_by(self.spec_arena()) && !crate::instance::all_imports_ok(
                cm@.artifact.info,
                old(imports)@,
            )) ==> (r matches Err(InstantiationError::Link(_)) && *final(imports) == *old(
                imports,
            )),
            (cm@.wf() && cm@.owned_by(self.spec_arena()) && crate::instance::all_imports_ok(
                cm@.artifact.info,
                old(imports)@,
            ) && !crate::instance::plans_ok(cm@.artifact.info, self.spec_tunables())) ==> (r
                matches Err(InstantiationError::Resource(_)) && *final(imports) == *old(imports)),
            (cm@.wf() && cm@.owned_by(self.spec_arena()) && crate::instance::all_imports_ok(
                cm@.artifact.info,
                old(imports)@,
            ) && crate::instance::plans_ok(cm@.artifact.info, self.spec_tunables())
                && !crate::instance::segments_ok(cm@.artifact.info)) ==> (r matches Err(
                InstantiationError::Link(_),
            ) && *final(imports) == *old(imports)),
            (cm@.wf() && cm@.owned_by(self.spec_arena()) && crate::instance::all_imports_ok(
                cm@.artifact.info,
                old(imports)@,
            ) && crate::instance::plans_ok(cm@.artifact.info, self.spec_tunables())
                && crate::instance::segments_ok(cm@.artifact.info) && cm@.artifact.info.start
                is None) ==> r is Ok,
            (r matches Err(InstantiationError::Start(_))) ==> cm@.artifact.info.start is Some,
            cm@.artifact.info.start is None ==> *final(imports) == *old(imports),
            (r matches Ok(inst) ==> cm@.wf() && cm@.owned_by(self.spec_arena())
                && crate::instance::instantiate_ok_post(
                cm@,
                old(imports)@,
                self.spec_tunables(),
                inst@,
            )),
            ((cm@.wf() && cm@.owned_by(self.spec_arena()) && crate::instance::all_imports_ok(
                cm@.artifact.info,
                old(imports)@,
            ) && crate::instance::plans_ok(cm@.artifact.info, self.spec_tunables())
                && crate::instance::segments_ok(cm@.artifact.info) && cm@.artifact.info.start
                is Some) ==> {
                &&& (r is Ok || (r matches Err(InstantiationError::Start(_))))
                &&& exists|fs: Seq<crate::interp::RuntimeFunctionV>, gs: Seq<
                    crate::interp::GlobalSlot,
                >|
                    {
                        &&& #[trigger] crate::instance::built_start_state(
                            cm@,
                            old(imports)@,
                            fs,
                            gs,
                        )
                        &&& ({
                            let out = crate::interp::sem_call(
                                self.spec_arena(),
                                fs,
                                crate::interp::SemState { globals: gs, imports: old(imports)@ },
                                cm@.artifact.info.start->Some_0 as int,
                                Seq::<Value>::empty(),
                                crate::interp::DEFAULT_CALL_FUEL as nat,
                            );
                            match r {
                                Ok(inst) => out.result is Ok && inst@.functions == fs
                                    && inst@.globals == out.state.globals && final(imports)@
                                    == out.state.imports,
                                Err(InstantiationError::Start(t)) => out.result == Err::<
                                    Seq<Value>,
                                    crate::Trap,
                                >(t) && final(imports)@ == out.state.imports,
                                _ => false,
                            }
                        })
                    }
            }),
    {
        if !self.owns_module(cm) {
            proof {
                crate::interp::lemma_preserved_refl(Seq::<crate::interp::GlobalSlot>::empty(), imports@);
            }
            return Err(
                InstantiationError::Link(
                    "the compiled module does not belong to this engine".to_owned(),
                ),
            );
        }
        crate::instance::build_instance(&self.arena, &self.tunables, cm, imports)
    }

    /// Calls the exported function under `name` on the given instance. The
    /// call crosses the host/guest boundary, so a trampoline for the
    /// function's signature must be cached (the engine guarantees one after
    /// compiling or deserializing the module). A trap is returned as a
    /// value, never allowed to take the host down; only global values (the
    /// instance's own or the import object's) can change.
    pub fn call_function(
        &self,
        inst: &mut crate::instance::Instance,
        imports: &mut ImportObject,
        name: &str,
        args: Vec<Value>,
    ) -> (r: Result<Vec<Value>, RuntimeError>)
        requires
            self.wf(),
        ensures
            crate::instance::instance_preserved(old(inst)@, final(inst)@),
            crate::interp::imports_preserved(old(imports)@, final(imports)@),
            (crate::instance::find_export(old(inst)@.exports, name.spec_bytes()) is None ==> (r
                matches Err(e) && e == RuntimeError::ExportNotFound)),
            ((crate::instance::find_export(old(inst)@.exports, name.spec_bytes()) matches Some(ix)
                && !(ix is Function)) ==> (r matches Err(e) && e == RuntimeError::NotAFunction)),
            (r matches Ok(vals) ==> {
                &&& crate::instance::find_export(old(inst)@.exports, name.spec_bytes()) matches
                    Some(ExportIndex::Function(k))
                &&& (k as int) < old(inst)@.functions.len()
                &&& crate::types::values_have_types(
                    vals@,
                    old(inst)@.functions[crate::instance::find_export(
                        old(inst)@.exports,
                        name.spec_bytes(),
                    )->Some_0->Function_0 as int].ty.results,
                )
            }),
            ((r matches Err(e) && e == RuntimeError::MissingTrampoline) ==> {
                &&& (crate::instance::find_export(old(inst)@.exports, name.spec_bytes()) matches
                    Some(ExportIndex::Function(_)))
                &&& ({
                    let k = crate::instance::find_export(
                        old(inst)@.exports,
                        name.spec_bytes(),
                    )->Some_0->Function_0;
                    k >= old(inst)@.functions.len() || !(spec_contains(
                        self.spec_signatures(),
                        old(inst)@.functions[k as int].ty,
                    ) && self.spec_trampolines()[spec_index_of(
                        self.spec_signatures(),
                        old(inst)@.functions[k as int].ty,
                    )] is Some)
                })
            }),
            ((crate::instance::find_export(old(inst)@.exports, name.spec_bytes()) matches Some(
                ExportIndex::Function(k),
            ) && (k as int) < old(inst)@.functions.len() && spec_contains(
                self.spec_signatures(),
                old(inst)@.functions[k as int].ty,
            ) && self.spec_trampolines()[spec_index_of(
                self.spec_signatures(),
                old(inst)@.functions[k as int].ty,
            )] is Some) ==> (r matches Ok(_) || (r matches Err(e) && e is Trap))),
            ((r matches Ok(_) || (r matches Err(e) && e is Trap)) ==> {
                let k = crate::instance::find_export(
                    old(inst)@.exports,
                    name.spec_bytes(),
                )->Some_0->Function_0;
                let out = crate::interp::sem_call(
                    self.spec_arena(),
                    old(inst)@.functions,
                    crate::interp::SemState {
                        globals: old(inst)@.globals,
                        imports: old(imports)@,
                    },
                    k as int,
                    args@,
                    crate::interp::DEFAULT_CALL_FUEL as nat,
                );
                &&& (crate::instance::find_export(old(inst)@.exports, name.spec_bytes()) matches
                    Some(ExportIndex::Function(_)))
                &&& out.state.globals == final(inst)@.globals
                &&& out.state.imports == final(imports)@
                &&& (match r {
                    Ok(vals) => out.result == Ok::<Seq<Value>, crate::Trap>(vals@),
                    Err(RuntimeError::Trap(t)) => out.result == Err::<Seq<Value>, crate::Trap>(t),
                    _ => true,
                })
            }),
    {
        proof {
            crate::interp::lemma_preserved_refl(old(inst)@.globals, imports@);
        }
        let k: u32 = match inst.get_export(name.as_bytes()) {
            None => {
                return Err(RuntimeError::ExportNotFound);
            },
            Some(ExportIndex::Function(k)) => k,
            Some(_) => {
                return Err(RuntimeError::NotAFunction);
            },
        };
        let ty: FunctionType = match inst.function_type(k as usize) {
            Some(t) => t.duplicate(),
            None => {
                return Err(RuntimeError::Trap(crate::Trap::BadFunction));
            },
        };
        let sig = match self.signatures.find(&ty) {
            None => {
                return Err(RuntimeError::MissingTrampoline);
            },
            Some(s) => s,
        };
        let has_trampoline = if sig < self.trampolines.len() {
            match &self.trampolines[sig] {
                Some(_) => true,
                None => false,
            }
        } else {
            false
        };
        if !has_trampoline {
            return Err(RuntimeError::MissingTrampoline);
        }
        match inst.invoke_index(&self.arena, imports, k as usize, args) {
            Ok(vals) => Ok(vals),
            Err(t) => Err(RuntimeError::Trap(t)),
        }
    }

    /// Serializes a compiled module: the magic header, then the artifact's
    /// position-independent encoding.
    pub fn serialize(&self, cm: &CompiledModule) -> (r: Result<Vec<u8>, SerializeError>)
        ensures
            (r matches Ok(bytes) && bytes@ == spec_magic() + <SerializableModule as Wire>::wenc(
                cm@.artifact,
            )),
    {
        let mut out = magic_header();
        <SerializableModule as Wire>::enc(&mut out, &cm.artifact);
        Ok(out)
    }
}

/// A builder for engines: holds an optional code-generation capability and
/// optional tunables until `engine` assembles them. Without a capability
/// the built engine is headless.
pub struct JIT<C> {
    compiler_config: Option<C>,
    tunables: Option<Tunables>,
}

impl<C: CodegenCapability> JIT<C> {
    /// Whether a capability was supplied.
    pub closed spec fn spec_has_compiler(&self) -> bool {
        self.compiler_config is Some
    }

    /// The tunables chosen so far, if any.
    pub closed spec fn spec_tunables(&self) -> Option<Tunables> {
        self.tunables
    }

    /// A builder around the given code-generation capability.
    pub fn new(compiler_config: C) -> (r: JIT<C>)
        ensures
            r.spec_has_compiler(),
            r.spec_tunables() is None,
    {
        JIT { compiler_config: Some(compiler_config), tunables: None }
    }

    /// A builder for a headless engine.
    pub fn headless() -> (r: JIT<C>)
        ensures
            !r.spec_has_compiler(),
            r.spec_tunables() is None,
    {
        JIT { compiler_config: None, tunables: None }
    }

    /// Sets the tunables.
    pub fn tunables(self, tunables: Tunables) -> (r: JIT<C>)
        ensures
            r.spec_has_compiler() == self.spec_has_compiler(),
            r.spec_tunables() == Some(tunables),
    {
        JIT { compiler_config: self.compiler_config, tunables: Some(tunables) }
    }

    /// Builds the engine for this configuration: full mode when a
    /// capability was supplied, headless otherwise, with the chosen
    /// tunables or the stock ones.
    pub fn engine(self) -> (r: Engine<C>)
        ensures
            r.wf(),
            r.spec_headless() == !self.spec_has_compiler(),
            r.spec_signatures() == Seq::<FunctionTypeV>::empty(),
            r.spec_trampolines() == Seq::<Option<usize>>::empty(),
            (self.spec_tunables() matches Some(t) ==> r.spec_tunables() == t),
            (self.spec_tunables() is None ==> r.spec_tunables() == (Tunables {
                memory_pages_limit: 65536,
                table_elements_limit: 100000,
                guard_pages: 2,
            })),
    {
        let tunables = match self.tunables {
            Some(t) => t,
            None => Tunables::default(),
        };
        match self.compiler_config {
            Some(c) => Engine::new(c, tunables),
            None => Engine::headless(tunables),
        }
    }
}

/// The shape of one trampoline-generation job: a generated body, or
/// nothing where a cached trampoline already serves the signature.
pub open spec fn job_view(o: Option<Vec<u8>>) -> Option<Seq<u8>> {
    match o {
        None => None,
        Some(b) => Some(b@),
    }
}

/// The bodies a job list will actually place: the generated ones, in
/// order.
pub open spec fn some_items(jobs: Seq<Option<Seq<u8>>>) -> Seq<Seq<u8>>
    decreases jobs.len(),
{
    if jobs.len() == 0 {
        Seq::<Seq<u8>>::empty()
    } else {
        match jobs.first() {
            Some(b) => seq![b] + some_items(jobs.drop_first()),
            None => some_items(jobs.drop_first()),
        }
    }
}

/// What every well-formed engine guarantees of its registry and cache:
/// the registered types are pairwise distinct and the cache holds one slot
/// per registered signature — the hypotheses under which the
/// canonicalization and trampoline-cache laws apply.
pub proof fn lemma_engine_wf_facts<C: CodegenCapability>(e: &Engine<C>)
    requires
        e.wf(),
    ensures
        crate::registry::distinct_types(e.spec_signatures()),
        e.spec_trampolines().len() == e.spec_signatures().len(),
{
}

/// Whether the bytes begin with the engine family's magic header.
pub open spec fn spec_is_deserializable(s: Seq<u8>) -> bool {
    s.len() >= spec_magic().len() && s.subrange(0, spec_magic().len() as int) == spec_magic()
}

/// An untouched engine preserves itself.
proof fn lemma_engine_preserves_refl<C: CodegenCapability>(e: Engine<C>)
    ensures
        engine_preserves(e, e),
{
    assert(e.spec_signatures().subrange(0, e.spec_signatures().len() as int) =~= e.spec_signatures());
    assert(e.spec_arena().spec_spans().subrange(0, e.spec_arena().spec_spans().len() as int)
        =~= e.spec_arena().spec_spans());
}

/// Engine preservation follows from prefix-stability of the registry, the
/// cache and the arena, once everything placed is published.
proof fn lemma_engine_preserves_from<C: CodegenCapability>(pre: Engine<C>, cur: Engine<C>)
    requires
        pre.wf(),
        pre.spec_signatures().is_prefix_of(cur.spec_signatures()),
        pre.spec_trampolines().len() <= cur.spec_trampolines().len(),
        forall|i: int|
            0 <= i < pre.spec_trampolines().len() && pre.spec_trampolines()[i] is Some
                ==> #[trigger] cur.spec_trampolines()[i] == pre.spec_trampolines()[i],
        pre.spec_arena().spec_spans().is_prefix_of(cur.spec_arena().spec_spans()),
        cur.spec_arena().spec_published() >= pre.spec_arena().spec_spans().len(),
        cur.spec_headless() == pre.spec_headless(),
        cur.spec_tunables() == pre.spec_tunables(),
    ensures
        engine_preserves(pre, cur),
{
    let ps = pre.spec_arena().spec_spans();
    let cs = cur.spec_arena().spec_spans();
    assert forall|a: int| pre.spec_arena().is_executable(a) implies cur.spec_arena().is_executable(
        a,
    ) && cur.spec_arena().span_bytes(a) == pre.spec_arena().span_bytes(a) by {
        assert(a < ps.len());
        assert(cs.subrange(0, ps.len() as int)[a] == cs[a]);
        assert(cs[a] == ps[a]);
    }
}

/// Whether the bytes after the magic header decode into one whole,
/// structurally well-formed artifact.
pub open spec fn spec_artifact_decodes(s: Seq<u8>) -> bool {
    match <SerializableModule as Wire>::wdec(s, spec_magic().len() as int) {
        None => false,
        Some((a, p)) => p == s.len() && a.wf(),
    }
}

/// Every body a decoded artifact could ask the arena to place: its
/// trampolines, then its function bodies.
pub open spec fn spec_decoded_items(s: Seq<u8>) -> Seq<Seq<u8>> {
    let a = <SerializableModule as Wire>::wdec(s, spec_magic().len() as int)->Some_0.0;
    a.trampolines + a.bodies
}

/// Whether the engine knows every signature of the module's type table and
/// holds some trampoline under each one's canonical index.
pub open spec fn module_signatures_known<C: CodegenCapability>(
    e: Engine<C>,
    info: crate::types::ModuleInfoV,
) -> bool {
    forall|i: int|
        0 <= i < info.types.len() ==> {
            &&& spec_contains(e.spec_signatures(), #[trigger] info.types[i])
            &&& e.spec_trampolines()[spec_index_of(e.spec_signatures(), info.types[i])] is Some
        }
}

/// Whether the engine knows every signature of the compiled module's type
/// table and caches, under each signature's canonical index, exactly the
/// trampoline address the module carries.
pub open spec fn module_trampolines_cached<C: CodegenCapability>(
    e: Engine<C>,
    cm: CompiledModuleV,
) -> bool {
    forall|i: int|
        0 <= i < cm.artifact.info.types.len() ==> {
            &&& spec_contains(e.spec_signatures(), #[trigger] cm.artifact.info.types[i])
            &&& e.spec_trampolines()[spec_index_of(
                e.spec_signatures(),
                cm.artifact.info.types[i],
            )] == Some(cm.trampoline_addrs[i])
        }
}

/// Trampoline cache: when two modules, compiled one after the other on one
/// engine (with any engine operations in between), share a structurally
/// equal function type, the second compiled module carries the very
/// trampoline address the first one got — the signature's trampoline was
/// allocated once and every later module reuses it.
pub proof fn law_trampoline_cache<C: CodegenCapability>(
    e1: Engine<C>,
    e2: Engine<C>,
    cm1: CompiledModuleV,
    cm2: CompiledModuleV,
    i: int,
    j: int,
)
    requires
        crate::registry::distinct_types(e1.spec_signatures()),
        crate::registry::distinct_types(e2.spec_signatures()),
        e1.spec_trampolines().len() == e1.spec_signatures().len(),
        module_trampolines_cached(e1, cm1),
        engine_preserves(e1, e2),
        module_trampolines_cached(e2, cm2),
        0 <= i < cm1.artifact.info.types.len(),
        0 <= j < cm2.artifact.info.types.len(),
        cm1.artifact.info.types[i] == cm2.artifact.info.types[j],
    ensures
        cm2.trampoline_addrs[j] == cm1.trampoline_addrs[i],
{
    let ty = cm1.artifact.info.types[i];
    let idx = spec_index_of(e1.spec_signatures(), ty);
    assert(e1.spec_trampolines()[idx] == Some(cm1.trampoline_addrs[i]));
    lemma_index_of_prefix(e1.spec_signatures(), e2.spec_signatures(), ty);
    assert(spec_index_of(e2.spec_signatures(), ty) == idx);
    assert(0 <= idx < e1.spec_trampolines().len()) by {
        assert(0 <= idx < e1.spec_signatures().len());
    }
    assert(e2.spec_trampolines()[idx] == Some(cm1.trampoline_addrs[i]));
    assert(e2.spec_trampolines()[idx] == Some(cm2.trampoline_addrs[j]));
}

/// Round-trip: the bytes `serialize` writes for a compiled module's
/// artifact begin with the magic header and decode, whole, back into
/// exactly that artifact — so `deserialize(serialize(m))` reconstructs a
/// compiled module with the very same artifact, and an instance built from
/// it runs the very same bodies.
pub proof fn law_serialization_round_trip(a: crate::module::SerializableModuleV)
    requires
        a.wf(),
        <SerializableModule as Wire>::wvalid(a),
    ensures
        spec_is_deserializable(spec_magic() + <SerializableModule as Wire>::wenc(a)),
        spec_artifact_decodes(spec_magic() + <SerializableModule as Wire>::wenc(a)),
        <SerializableModule as Wire>::wdec(
            spec_magic() + <SerializableModule as Wire>::wenc(a),
            spec_magic().len() as int,
        ) == Some(
            (a, (spec_magic() + <SerializableModule as Wire>::wenc(a)).len() as int),
        ),
{
    let enc = <SerializableModule as Wire>::wenc(a);
    let s = spec_magic() + enc;
    assert(s.subrange(0, spec_magic().len() as int) =~= spec_magic());
    assert(s.subrange(
        spec_magic().len() as int,
        spec_magic().len() + enc.len() as int,
    ) =~= enc);
    <SerializableModule as Wire>::wrt(s, spec_magic().len() as int, a);
}

/// What every engine operation preserves: registered signatures keep their
/// indices, a cached trampoline is never replaced or dropped, and every
/// published span keeps its bytes and stays executable.
pub open spec fn engine_preserves<C: CodegenCapability>(pre: Engine<C>, post: Engine<C>) -> bool {
    &&& pre.spec_signatures().is_prefix_of(post.spec_signatures())
    &&& pre.spec_trampolines().len() <= post.spec_trampolines().len()
    &&& forall|i: int|
        0 <= i < pre.spec_trampolines().len() && pre.spec_trampolines()[i] is Some
            ==> #[trigger] post.spec_trampolines()[i] == pre.spec_trampolines()[i]
    &&& forall|a: int|
        pre.spec_arena().is_executable(a) ==> post.spec_arena().is_executable(a)
    &&& forall|a: int|
        pre.spec_arena().is_executable(a) ==> post.spec_arena().span_bytes(a) == pre.spec_arena(
        ).span_bytes(a)
    &&& post.spec_headless() == pre.spec_headless()
    &&& post.spec_tunables() == pre.spec_tunables()
}

} // verus!
