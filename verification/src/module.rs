//! Compiled artifacts: the serializable form of a compiled module and the
//! in-engine compiled module with its placed code addresses.

use vstd::prelude::*;

verus! {

use crate::arena::CodeMemoryArena;
use crate::codec::{Wire, wire_enc_list, wire_dec_list, wviews, lemma_subrange_split,
    lemma_wire_dec_list};
use crate::types::{ExportDecl, ImportDecl, ModuleInfo, ModuleInfoV, check_module_wf};

/// The mathematical shape of a serializable compiled module.
#[verifier::ext_equal]
pub ghost struct SerializableModuleV {
    pub info: ModuleInfoV,
    pub bodies: Seq<Seq<u8>>,
    pub trampolines: Seq<Seq<u8>>,
}

/// Everything a compiled module persists: the module description, one
/// compiled body per local function, and one trampoline body per entry of
/// the module's type table. Position independent: addresses are
/// reconstructed by placing the bodies into a fresh arena at deserialize
/// time.
#[derive(Debug)]
pub struct SerializableModule {
    pub info: ModuleInfo,
    pub bodies: Vec<Vec<u8>>,
    pub trampolines: Vec<Vec<u8>>,
}

impl View for SerializableModule {
    type V = SerializableModuleV;

    open spec fn view(&self) -> SerializableModuleV {
        SerializableModuleV {
            info: self.info@,
            bodies: self.bodies@.map_values(|b: Vec<u8>| b@),
            trampolines: self.trampolines@.map_values(|b: Vec<u8>| b@),
        }
    }
}

impl SerializableModuleV {
    /// Structural well-formedness: the description is well-formed, there is
    /// one body per local function and one trampoline per type.
    pub open spec fn wf(self) -> bool {
        &&& self.info.wf()
        &&& self.bodies.len() == self.info.functions.len()
        &&& self.trampolines.len() == self.info.types.len()
    }
}

impl Wire for SerializableModule {
    type VV = SerializableModuleV;

    open spec fn wview(&self) -> SerializableModuleV {
        self@
    }

    open spec fn wenc(v: SerializableModuleV) -> Seq<u8> {
        <ModuleInfo as Wire>::wenc(v.info) + (wire_enc_list::<Vec<u8>>(v.bodies)
            + wire_enc_list::<Vec<u8>>(v.trampolines))
    }

    open spec fn wdec(s: Seq<u8>, pos: int) -> Option<(SerializableModuleV, int)> {
        match <ModuleInfo as Wire>::wdec(s, pos) {
            None => None,
            Some((info, p)) => match wire_dec_list::<Vec<u8>>(s, p) {
                None => None,
                Some((bodies, q)) => match wire_dec_list::<Vec<u8>>(s, q) {
                    None => None,
                    Some((trampolines, r)) => Some(
                        (SerializableModuleV { info, bodies, trampolines }, r),
                    ),
                },
            },
        }
    }

    open spec fn wvalid(v: SerializableModuleV) -> bool {
        &&& <ModuleInfo as Wire>::wvalid(v.info)
        &&& v.bodies.len() <= u64::MAX
        &&& forall|i: int| 0 <= i < v.bodies.len() ==> (#[trigger] v.bodies[i]).len() <= u64::MAX
        &&& v.trampolines.len() <= u64::MAX
        &&& forall|i: int|
            0 <= i < v.trampolines.len() ==> (#[trigger] v.trampolines[i]).len() <= u64::MAX
    }

    fn enc(out: &mut Vec<u8>, x: &SerializableModule)
        ensures
            final(out)@ == old(out)@ + Self::wenc(x.wview()),
    {
        <ModuleInfo as Wire>::enc(out, &x.info);
        wire_enc_vec_bytes(out, &x.bodies);
        wire_enc_vec_bytes(out, &x.trampolines);
        proof {
            assert(wviews::<Vec<u8>>(x.bodies@) =~= x@.bodies);
            assert(wviews::<Vec<u8>>(x.trampolines@) =~= x@.trampolines);
            assert(final(out)@ =~= old(out)@ + Self::wenc(x@));
        }
    }

    fn dec(s: &Vec<u8>, pos: usize) -> (r: Option<(SerializableModule, usize)>)
        ensures
            (match r {
                None => Self::wdec(s@, pos as int) is None,
                Some((x, p)) => Self::wdec(s@, pos as int) == Some((x.wview(), p as int)),
            }),
    {
        let (info, p) = match <ModuleInfo as Wire>::dec(s, pos) {
            None => {
                return None;
            },
            Some(x) => x,
        };
        let (bodies, q) = match crate::codec::wire_dec_vec::<Vec<u8>>(s, p) {
            None => {
                return None;
            },
            Some(x) => x,
        };
        let (trampolines, r) = match crate::codec::wire_dec_vec::<Vec<u8>>(s, q) {
            None => {
                return None;
            },
            Some(x) => x,
        };
        let m = SerializableModule { info, bodies, trampolines };
        proof {
            assert(wviews::<Vec<u8>>(m.bodies@) =~= m@.bodies);
            assert(wviews::<Vec<u8>>(m.trampolines@) =~= m@.trampolines);
        }
        Some((m, r))
    }

    #[verifier::rlimit(80)]
    proof fn wrt(s: Seq<u8>, pos: int, v: SerializableModuleV)
    {
        let a = <ModuleInfo as Wire>::wenc(v.info);
        let b = wire_enc_list::<Vec<u8>>(v.bodies);
        let c = wire_enc_list::<Vec<u8>>(v.trampolines);
        lemma_subrange_split(s, pos, a, b + c);
        <ModuleInfo as Wire>::wrt(s, pos, v.info);
        lemma_subrange_split(s, pos + a.len(), b, c);
        lemma_wire_dec_list::<Vec<u8>>(s, pos + a.len(), v.bodies);
        lemma_wire_dec_list::<Vec<u8>>(s, pos + a.len() + b.len(), v.trampolines);
    }
}

/// Appends the encoding of a vector of byte strings.
fn wire_enc_vec_bytes(out: &mut Vec<u8>, items: &Vec<Vec<u8>>)
    ensures
        final(out)@ == old(out)@ + wire_enc_list::<Vec<u8>>(wviews(items@)),
{
    crate::codec::wire_enc_vec::<Vec<u8>>(out, items);
}

/// Whether the artifact may be placed and instantiated: its description is
/// structurally well-formed and it carries one body per local function and
/// one trampoline per type. A `true` answer also puts the artifact within
/// the wire format's limits.
pub fn check_artifact(art: &SerializableModule) -> (r: bool)
    ensures
        r == art@.wf(),
        r ==> <SerializableModule as Wire>::wvalid(art@),
{
    proof {
        assert(art@.bodies.len() == art.bodies@.len());
        assert(art@.trampolines.len() == art.trampolines@.len());
    }
    let wf = check_module_wf(&art.info) && art.bodies.len() == art.info.functions.len()
        && art.trampolines.len() == art.info.types.len();
    if !wf {
        return false;
    }
    proof {
        learn_module_wire_valid(&art.info);
    }
    let n: usize = art.bodies.len();
    let mut i: usize = 0;
    while i < n
        invariant
            n == art@.bodies.len(),
            0 <= i <= n,
            forall|k: int| 0 <= k < i ==> (#[trigger] art@.bodies[k]).len() <= u64::MAX,
        decreases n - i,
    {
        let l: usize = art.bodies[i].len();
        proof {
            assert(art@.bodies[i as int].len() == l);
        }
        i += 1;
    }
    let n: usize = art.trampolines.len();
    let mut i: usize = 0;
    while i < n
        invariant
            n == art@.trampolines.len(),
            0 <= i <= n,
            forall|k: int| 0 <= k < i ==> (#[trigger] art@.trampolines[k]).len() <= u64::MAX,
        decreases n - i,
    {
        let l: usize = art.trampolines[i].len();
        proof {
            assert(art@.trampolines[i as int].len() == l);
        }
        i += 1;
    }
    true
}

/// Walks the description so that every wire-format bound on it becomes
/// known: each of its vectors exists in memory, so each length fits.
proof fn learn_module_wire_valid(info: &ModuleInfo)
    ensures
        <ModuleInfo as Wire>::wvalid(info@),
{
    assert(info@.types.len() == info.types.len());
    assert(info@.imports.len() == info.imports.len());
    assert(info@.functions.len() == info.functions.len());
    assert(info@.exports.len() == info.exports.len());
    assert(info@.globals.len() == info.globals.len());
    assert(info@.memories.len() == info.memories.len());
    assert(info@.tables.len() == info.tables.len());
    assert(info@.elements.len() == info.elements.len());
    assert(info@.data.len() == info.data.len());
    assert forall|i: int| 0 <= i < info@.types.len() implies <crate::types::FunctionType as Wire>::wvalid(
        #[trigger] info@.types[i],
    ) by {
        let ft = info.types@[i];
        assert(info@.types[i] == ft@);
        assert(ft@.params.len() == ft.params.len());
        assert(ft@.results.len() == ft.results.len());
    }
    assert forall|i: int| 0 <= i < info@.imports.len() implies <ImportDecl as Wire>::wvalid(
        #[trigger] info@.imports[i],
    ) by {
        let d = info.imports@[i];
        assert(info@.imports[i] == d@);
        assert(d@.module.len() == d.module.len());
        assert(d@.field.len() == d.field.len());
    }
    assert forall|i: int| 0 <= i < info@.exports.len() implies <ExportDecl as Wire>::wvalid(
        #[trigger] info@.exports[i],
    ) by {
        let d = info.exports@[i];
        assert(info@.exports[i] == d@);
        assert(d@.name.len() == d.name.len());
    }
    assert forall|i: int| 0 <= i < info@.elements.len() implies <crate::types::ElemSegment as Wire>::wvalid(
        #[trigger] info@.elements[i],
    ) by {
        let d = info.elements@[i];
        assert(info@.elements[i] == d@);
        assert(d@.entries.len() == d.entries.len());
    }
    assert forall|i: int| 0 <= i < info@.data.len() implies <crate::types::DataSegment as Wire>::wvalid(
        #[trigger] info@.data[i],
    ) by {
        let d = info.data@[i];
        assert(info@.data[i] == d@);
        assert(d@.bytes.len() == d.bytes.len());
    }
}

/// The mathematical shape of a compiled module.
#[verifier::ext_equal]
pub ghost struct CompiledModuleV {
    pub artifact: SerializableModuleV,
    pub function_addrs: Seq<usize>,
    pub trampoline_addrs: Seq<usize>,
}

/// The compiled artifact tied to one module: the serializable artifact
/// itself, and for each local function and each type-table entry the arena
/// address its body was placed at. Immutable after creation; may be
/// instantiated many times.
#[derive(Debug)]
pub struct CompiledModule {
    pub artifact: SerializableModule,
    pub function_addrs: Vec<usize>,
    pub trampoline_addrs: Vec<usize>,
}

impl View for CompiledModule {
    type V = CompiledModuleV;

    open spec fn view(&self) -> CompiledModuleV {
        CompiledModuleV {
            artifact: self.artifact@,
            function_addrs: self.function_addrs@,
            trampoline_addrs: self.trampoline_addrs@,
        }
    }
}

impl CompiledModuleV {
    /// Structural well-formedness: a well-formed artifact with one placed
    /// address per local function body and per trampoline.
    pub open spec fn wf(self) -> bool {
        &&& self.artifact.wf()
        &&& self.function_addrs.len() == self.artifact.bodies.len()
        &&& self.trampoline_addrs.len() == self.artifact.trampolines.len()
    }

    /// Whether every placed address is executable in `arena` and holds
    /// exactly the artifact's bytes: the module belongs to the engine that
    /// owns that arena and its code was published.
    pub open spec fn owned_by(self, arena: CodeMemoryArena) -> bool {
        &&& forall|i: int|
            0 <= i < self.function_addrs.len() ==> arena.is_executable(
                #[trigger] self.function_addrs[i] as int,
            )
        &&& forall|i: int|
            0 <= i < self.function_addrs.len() ==> arena.span_bytes(
                #[trigger] self.function_addrs[i] as int,
            ) == self.artifact.bodies[i]
        &&& forall|i: int|
            0 <= i < self.trampoline_addrs.len() ==> arena.is_executable(
                #[trigger] self.trampoline_addrs[i] as int,
            )
        &&& forall|i: int|
            0 <= i < self.trampoline_addrs.len() ==> arena.span_bytes(
                #[trigger] self.trampoline_addrs[i] as int,
            ) == self.artifact.trampolines[i]
    }
}

impl CompiledModule {
    /// The module's export declarations, in declaration order.
    pub fn exports(&self) -> (r: &Vec<ExportDecl>)
        ensures
            r@.map_values(|e: ExportDecl| e@) == self@.artifact.info.exports,
    {
        &self.artifact.info.exports
    }

    /// The module's import declarations, in declaration order.
    pub fn imports(&self) -> (r: &Vec<ImportDecl>)
        ensures
            r@.map_values(|i: ImportDecl| i@) == self@.artifact.info.imports,
    {
        &self.artifact.info.imports
    }
}

} // verus!
