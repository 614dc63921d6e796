//! The data model behind the engine's C-style embedding interface: import
//! entries held as plain values, batch extension of an import object,
//! iteration over its functions, and import descriptors. The raw-pointer
//! layer that hands these across a C boundary lives outside the verified
//! library; everything here is plain, checked logic.

use vstd::prelude::*;

verus! {

use crate::imports::{Extern, ExternV, ImportObject, spec_resolve};
use crate::module::CompiledModule;
use crate::types::{ExternType, ImportDecl, Name, ValType, copy_bytes, copy_vec};

/// One import binding, as plain values: a namespace name, a field name,
/// and the definition bound to them.
#[allow(non_camel_case_types)]
#[derive(Debug)]
pub struct wasmer_import_t {
    pub module_name: Name,
    pub import_name: Name,
    pub value: Extern,
}

impl View for wasmer_import_t {
    type V = (Seq<u8>, Seq<u8>, ExternV);

    open spec fn view(&self) -> (Seq<u8>, Seq<u8>, ExternV) {
        (self.module_name@, self.import_name@, self.value@)
    }
}

/// What a batch of import bindings says about `(m, f)`: the value of the
/// last binding for that pair, if the batch holds one.
pub open spec fn batch_resolve(
    batch: Seq<(Seq<u8>, Seq<u8>, ExternV)>,
    m: Seq<u8>,
    f: Seq<u8>,
) -> Option<ExternV>
    decreases batch.len(),
{
    if batch.len() == 0 {
        None
    } else if batch.last().0 == m && batch.last().1 == f {
        Some(batch.last().2)
    } else {
        batch_resolve(batch.drop_last(), m, f)
    }
}

/// An import object handle for the embedding interface.
#[allow(non_camel_case_types)]
#[derive(Debug)]
pub struct wasmer_import_object_t {
    pub inner: ImportObject,
}

impl wasmer_import_object_t {
    /// Creates an empty import object.
    pub fn new() -> (r: wasmer_import_object_t)
        ensures
            r.inner@ =~= Seq::<(Seq<u8>, crate::imports::NamespaceV)>::empty(),
    {
        wasmer_import_object_t { inner: ImportObject::new() }
    }

    /// Extends the import object with a batch of bindings. Every pair the
    /// batch binds now resolves to its last binding in the batch, taking
    /// precedence over anything registered before; every other pair
    /// resolves exactly as before.
    pub fn extend(&mut self, imports: Vec<wasmer_import_t>)
        ensures
            forall|m: Seq<u8>, f: Seq<u8>|
                #![trigger spec_resolve(final(self).inner@, m, f)]
                spec_resolve(final(self).inner@, m, f) == (match batch_resolve(
                    imports@.map_values(|x: wasmer_import_t| x@),
                    m,
                    f,
                ) {
                    Some(v) => Some(v),
                    None => spec_resolve(old(self).inner@, m, f),
                }),
    {
        let ghost batch = imports@.map_values(|x: wasmer_import_t| x@);
        let n: usize = imports.len();
        let mut rest = imports;
        let mut k: usize = 0;
        proof {
            assert(batch.take(0) =~= Seq::<(Seq<u8>, Seq<u8>, ExternV)>::empty());
        }
        while k < n
            invariant
                n == batch.len(),
                0 <= k <= n,
                rest@.len() == n - k,
                forall|j: int| 0 <= j < n - k ==> (#[trigger] rest@[j])@ == batch[k + j],
                forall|m: Seq<u8>, f: Seq<u8>|
                    #![trigger spec_resolve(self.inner@, m, f)]
                    spec_resolve(self.inner@, m, f) == (match batch_resolve(
                        batch.take(k as int),
                        m,
                        f,
                    ) {
                        Some(v) => Some(v),
                        None => spec_resolve(old(self).inner@, m, f),
                    }),
            decreases n - k,
        {
            let imp = rest.remove(0);
            let ghost entry = batch[k as int];
            let ghost pre = self.inner@;
            self.inner.insert_entry(imp.module_name, imp.import_name, imp.value);
            proof {
                assert(batch.take(k + 1).drop_last() =~= batch.take(k as int));
                assert(batch.take(k + 1).last() == entry);
                assert forall|m: Seq<u8>, f: Seq<u8>|
                    true implies #[trigger] spec_resolve(self.inner@, m, f) == (match batch_resolve(
                    batch.take(k + 1),
                    m,
                    f,
                ) {
                    Some(v) => Some(v),
                    None => spec_resolve(old(self).inner@, m, f),
                }) by {
                    if m == entry.0 && f == entry.1 {
                        assert(spec_resolve(self.inner@, m, f) == Some(entry.2));
                    } else {
                        assert(spec_resolve(self.inner@, m, f) == spec_resolve(pre, m, f));
                    }
                }
                assert forall|j: int| 0 <= j < n - (k + 1) implies (#[trigger] rest@[j])@ == batch[
                    k + 1 + j
                ] by {}
            }
            k += 1;
        }
        proof {
            assert(batch.take(n as int) =~= batch);
        }
    }
}

/// An iterator over the function bindings of an import object, in
/// registration order.
#[allow(non_camel_case_types)]
#[derive(Debug)]
pub struct wasmer_import_object_iter_t {
    items: Vec<wasmer_import_t>,
    pos: usize,
}

impl wasmer_import_object_iter_t {
    /// How the iterator stands: what it yields, and how much was taken.
    pub closed spec fn spec_items(&self) -> Seq<(Seq<u8>, Seq<u8>, ExternV)> {
        self.items@.map_values(|x: wasmer_import_t| x@)
    }

    /// How many bindings were already yielded.
    pub closed spec fn spec_pos(&self) -> int {
        self.pos as int
    }

    /// Whether further calls to `next` will yield nothing new.
    pub fn at_end(&self) -> (r: bool)
        ensures
            r == (self.spec_pos() >= self.spec_items().len()),
    {
        self.pos >= self.items.len()
    }

    /// The next function binding, if any is left.
    pub fn next(&mut self) -> (r: Option<wasmer_import_t>)
        ensures
            final(self).spec_items() == old(self).spec_items(),
            match r {
                Some(imp) => {
                    &&& old(self).spec_pos() < old(self).spec_items().len()
                    &&& imp@ == old(self).spec_items()[old(self).spec_pos()]
                    &&& final(self).spec_pos() == old(self).spec_pos() + 1
                },
                None => {
                    &&& old(self).spec_pos() >= old(self).spec_items().len()
                    &&& final(self).spec_pos() == old(self).spec_pos()
                },
            },
    {
        if self.pos < self.items.len() {
            proof {
                assert(self.spec_items()[self.pos as int] == self.items@[self.pos as int]@);
            }
            let item = &self.items[self.pos];
            let copy = wasmer_import_t {
                module_name: copy_bytes(&item.module_name),
                import_name: copy_bytes(&item.import_name),
                value: item.value.duplicate(),
            };
            self.pos = self.pos + 1;
            Some(copy)
        } else {
            None
        }
    }
}

/// The function bindings in one namespace, in registration order.
pub open spec fn functions_of_namespace(
    name: Seq<u8>,
    ns: crate::imports::NamespaceV,
) -> Seq<(Seq<u8>, Seq<u8>, ExternV)>
    decreases ns.len(),
{
    if ns.len() == 0 {
        Seq::<(Seq<u8>, Seq<u8>, ExternV)>::empty()
    } else {
        (if ns.first().1 is Function {
            seq![(name, ns.first().0, ns.first().1)]
        } else {
            Seq::<(Seq<u8>, Seq<u8>, ExternV)>::empty()
        }) + functions_of_namespace(name, ns.drop_first())
    }
}

/// The function bindings of an import object, namespace by namespace and
/// entry by entry, in registration order.
pub open spec fn functions_of(io: crate::imports::ImportObjectV) -> Seq<
    (Seq<u8>, Seq<u8>, ExternV),
>
    decreases io.len(),
{
    if io.len() == 0 {
        Seq::<(Seq<u8>, Seq<u8>, ExternV)>::empty()
    } else {
        functions_of_namespace(io.first().0, io.first().1) + functions_of(io.drop_first())
    }
}

/// An iterator over exactly the function bindings of the import object,
/// with their namespace and field names, in registration order.
pub fn wasmer_import_object_iterate_functions(io: &wasmer_import_object_t) -> (r:
    wasmer_import_object_iter_t)
    ensures
        r.spec_pos() == 0,
        r.spec_items() == functions_of(io.inner@),
        forall|k: int|
            0 <= k < r.spec_items().len() ==> (#[trigger] r.spec_items()[k]).2 is Function,
{
    let ghost iov = io.inner@;
    let mut items: Vec<wasmer_import_t> = Vec::new();
    let n: usize = io.inner.len();
    let mut ni: usize = 0;
    proof {
        assert(iov.skip(0) =~= iov);
    }
    while ni < n
        invariant
            iov == io.inner@,
            n == iov.len(),
            0 <= ni <= n,
            items@.map_values(|x: wasmer_import_t| x@) + functions_of(iov.skip(ni as int))
                =~= functions_of(iov),
        decreases n - ni,
    {
        let ghost nsname = iov[ni as int].0;
        let ghost nsv = iov[ni as int].1;
        proof {
            assert(iov.skip(ni as int).first() == iov[ni as int]);
            assert(iov.skip(ni as int).drop_first() =~= iov.skip(ni + 1));
            assert(nsv.skip(0) =~= nsv);
        }
        let m: usize = io.inner.entry_count(ni);
        let mut ei: usize = 0;
        while ei < m
            invariant
                iov == io.inner@,
                n == iov.len(),
                0 <= ni < n,
                nsname == iov[ni as int].0,
                nsv == iov[ni as int].1,
                m == nsv.len(),
                0 <= ei <= m,
                items@.map_values(|x: wasmer_import_t| x@) + functions_of_namespace(
                    nsname,
                    nsv.skip(ei as int),
                ) + functions_of(iov.skip(ni + 1)) =~= functions_of(iov),
            decreases m - ei,
        {
            proof {
                assert(nsv.skip(ei as int).first() == nsv[ei as int]);
                assert(nsv.skip(ei as int).drop_first() =~= nsv.skip(ei + 1));
            }
            let is_function = match io.inner.extern_at(ni, ei) {
                Some(Extern::Function(_)) => true,
                _ => false,
            };
            if is_function {
                let module_name = match io.inner.namespace_name(ni) {
                    Some(nm) => copy_bytes(nm),
                    None => Vec::new(),
                };
                let import_name = match io.inner.entry_name(ni, ei) {
                    Some(nm) => copy_bytes(nm),
                    None => Vec::new(),
                };
                let value = match io.inner.extern_at(ni, ei) {
                    Some(x) => x.duplicate(),
                    None => {
                        proof {
                            assert(false);
                        }
                        return wasmer_import_object_iter_t { items: Vec::new(), pos: 0 };
                    },
                };
                let ghost before = items@;
                items.push(wasmer_import_t { module_name, import_name, value });
                proof {
                    assert(items@.map_values(|x: wasmer_import_t| x@) =~= before.map_values(
                        |x: wasmer_import_t| x@,
                    ).push((nsname, nsv[ei as int].0, nsv[ei as int].1)));
                }
            }
            proof {
                assert(items@.map_values(|x: wasmer_import_t| x@) + functions_of_namespace(
                    nsname,
                    nsv.skip(ei + 1),
                ) + functions_of(iov.skip(ni + 1)) =~= functions_of(iov));
            }
            ei += 1;
        }
        proof {
            assert(nsv.skip(m as int) =~= Seq::<(Seq<u8>, ExternV)>::empty());
            assert(items@.map_values(|x: wasmer_import_t| x@) + functions_of(iov.skip(ni + 1))
                =~= functions_of(iov));
        }
        ni += 1;
    }
    proof {
        assert(iov.skip(n as int) =~= Seq::<(Seq<u8>, crate::imports::NamespaceV)>::empty());
        assert(items@.map_values(|x: wasmer_import_t| x@) =~= functions_of(iov));
        lemma_functions_of_all_functions(iov);
    }
    wasmer_import_object_iter_t { items, pos: 0 }
}

/// Every binding the function iterator yields is a function.
proof fn lemma_functions_of_namespace_all(name: Seq<u8>, ns: crate::imports::NamespaceV)
    ensures
        forall|k: int|
            0 <= k < functions_of_namespace(name, ns).len() ==> (
            #[trigger] functions_of_namespace(name, ns)[k]).2 is Function,
    decreases ns.len(),
{
    if ns.len() > 0 {
        lemma_functions_of_namespace_all(name, ns.drop_first());
    }
}

/// Every binding the function iterator yields is a function.
proof fn lemma_functions_of_all_functions(io: crate::imports::ImportObjectV)
    ensures
        forall|k: int|
            0 <= k < functions_of(io).len() ==> (#[trigger] functions_of(io)[k]).2 is Function,
    decreases io.len(),
{
    if io.len() > 0 {
        lemma_functions_of_namespace_all(io.first().0, io.first().1);
        lemma_functions_of_all_functions(io.drop_first());
    }
}

/// A host function handle for the embedding interface.
#[allow(non_camel_case_types)]
#[derive(Debug)]
pub struct wasmer_import_func_t {
    pub inner: crate::imports::HostFunction,
}

impl wasmer_import_func_t {
    /// How many parameters the function takes.
    pub fn params_arity(&self) -> (n: usize)
        ensures
            n == self.inner@.ty.params.len(),
    {
        self.inner.ty.params_arity()
    }

    /// How many results the function returns.
    pub fn returns_arity(&self) -> (n: usize)
        ensures
            n == self.inner@.ty.results.len(),
    {
        self.inner.ty.returns_arity()
    }

    /// The parameter types, as a fresh vector.
    pub fn params(&self) -> (r: Vec<ValType>)
        ensures
            r@ == self.inner@.ty.params,
    {
        copy_vec(self.inner.ty.params())
    }

    /// The result types, as a fresh vector.
    pub fn results(&self) -> (r: Vec<ValType>)
        ensures
            r@ == self.inner@.ty.results,
    {
        copy_vec(self.inner.ty.results())
    }
}

/// One import descriptor: a declared import of some module.
#[allow(non_camel_case_types)]
#[derive(Debug)]
pub struct wasmer_import_descriptor_t {
    pub inner: ImportDecl,
}

impl wasmer_import_descriptor_t {
    /// The field name the import is declared under.
    pub fn name(&self) -> (r: &Vec<u8>)
        ensures
            r@ == self.inner@.field,
    {
        &self.inner.field
    }

    /// The namespace the import is declared under.
    pub fn module_name(&self) -> (r: &Vec<u8>)
        ensures
            r@ == self.inner@.module,
    {
        &self.inner.module
    }

    /// The declared kind and type.
    pub fn kind(&self) -> (r: ExternType)
        ensures
            r == self.inner@.ty,
    {
        self.inner.ty
    }
}

/// The import descriptors of a module, in declaration order.
#[allow(non_camel_case_types)]
#[derive(Debug)]
pub struct wasmer_import_descriptors_t {
    items: Vec<wasmer_import_descriptor_t>,
}

/// The import descriptors declared by the compiled module, in order.
pub fn wasmer_import_descriptors(cm: &CompiledModule) -> (r: wasmer_import_descriptors_t)
    ensures
        r.spec_items().len() == cm@.artifact.info.imports.len(),
        forall|k: int|
            0 <= k < r.spec_items().len() ==> #[trigger] r.spec_items()[k]
                == cm@.artifact.info.imports[k],
{
    let src = cm.imports();
    let n: usize = src.len();
    let mut items: Vec<wasmer_import_descriptor_t> = Vec::new();
    let mut i: usize = 0;
    while i < n
        invariant
            n == src@.len(),
            src@.map_values(|d: ImportDecl| d@) == cm@.artifact.info.imports,
            0 <= i <= n,
            items@.len() == i,
            forall|k: int|
                0 <= k < i ==> (#[trigger] items@[k].inner)@ == cm@.artifact.info.imports[k],
        decreases n - i,
    {
        proof {
            assert(cm@.artifact.info.imports[i as int] == src@[i as int]@);
        }
        let d = &src[i];
        items.push(
            wasmer_import_descriptor_t {
                inner: ImportDecl {
                    module: copy_bytes(&d.module),
                    field: copy_bytes(&d.field),
                    ty: d.ty,
                },
            },
        );
        i += 1;
    }
    wasmer_import_descriptors_t { items }
}

impl wasmer_import_descriptors_t {
    /// The descriptors' shapes, in order.
    pub closed spec fn spec_items(&self) -> Seq<crate::types::ImportDeclV> {
        self.items@.map_values(|d: wasmer_import_descriptor_t| d.inner@)
    }

    /// How many imports the module declares.
    pub fn len(&self) -> (n: usize)
        ensures
            n == self.spec_items().len(),
    {
        self.items.len()
    }

    /// The descriptor at position `idx`, if it exists.
    pub fn get(&self, idx: usize) -> (r: Option<&wasmer_import_descriptor_t>)
        ensures
            match r {
                Some(d) => idx < self.spec_items().len() && d.inner@ == self.spec_items()[
                    idx as int
                ],
                None => idx >= self.spec_items().len(),
            },
    {
        if idx < self.items.len() {
            proof {
                assert(self.spec_items()[idx as int] == self.items@[idx as int].inner@);
            }
            Some(&self.items[idx])
        } else {
            None
        }
    }
}

} // verus!
