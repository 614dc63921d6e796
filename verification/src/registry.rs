//! The signature registry: a bidirectional mapping between function types
//! and small dense indices, deduplicated over the owning engine's lifetime.
//!
//! Two structurally equal function types (same parameter and result
//! sequences) always map to the same index, however many modules register
//! them; two structurally different types never share an index.

use vstd::prelude::*;

verus! {

use crate::types::{FunctionType, FunctionTypeV};

/// A small dense integer canonically identifying a function type within one
/// engine's lifetime.
pub type SignatureIndex = usize;

/// Whether the registered types are pairwise structurally distinct.
pub open spec fn distinct_types(s: Seq<FunctionTypeV>) -> bool {
    forall|i: int, j: int| 0 <= i < j < s.len() ==> s[i] != s[j]
}

/// Whether a structurally equal type is already registered.
pub open spec fn spec_contains(s: Seq<FunctionTypeV>, ft: FunctionTypeV) -> bool {
    exists|i: int| 0 <= i < s.len() && s[i] == ft
}

/// The index of a registered type.
pub open spec fn spec_index_of(s: Seq<FunctionTypeV>, ft: FunctionTypeV) -> int {
    choose|i: int| 0 <= i < s.len() && s[i] == ft
}

/// The index `register` yields on a registry holding `s`: the existing
/// index of a structurally equal type, else the next fresh one.
pub open spec fn reg_result(s: Seq<FunctionTypeV>, ft: FunctionTypeV) -> int {
    if spec_contains(s, ft) {
        spec_index_of(s, ft)
    } else {
        s.len() as int
    }
}

/// The registry contents after `register`: unchanged if a structurally
/// equal type was already registered, else extended by the new type.
pub open spec fn reg_state(s: Seq<FunctionTypeV>, ft: FunctionTypeV) -> Seq<FunctionTypeV> {
    if spec_contains(s, ft) {
        s
    } else {
        s.push(ft)
    }
}

/// Under distinctness, a type found at position `i` has that position as
/// its one index.
pub proof fn lemma_index_unique(s: Seq<FunctionTypeV>, ft: FunctionTypeV, i: int)
    requires
        distinct_types(s),
        0 <= i < s.len(),
        s[i] == ft,
    ensures
        spec_contains(s, ft),
        spec_index_of(s, ft) == i,
{
    assert(spec_contains(s, ft));
    let j = spec_index_of(s, ft);
    assert(0 <= j < s.len() && s[j] == ft);
    if i != j {
        assert(s[i] != s[j] || s[j] != s[i]);
    }
}

/// Registering a fresh type keeps the contents distinct.
proof fn lemma_push_distinct(s: Seq<FunctionTypeV>, ft: FunctionTypeV)
    requires
        distinct_types(s),
        !spec_contains(s, ft),
    ensures
        distinct_types(s.push(ft)),
{
    let s1 = s.push(ft);
    assert forall|i: int, j: int| 0 <= i < j < s1.len() implies s1[i] != s1[j] by {
        if j == s.len() {
            assert(s1[i] == s[i]);
            if s1[i] == ft {
                assert(spec_contains(s, ft));
            }
        }
    }
}

/// A type registered in a registry keeps its index when the registry only
/// grows.
pub proof fn lemma_index_of_prefix(s1: Seq<FunctionTypeV>, s2: Seq<FunctionTypeV>, x: FunctionTypeV)
    requires
        distinct_types(s2),
        s1.is_prefix_of(s2),
        spec_contains(s1, x),
    ensures
        spec_contains(s2, x),
        spec_index_of(s2, x) == spec_index_of(s1, x),
{
    let i = spec_index_of(s1, x);
    assert(0 <= i < s1.len() && s1[i] == x);
    assert(s2.subrange(0, s1.len() as int)[i] == s2[i]);
    assert(s2[i] == x);
    lemma_index_unique(s2, x, i);
}

/// The registry of canonical signature indices.
pub struct SignatureRegistry {
    types: Vec<FunctionType>,
}

impl SignatureRegistry {
    /// The registered types, in index order.
    pub closed spec fn spec_types(self) -> Seq<FunctionTypeV> {
        self.types@.map_values(|t: FunctionType| t@)
    }

    /// Well-formedness: the registered types are pairwise distinct.
    pub open spec fn wf(self) -> bool {
        distinct_types(self.spec_types())
    }

    /// Creates an empty registry.
    pub fn new() -> (r: SignatureRegistry)
        ensures
            r.wf(),
            r.spec_types() =~= Seq::<FunctionTypeV>::empty(),
    {
        SignatureRegistry { types: Vec::new() }
    }

    /// How many distinct types are registered.
    pub fn len(&self) -> (n: usize)
        ensures
            n == self.spec_types().len(),
    {
        self.types.len()
    }

    /// Returns the index of `ty`: the existing index if a structurally
    /// equal type was already registered, else the next dense index, under
    /// which `ty` is now registered.
    pub fn register(&mut self, ty: &FunctionType) -> (idx: SignatureIndex)
        requires
            old(self).wf(),
        ensures
            final(self).wf(),
            final(self).spec_types() == reg_state(old(self).spec_types(), ty@),
            idx as int == reg_result(old(self).spec_types(), ty@),
            idx < final(self).spec_types().len(),
            final(self).spec_types()[idx as int] == ty@,
    {
        let n: usize = self.types.len();
        let mut i: usize = 0;
        while i < n
            invariant
                n == self.spec_types().len(),
                0 <= i <= n,
                self.wf(),
                forall|k: int| 0 <= k < i ==> self.spec_types()[k] != ty@,
            decreases n - i,
        {
            proof {
                assert(self.spec_types()[i as int] == self.types@[i as int]@);
            }
            if self.types[i].same(ty) {
                proof {
                    lemma_index_unique(self.spec_types(), ty@, i as int);
                }
                return i;
            }
            i += 1;
        }
        proof {
            assert(!spec_contains(self.spec_types(), ty@));
            lemma_push_distinct(self.spec_types(), ty@);
        }
        let idx: usize = n;
        self.types.push(ty.duplicate());
        proof {
            assert(final(self).spec_types() =~= old(self).spec_types().push(ty@));
        }
        idx
    }

    /// The index under which a structurally equal type is registered, if
    /// any, without registering anything.
    pub fn find(&self, ty: &FunctionType) -> (r: Option<SignatureIndex>)
        requires
            self.wf(),
        ensures
            match r {
                Some(i) => spec_contains(self.spec_types(), ty@) && i as int == spec_index_of(
                    self.spec_types(),
                    ty@,
                ),
                None => !spec_contains(self.spec_types(), ty@),
            },
    {
        let n: usize = self.types.len();
        let mut i: usize = 0;
        while i < n
            invariant
                n == self.spec_types().len(),
                0 <= i <= n,
                self.wf(),
                forall|k: int| 0 <= k < i ==> self.spec_types()[k] != ty@,
            decreases n - i,
        {
            proof {
                assert(self.spec_types()[i as int] == self.types@[i as int]@);
            }
            if self.types[i].same(ty) {
                proof {
                    lemma_index_unique(self.spec_types(), ty@, i as int);
                }
                return Some(i);
            }
            i += 1;
        }
        None
    }

    /// The reverse mapping: the type registered under `idx`, or `None` for
    /// an index that was never handed out.
    pub fn lookup(&self, idx: SignatureIndex) -> (r: Option<FunctionType>)
        ensures
            match r {
                Some(t) => idx < self.spec_types().len() && t@ == self.spec_types()[idx as int],
                None => idx >= self.spec_types().len(),
            },
    {
        if idx < self.types.len() {
            proof {
                assert(self.spec_types()[idx as int] == self.types@[idx as int]@);
            }
            Some(self.types[idx].duplicate())
        } else {
            None
        }
    }
}

/// Signature canonicalization: registering `a` and then `b` yields the same
/// index exactly when `a` and `b` have identical parameter and result type
/// sequences.
pub proof fn law_signature_canonicalization(
    s: Seq<FunctionTypeV>,
    a: FunctionTypeV,
    b: FunctionTypeV,
)
    requires
        distinct_types(s),
    ensures
        reg_result(reg_state(s, a), b) == reg_result(s, a) <==> a == b,
{
    let s1 = reg_state(s, a);
    let ia = reg_result(s, a);
    if spec_contains(s, a) {
        assert(0 <= ia < s.len() && s[ia] == a);
    } else {
        lemma_push_distinct(s, a);
        assert(s1[ia] == a);
    }
    assert(distinct_types(s1));
    assert(0 <= ia < s1.len() && s1[ia] == a);
    if a == b {
        lemma_index_unique(s1, b, ia);
    } else {
        if spec_contains(s1, b) {
            let ib = spec_index_of(s1, b);
            assert(0 <= ib < s1.len() && s1[ib] == b);
            if ib == ia {
                assert(s1[ia] == a && s1[ia] == b);
            }
        } else {
            assert(reg_result(s1, b) == s1.len());
        }
    }
}

} // verus!
