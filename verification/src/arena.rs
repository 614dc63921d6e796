//! The code memory arena: an append-only collection of spans holding
//! compiled function bodies, with a one-way writable-to-executable
//! transition per span.
//!
//! A span is writable-only from its allocation until `publish` is called;
//! `publish` flips every span allocated so far to executable. No span is
//! ever simultaneously writable and executable: the arena's interface has no
//! way to change a span's bytes after allocation, and no way to execute a
//! span before publication.

use vstd::prelude::*;

verus! {

use crate::types::copy_bytes;

/// The mathematical shape of one span of code memory.
#[verifier::ext_equal]
pub ghost struct SpanV {
    /// The span's address: a byte offset in the arena's flat address space,
    /// aligned for the target instruction set.
    pub offset: int,
    /// The bytes the span holds.
    pub bytes: Seq<u8>,
}

/// One span of code memory.
struct CodeSpan {
    offset: usize,
    bytes: Vec<u8>,
}

/// The instruction alignment every span address respects.
pub const CODE_ALIGNMENT: usize = 16;

/// `n` rounded up to the next multiple of the code alignment.
pub open spec fn align_up(n: int) -> int {
    if n % 16 == 0 {
        n
    } else {
        n + 16 - n % 16
    }
}

/// An append-only arena of code spans. Address = span index; the span's
/// aligned byte offset in the flat address space is metadata reachable
/// through `span_offset`.
pub struct CodeMemoryArena {
    spans: Vec<CodeSpan>,
    published: usize,
    cursor: usize,
}

/// The arena could not reserve space for a body.
#[derive(Debug)]
pub struct ResourceError {
    pub message: String,
}

impl CodeMemoryArena {
    /// The spans allocated so far, oldest first.
    pub closed spec fn spec_spans(self) -> Seq<SpanV> {
        self.spans@.map_values(|s: CodeSpan| SpanV { offset: s.offset as int, bytes: s.bytes@ })
    }

    /// How many of the oldest spans are published (executable).
    pub closed spec fn spec_published(self) -> int {
        self.published as int
    }

    /// The next free byte offset in the flat address space.
    pub closed spec fn spec_cursor(self) -> int {
        self.cursor as int
    }

    /// Whether the span at address `a` may be executed: it exists and its
    /// region has been published.
    pub open spec fn is_executable(self, a: int) -> bool {
        0 <= a < self.spec_published()
    }

    /// The bytes of the span at address `a`.
    pub open spec fn span_bytes(self, a: int) -> Seq<u8> {
        self.spec_spans()[a].bytes
    }

    /// Well-formedness: published spans are a prefix of all spans; every
    /// span sits at an aligned offset; spans do not overlap and all lie
    /// below the cursor.
    pub closed spec fn wf(self) -> bool {
        &&& 0 <= self.published <= self.spans@.len()
        &&& forall|i: int|
            0 <= i < self.spans@.len() ==> (#[trigger] self.spans@[i]).offset % 16 == 0
        &&& forall|i: int|
            0 <= i < self.spans@.len() ==> (#[trigger] self.spans@[i]).offset
                + self.spans@[i].bytes@.len() <= self.cursor
        &&& forall|i: int, j: int|
            0 <= i < j < self.spans@.len() ==> (#[trigger] self.spans@[i]).offset
                + self.spans@[i].bytes@.len() <= (#[trigger] self.spans@[j]).offset
    }

    /// Whether reserving `len` more bytes would exhaust the address space.
    pub open spec fn alloc_would_overflow(self, len: nat) -> bool {
        align_up(self.spec_cursor()) + len > usize::MAX
    }

    /// Creates an empty arena.
    pub fn new() -> (r: CodeMemoryArena)
        ensures
            r.wf(),
            r.spec_spans() =~= Seq::<SpanV>::empty(),
            r.spec_published() == 0,
            r.spec_cursor() == 0,
    {
        CodeMemoryArena { spans: Vec::new(), published: 0, cursor: 0 }
    }

    /// How many spans the arena holds.
    pub fn span_count(&self) -> (n: usize)
        ensures
            n == self.spec_spans().len(),
    {
        self.spans.len()
    }

    /// How many of the oldest spans are published.
    pub fn published_count(&self) -> (n: usize)
        ensures
            n == self.spec_published(),
    {
        self.published
    }

    /// The aligned byte offset of the span at address `a`.
    pub fn span_offset(&self, a: usize) -> (r: Option<usize>)
        requires
            self.wf(),
        ensures
            match r {
                Some(off) => a < self.spec_spans().len() && off == self.spec_spans()[a as int].offset
                    && off % 16 == 0,
                None => a >= self.spec_spans().len(),
            },
    {
        if a < self.spans.len() {
            let off = self.spans[a].offset;
            proof {
                assert(self.spec_spans()[a as int].offset == self.spans@[a as int].offset as int);
            }
            Some(off)
        } else {
            None
        }
    }

    /// Copies one function body into freshly reserved, writable-only space
    /// and returns its address. The new span is not executable until the
    /// next `publish`.
    pub fn allocate_for_function(&mut self, body: &Vec<u8>) -> (r: Result<usize, ResourceError>)
        requires
            old(self).wf(),
        ensures
            final(self).wf(),
            match r {
                Ok(a) => {
                    &&& !old(self).alloc_would_overflow(body@.len())
                    &&& alloc_step(*old(self), *final(self), body@, a as int)
                },
                Err(_) => {
                    &&& old(self).alloc_would_overflow(body@.len())
                    &&& *final(self) == *old(self)
                },
            },
    {
        let pad: usize = if self.cursor % CODE_ALIGNMENT == 0 {
            0
        } else {
            CODE_ALIGNMENT - self.cursor % CODE_ALIGNMENT
        };
        if pad > usize::MAX - self.cursor {
            return Err(ResourceError { message: "failed to reserve code memory".to_owned() });
        }
        let aligned: usize = self.cursor + pad;
        assert(aligned as int == align_up(old(self).spec_cursor()));
        if body.len() > usize::MAX - aligned {
            return Err(ResourceError { message: "failed to reserve code memory".to_owned() });
        }
        let addr: usize = self.spans.len();
        let copy: Vec<u8> = copy_bytes(body);
        self.spans.push(CodeSpan { offset: aligned, bytes: copy });
        self.cursor = aligned + body.len();
        proof {
            assert(final(self).spec_spans() =~= old(self).spec_spans().push(
                SpanV { offset: aligned as int, bytes: body@ },
            ));
        }
        Ok(addr)
    }

    /// Copies each function body into freshly reserved space, returning the
    /// address of each. None of the new spans is executable until the next
    /// `publish`. On failure, the bodies already placed stay allocated
    /// (unpublished) and the arena is otherwise unchanged.
    pub fn allocate_functions(&mut self, bodies: &Vec<Vec<u8>>) -> (r: Result<
        Vec<usize>,
        ResourceError,
    >)
        requires
            old(self).wf(),
        ensures
            final(self).wf(),
            final(self).spec_published() == old(self).spec_published(),
            old(self).spec_spans().is_prefix_of(final(self).spec_spans()),
            placement_fits(old(self).spec_cursor(), bodies@.map_values(|b: Vec<u8>| b@))
                ==> r is Ok,
            r is Err ==> !placement_fits(
                old(self).spec_cursor(),
                bodies@.map_values(|b: Vec<u8>| b@),
            ),
            match r {
                Ok(addrs) => {
                    &&& addrs@.len() == bodies@.len()
                    &&& final(self).spec_spans().len() == old(self).spec_spans().len()
                        + bodies@.len()
                    &&& forall|k: int|
                        0 <= k < bodies@.len() ==> addrs@[k] as int == old(self).spec_spans().len()
                            + k
                    &&& forall|k: int|
                        0 <= k < bodies@.len() ==> final(self).span_bytes(
                            old(self).spec_spans().len() + k,
                        ) == bodies@[k]@
                    &&& forall|k: int|
                        0 <= k < bodies@.len() ==> !final(self).is_executable(#[trigger] addrs@[k] as int)
                },
                Err(_) => true,
            },
    {
        let ghost bv = bodies@.map_values(|b: Vec<u8>| b@);
        let ghost c0 = old(self).spec_cursor();
        let mut addrs: Vec<usize> = Vec::new();
        let n: usize = bodies.len();
        let mut k: usize = 0;
        proof {
            assert(bv.skip(0) =~= bv);
        }
        while k < n
            invariant
                n == bodies@.len(),
                bv == bodies@.map_values(|b: Vec<u8>| b@),
                c0 == old(self).spec_cursor(),
                0 <= k <= n,
                self.wf(),
                self.spec_published() == old(self).spec_published(),
                self.spec_spans().len() == old(self).spec_spans().len() + k,
                old(self).spec_spans().is_prefix_of(self.spec_spans()),
                sim_place(self.spec_cursor(), bv.skip(k as int)) <= sim_place(c0, bv),
                addrs@.len() == k,
                forall|i: int|
                    0 <= i < k ==> addrs@[i] as int == old(self).spec_spans().len() + i,
                forall|i: int|
                    0 <= i < k ==> self.span_bytes(old(self).spec_spans().len() + i)
                        == bodies@[i]@,
            decreases n - k,
        {
            proof {
                assert(bv.skip(k as int).first() == bv[k as int]);
                assert(bv[k as int] == bodies@[k as int]@);
                assert(bv.skip(k as int).drop_first() =~= bv.skip(k + 1));
            }
            let ghost cur = self.spec_cursor();
            let body = &bodies[k];
            match self.allocate_for_function(body) {
                Ok(a) => {
                    addrs.push(a);
                },
                Err(e) => {
                    proof {
                        lemma_sim_place_lb(align_up(cur) + body@.len(), bv.skip(k + 1));
                        assert(sim_place(cur, bv.skip(k as int)) == sim_place(
                            align_up(cur) + body@.len(),
                            bv.skip(k + 1),
                        ));
                        assert(sim_place(c0, bv) > usize::MAX);
                    }
                    return Err(e);
                },
            }
            proof {
                assert(self.spec_cursor() == align_up(cur) + body@.len());
                assert(sim_place(self.spec_cursor(), bv.skip(k + 1)) == sim_place(
                    cur,
                    bv.skip(k as int),
                ));
            }
            k += 1;
        }
        Ok(addrs)
    }

    /// Flips every span allocated since the last `publish` from writable to
    /// executable. Must run before any address handed out by the allocation
    /// calls is ever executed.
    pub fn publish(&mut self)
        requires
            old(self).wf(),
        ensures
            final(self).wf(),
            publish_step(*old(self), *final(self)),
    {
        self.published = self.spans.len();
    }

    /// The bytes of the span at address `a`, for execution. Yields the body
    /// only if the span exists and was published; an unpublished span is
    /// not executable.
    pub fn fetch_executable(&self, a: usize) -> (r: Option<Vec<u8>>)
        requires
            self.wf(),
        ensures
            match r {
                Some(body) => self.is_executable(a as int) && body@ == self.span_bytes(a as int),
                None => !self.is_executable(a as int),
            },
    {
        if a < self.published {
            proof {
                assert(self.spec_spans()[a as int].bytes == self.spans@[a as int].bytes@);
            }
            Some(copy_bytes(&self.spans[a].bytes))
        } else {
            None
        }
    }
}

/// The cursor after placing each body in turn at its aligned offset,
/// with no overflow cut-off: comparing the result against the address
/// space tells whether the whole placement fits.
pub open spec fn sim_place(cursor: int, items: Seq<Seq<u8>>) -> int
    decreases items.len(),
{
    if items.len() == 0 {
        cursor
    } else {
        sim_place(align_up(cursor) + items.first().len(), items.drop_first())
    }
}

/// Whether placing every item in turn stays within the address space.
pub open spec fn placement_fits(cursor: int, items: Seq<Seq<u8>>) -> bool {
    sim_place(cursor, items) <= usize::MAX
}

/// Rounding up to the alignment never goes below the input.
pub proof fn lemma_align_up_lb(n: int)
    ensures
        align_up(n) >= n,
{
}

/// The least multiple of the alignment at or above `n` is `align_up(n)`.
pub proof fn lemma_align_up_least(n: int, m: int)
    requires
        m % 16 == 0,
        m >= n,
    ensures
        align_up(n) <= m,
{
    if n % 16 != 0 {
        if m < n + 16 - n % 16 {
            let r = m - (n - n % 16);
            assert(n % 16 <= r < 16);
            assert(m == (n - n % 16) + r);
            assert((n - n % 16) % 16 == 0);
            assert(m % 16 == r);
        }
    }
}

/// Rounding up is monotone.
pub proof fn lemma_align_up_mono(a: int, b: int)
    requires
        a <= b,
    ensures
        align_up(a) <= align_up(b),
{
    lemma_align_up_lb(b);
    assert(align_up(b) % 16 == 0);
    lemma_align_up_least(a, align_up(b));
}

/// The simulated cursor never moves backwards.
pub proof fn lemma_sim_place_lb(cursor: int, items: Seq<Seq<u8>>)
    ensures
        sim_place(cursor, items) >= cursor,
    decreases items.len(),
{
    if items.len() > 0 {
        lemma_align_up_lb(cursor);
        lemma_sim_place_lb(align_up(cursor) + items.first().len(), items.drop_first());
    }
}

/// The simulated cursor is monotone in its starting point.
pub proof fn lemma_sim_place_mono(c1: int, c2: int, items: Seq<Seq<u8>>)
    requires
        c1 <= c2,
    ensures
        sim_place(c1, items) <= sim_place(c2, items),
    decreases items.len(),
{
    if items.len() > 0 {
        lemma_align_up_mono(c1, c2);
        lemma_sim_place_mono(
            align_up(c1) + items.first().len(),
            align_up(c2) + items.first().len(),
            items.drop_first(),
        );
    }
}

/// The relation between an arena before and after one successful
/// single-body allocation: one new unpublished span holding exactly the
/// body, at an aligned address past every existing span; everything already
/// allocated, and the published count, are untouched.
pub open spec fn alloc_step(
    pre: CodeMemoryArena,
    post: CodeMemoryArena,
    body: Seq<u8>,
    addr: int,
) -> bool {
    &&& addr == pre.spec_spans().len()
    &&& post.spec_spans() == pre.spec_spans().push(
        SpanV { offset: align_up(pre.spec_cursor()), bytes: body },
    )
    &&& post.spec_published() == pre.spec_published()
    &&& post.spec_cursor() == align_up(pre.spec_cursor()) + body.len()
}

/// The relation between an arena before and after `publish`: the spans and
/// their bytes are untouched, and every one of them is now executable.
pub open spec fn publish_step(pre: CodeMemoryArena, post: CodeMemoryArena) -> bool {
    &&& post.spec_spans() == pre.spec_spans()
    &&& post.spec_published() == pre.spec_spans().len()
    &&& post.spec_cursor() == pre.spec_cursor()
}

/// Write/execute exclusivity: an address returned by an allocation is not
/// executable before the owning `publish`; after it, the span is executable
/// and holds exactly the bytes that were written, and the bytes of every
/// span that was already executable are unchanged — published memory is
/// never again writable through the arena's interface.
pub proof fn law_write_execute_exclusivity(
    pre: CodeMemoryArena,
    mid: CodeMemoryArena,
    post: CodeMemoryArena,
    body: Seq<u8>,
    addr: int,
)
    requires
        pre.wf(),
        pre.spec_published() <= pre.spec_spans().len(),
        alloc_step(pre, mid, body, addr),
        publish_step(mid, post),
    ensures
        !mid.is_executable(addr),
        post.is_executable(addr),
        post.span_bytes(addr) == body,
        forall|j: int| mid.is_executable(j) ==> post.is_executable(j),
        forall|j: int|
            mid.is_executable(j) ==> post.span_bytes(j) == mid.span_bytes(j),
{
    assert(mid.spec_spans()[addr].bytes == body);
}

} // verus!
