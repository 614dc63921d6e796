//! The flat byte protocol for serialized compiled artifacts.
//!
//! Every encoder has a specification-level twin, every decoder matches its
//! twin exactly (including every failure mode), and decoding an encoding
//! yields the encoded value back — the round-trip behind `serialize` /
//! `deserialize`.

use vstd::prelude::*;

verus! {

use crate::types::{
    DataSegment, DataSegmentV, ElemSegment, ElemSegmentV, ExportDecl, ExportDeclV, ExportIndex,
    ExternType, FunctionType, FunctionTypeV, GlobalDecl, GlobalType, ImportDecl, ImportDeclV,
    MemoryType, ModuleInfo, ModuleInfoV, TableType, ValType, Value,
};

/// Whether an executable decoder's result is the specification decoder's.
pub open spec fn dec_matches<T>(r: Option<(T, usize)>, s: Option<(T, int)>) -> bool {
    match r {
        None => s is None,
        Some((v, p)) => s == Some((v, p as int)),
    }
}

// ---------------------------------------------------------------------
// unsigned integers, little endian
// ---------------------------------------------------------------------
/// The four little-endian bytes of `v`.
pub open spec fn spec_enc_u32(v: u32) -> Seq<u8> {
    seq![
        (v & 0xff) as u8,
        ((v >> 8) & 0xff) as u8,
        ((v >> 16) & 0xff) as u8,
        ((v >> 24) & 0xff) as u8,
    ]
}

/// The value held by four little-endian bytes.
pub open spec fn spec_u32_of(b0: u8, b1: u8, b2: u8, b3: u8) -> u32 {
    (b0 as u32) | ((b1 as u32) << 8) | ((b2 as u32) << 16) | ((b3 as u32) << 24)
}

/// A `u32` read at `pos`.
pub open spec fn spec_dec_u32(s: Seq<u8>, pos: int) -> Option<(u32, int)> {
    if 0 <= pos && pos + 4 <= s.len() {
        Some((spec_u32_of(s[pos], s[pos + 1], s[pos + 2], s[pos + 3]), pos + 4))
    } else {
        None
    }
}

proof fn lemma_u32_bytes(v: u32)
    ensures
        spec_u32_of(
            (v & 0xff) as u8,
            ((v >> 8) & 0xff) as u8,
            ((v >> 16) & 0xff) as u8,
            ((v >> 24) & 0xff) as u8,
        ) == v,
{
    assert(((v & 0xff) as u8 as u32) | ((((v >> 8) & 0xff) as u8 as u32) << 8) | ((((v >> 16)
        & 0xff) as u8 as u32) << 16) | ((((v >> 24) & 0xff) as u8 as u32) << 24) == v)
        by (bit_vector);
}

/// Decoding at the start of an encoding of `v` yields `v`.
pub proof fn lemma_dec_u32(s: Seq<u8>, pos: int, v: u32)
    requires
        0 <= pos,
        pos + 4 <= s.len(),
        s.subrange(pos, pos + 4) == spec_enc_u32(v),
    ensures
        spec_dec_u32(s, pos) == Some((v, pos + 4)),
{
    assert(s[pos] == spec_enc_u32(v)[0]);
    assert(s[pos + 1] == spec_enc_u32(v)[1]);
    assert(s[pos + 2] == spec_enc_u32(v)[2]);
    assert(s[pos + 3] == spec_enc_u32(v)[3]);
    lemma_u32_bytes(v);
}

/// Appends the encoding of `v`.
pub fn enc_u32(out: &mut Vec<u8>, v: u32)
    ensures
        final(out)@ == old(out)@ + spec_enc_u32(v),
{
    out.push((v & 0xff) as u8);
    out.push(((v >> 8) & 0xff) as u8);
    out.push(((v >> 16) & 0xff) as u8);
    out.push(((v >> 24) & 0xff) as u8);
    proof {
        assert(final(out)@ =~= old(out)@ + spec_enc_u32(v));
    }
}

/// Reads a `u32` at `pos`.
pub fn dec_u32(s: &Vec<u8>, pos: usize) -> (r: Option<(u32, usize)>)
    ensures
        dec_matches(r, spec_dec_u32(s@, pos as int)),
{
    if pos <= s.len() && s.len() - pos >= 4 {
        let v: u32 = (s[pos] as u32) | ((s[pos + 1] as u32) << 8) | ((s[pos + 2] as u32) << 16) | (
        (s[pos + 3] as u32) << 24);
        Some((v, pos + 4))
    } else {
        None
    }
}

/// The eight little-endian bytes of `v`.
pub open spec fn spec_enc_u64(v: u64) -> Seq<u8> {
    seq![
        (v & 0xff) as u8,
        ((v >> 8) & 0xff) as u8,
        ((v >> 16) & 0xff) as u8,
        ((v >> 24) & 0xff) as u8,
        ((v >> 32) & 0xff) as u8,
        ((v >> 40) & 0xff) as u8,
        ((v >> 48) & 0xff) as u8,
        ((v >> 56) & 0xff) as u8,
    ]
}

/// The value held by eight little-endian bytes.
pub open spec fn spec_u64_of(
    b0: u8,
    b1: u8,
    b2: u8,
    b3: u8,
    b4: u8,
    b5: u8,
    b6: u8,
    b7: u8,
) -> u64 {
    (b0 as u64) | ((b1 as u64) << 8) | ((b2 as u64) << 16) | ((b3 as u64) << 24) | ((b4
        as u64) << 32) | ((b5 as u64) << 40) | ((b6 as u64) << 48) | ((b7 as u64) << 56)
}

/// A `u64` read at `pos`.
pub open spec fn spec_dec_u64(s: Seq<u8>, pos: int) -> Option<(u64, int)> {
    if 0 <= pos && pos + 8 <= s.len() {
        Some(
            (
                spec_u64_of(
                    s[pos],
                    s[pos + 1],
                    s[pos + 2],
                    s[pos + 3],
                    s[pos + 4],
                    s[pos + 5],
                    s[pos + 6],
                    s[pos + 7],
                ),
                pos + 8,
            ),
        )
    } else {
        None
    }
}

proof fn lemma_u64_bytes(v: u64)
    ensures
        spec_u64_of(
            (v & 0xff) as u8,
            ((v >> 8) & 0xff) as u8,
            ((v >> 16) & 0xff) as u8,
            ((v >> 24) & 0xff) as u8,
            ((v >> 32) & 0xff) as u8,
            ((v >> 40) & 0xff) as u8,
            ((v >> 48) & 0xff) as u8,
            ((v >> 56) & 0xff) as u8,
        ) == v,
{
    assert(((v & 0xff) as u8 as u64) | ((((v >> 8) & 0xff) as u8 as u64) << 8) | ((((v >> 16)
        & 0xff) as u8 as u64) << 16) | ((((v >> 24) & 0xff) as u8 as u64) << 24) | ((((v >> 32)
        & 0xff) as u8 as u64) << 32) | ((((v >> 40) & 0xff) as u8 as u64) << 40) | ((((v >> 48)
        & 0xff) as u8 as u64) << 48) | ((((v >> 56) & 0xff) as u8 as u64) << 56) == v)
        by (bit_vector);
}

/// Decoding at the start of an encoding of `v` yields `v`.
pub proof fn lemma_dec_u64(s: Seq<u8>, pos: int, v: u64)
    requires
        0 <= pos,
        pos + 8 <= s.len(),
        s.subrange(pos, pos + 8) == spec_enc_u64(v),
    ensures
        spec_dec_u64(s, pos) == Some((v, pos + 8)),
{
    assert(s[pos] == spec_enc_u64(v)[0]);
    assert(s[pos + 1] == spec_enc_u64(v)[1]);
    assert(s[pos + 2] == spec_enc_u64(v)[2]);
    assert(s[pos + 3] == spec_enc_u64(v)[3]);
    assert(s[pos + 4] == spec_enc_u64(v)[4]);
    assert(s[pos + 5] == spec_enc_u64(v)[5]);
    assert(s[pos + 6] == spec_enc_u64(v)[6]);
    assert(s[pos + 7] == spec_enc_u64(v)[7]);
    lemma_u64_bytes(v);
}

/// Appends the encoding of `v`.
pub fn enc_u64(out: &mut Vec<u8>, v: u64)
    ensures
        final(out)@ == old(out)@ + spec_enc_u64(v),
{
    out.push((v & 0xff) as u8);
    out.push(((v >> 8) & 0xff) as u8);
    out.push(((v >> 16) & 0xff) as u8);
    out.push(((v >> 24) & 0xff) as u8);
    out.push(((v >> 32) & 0xff) as u8);
    out.push(((v >> 40) & 0xff) as u8);
    out.push(((v >> 48) & 0xff) as u8);
    out.push(((v >> 56) & 0xff) as u8);
    proof {
        assert(final(out)@ =~= old(out)@ + spec_enc_u64(v));
    }
}

/// Reads a `u64` at `pos`.
pub fn dec_u64(s: &Vec<u8>, pos: usize) -> (r: Option<(u64, usize)>)
    ensures
        dec_matches(r, spec_dec_u64(s@, pos as int)),
{
    if pos <= s.len() && s.len() - pos >= 8 {
        let v: u64 = (s[pos] as u64) | ((s[pos + 1] as u64) << 8) | ((s[pos + 2] as u64) << 16) | (
        (s[pos + 3] as u64) << 24) | ((s[pos + 4] as u64) << 32) | ((s[pos + 5] as u64) << 40) | ((
        s[pos + 6] as u64) << 48) | ((s[pos + 7] as u64) << 56);
        Some((v, pos + 8))
    } else {
        None
    }
}

// ---------------------------------------------------------------------
// splitting a known concatenation
// ---------------------------------------------------------------------
/// A range of `s` holding `a + b` splits into a range holding `a` and a
/// range holding `b`.
pub proof fn lemma_subrange_split(s: Seq<u8>, pos: int, a: Seq<u8>, b: Seq<u8>)
    requires
        0 <= pos,
        pos + a.len() + b.len() <= s.len(),
        s.subrange(pos, pos + a.len() + b.len()) == a + b,
    ensures
        s.subrange(pos, pos + a.len()) == a,
        s.subrange(pos + a.len(), pos + a.len() + b.len()) == b,
{
    let whole = s.subrange(pos, pos + a.len() + b.len());
    assert forall|i: int| 0 <= i < a.len() implies s[pos + i] == a[i] by {
        assert(whole[i] == s[pos + i]);
        assert((a + b)[i] == a[i]);
    }
    assert forall|i: int| 0 <= i < b.len() implies s[pos + a.len() + i] == b[i] by {
        assert(whole[a.len() + i] == s[pos + a.len() + i]);
        assert((a + b)[a.len() + i] == b[i]);
    }
    assert(s.subrange(pos, pos + a.len()) =~= a);
    assert(s.subrange(pos + a.len(), pos + a.len() + b.len()) =~= b);
}

// ---------------------------------------------------------------------
// the wire trait: encoder, decoder and round-trip proof per type
// ---------------------------------------------------------------------
/// A type that travels over the artifact protocol. `VV` is its
/// mathematical shape; the decoder matches the specification decoder
/// exactly, and decoding an encoding yields the encoded shape back.
pub trait Wire: Sized {
    /// The mathematical shape carried over the wire.
    type VV;

    /// The shape of this value.
    spec fn wview(&self) -> Self::VV;

    /// The encoding of a shape.
    spec fn wenc(v: Self::VV) -> Seq<u8>;

    /// The shape read at `pos`, with the position after it.
    spec fn wdec(s: Seq<u8>, pos: int) -> Option<(Self::VV, int)>;

    /// The shapes the protocol can carry faithfully (every value an
    /// executable program builds is among them; only lengths past the wire's
    /// own limit are not).
    spec fn wvalid(v: Self::VV) -> bool;

    /// Appends the encoding of `x`.
    fn enc(out: &mut Vec<u8>, x: &Self)
        ensures
            final(out)@ == old(out)@ + Self::wenc(x.wview()),
    ;

    /// Reads one value at `pos`, exactly as the specification decoder does.
    fn dec(s: &Vec<u8>, pos: usize) -> (r: Option<(Self, usize)>)
        ensures
            (match r {
                None => Self::wdec(s@, pos as int) is None,
                Some((x, p)) => Self::wdec(s@, pos as int) == Some((x.wview(), p as int)),
            }),
    ;

    /// Decoding at the start of an encoding of `v` yields `v`.
    proof fn wrt(s: Seq<u8>, pos: int, v: Self::VV)
        requires
            Self::wvalid(v),
            0 <= pos,
            pos + Self::wenc(v).len() <= s.len(),
            s.subrange(pos, pos + Self::wenc(v).len()) == Self::wenc(v),
        ensures
            Self::wdec(s, pos) == Some((v, pos + Self::wenc(v).len())),
    ;
}

/// The shapes of a sequence of wire values.
pub open spec fn wviews<T: Wire>(items: Seq<T>) -> Seq<T::VV> {
    items.map_values(|x: T| x.wview())
}

/// The concatenated encodings of `items`.
pub open spec fn wire_concat<T: Wire>(items: Seq<T::VV>) -> Seq<u8>
    decreases items.len(),
{
    if items.len() == 0 {
        Seq::<u8>::empty()
    } else {
        T::wenc(items[0]) + wire_concat::<T>(items.drop_first())
    }
}

/// Appending one item appends its encoding.
pub proof fn lemma_wire_concat_push<T: Wire>(items: Seq<T::VV>, x: T::VV)
    ensures
        wire_concat::<T>(items.push(x)) == wire_concat::<T>(items) + T::wenc(x),
    decreases items.len(),
{
    if items.len() == 0 {
        assert(items.push(x).drop_first() =~= Seq::<T::VV>::empty());
        assert(wire_concat::<T>(Seq::<T::VV>::empty()) == Seq::<u8>::empty());
        assert(wire_concat::<T>(items) == Seq::<u8>::empty());
        assert(wire_concat::<T>(items.push(x)) == T::wenc(x) + Seq::<u8>::empty());
        assert(T::wenc(x) + Seq::<u8>::empty() =~= T::wenc(x));
        assert(wire_concat::<T>(items) + T::wenc(x) =~= T::wenc(x));
    } else {
        assert(items.push(x).drop_first() =~= items.drop_first().push(x));
        lemma_wire_concat_push::<T>(items.drop_first(), x);
        assert(wire_concat::<T>(items.push(x)) == T::wenc(items[0]) + (wire_concat::<T>(
            items.drop_first(),
        ) + T::wenc(x)));
        assert(T::wenc(items[0]) + (wire_concat::<T>(items.drop_first()) + T::wenc(x)) =~= (T::wenc(
            items[0],
        ) + wire_concat::<T>(items.drop_first())) + T::wenc(x));
    }
}

/// The encoding of a list: its length, then the concatenated items.
pub open spec fn wire_enc_list<T: Wire>(items: Seq<T::VV>) -> Seq<u8> {
    spec_enc_u64(items.len() as u64) + wire_concat::<T>(items)
}

/// `n` items read in order starting at `pos`.
pub open spec fn wire_dec_many<T: Wire>(s: Seq<u8>, pos: int, n: nat) -> Option<
    (Seq<T::VV>, int),
>
    decreases n,
{
    if n == 0 {
        Some((Seq::<T::VV>::empty(), pos))
    } else {
        match T::wdec(s, pos) {
            None => None,
            Some((x, p)) => match wire_dec_many::<T>(s, p, (n - 1) as nat) {
                None => None,
                Some((xs, q)) => Some((seq![x] + xs, q)),
            },
        }
    }
}

/// A list read at `pos`: a length, then that many items.
pub open spec fn wire_dec_list<T: Wire>(s: Seq<u8>, pos: int) -> Option<(Seq<T::VV>, int)> {
    match spec_dec_u64(s, pos) {
        None => None,
        Some((n, p)) => wire_dec_many::<T>(s, p, n as nat),
    }
}

/// Decoding at the start of concatenated encodings yields the items back.
pub proof fn lemma_wire_dec_many<T: Wire>(s: Seq<u8>, pos: int, items: Seq<T::VV>)
    requires
        forall|i: int| 0 <= i < items.len() ==> T::wvalid(#[trigger] items[i]),
        0 <= pos,
        pos + wire_concat::<T>(items).len() <= s.len(),
        s.subrange(pos, pos + wire_concat::<T>(items).len()) == wire_concat::<T>(items),
    ensures
        wire_dec_many::<T>(s, pos, items.len()) == Some(
            (items, pos + wire_concat::<T>(items).len()),
        ),
    decreases items.len(),
{
    if items.len() == 0 {
        assert(items =~= Seq::<T::VV>::empty());
    } else {
        let head = T::wenc(items[0]);
        let tail = wire_concat::<T>(items.drop_first());
        assert(wire_concat::<T>(items) == head + tail);
        lemma_subrange_split(s, pos, head, tail);
        T::wrt(s, pos, items[0]);
        lemma_wire_dec_many::<T>(s, pos + head.len(), items.drop_first());
        assert(seq![items[0]] + items.drop_first() =~= items);
    }
}

/// Decoding at the start of a list encoding yields the items back.
pub proof fn lemma_wire_dec_list<T: Wire>(s: Seq<u8>, pos: int, items: Seq<T::VV>)
    requires
        forall|i: int| 0 <= i < items.len() ==> T::wvalid(#[trigger] items[i]),
        0 <= pos,
        items.len() <= u64::MAX,
        pos + wire_enc_list::<T>(items).len() <= s.len(),
        s.subrange(pos, pos + wire_enc_list::<T>(items).len()) == wire_enc_list::<T>(items),
    ensures
        wire_dec_list::<T>(s, pos) == Some((items, pos + wire_enc_list::<T>(items).len())),
{
    let lenb = spec_enc_u64(items.len() as u64);
    let body = wire_concat::<T>(items);
    lemma_subrange_split(s, pos, lenb, body);
    lemma_dec_u64(s, pos, items.len() as u64);
    lemma_wire_dec_many::<T>(s, pos + 8, items);
}

/// Appends the encoding of a vector of wire values.
pub fn wire_enc_vec<T: Wire>(out: &mut Vec<u8>, items: &Vec<T>)
    ensures
        final(out)@ == old(out)@ + wire_enc_list::<T>(wviews(items@)),
{
    enc_u64(out, items.len() as u64);
    let n: usize = items.len();
    let mut i: usize = 0;
    while i < n
        invariant
            n == items@.len(),
            0 <= i <= n,
            out@ == old(out)@ + spec_enc_u64(n as u64) + wire_concat::<T>(
                wviews(items@).take(i as int),
            ),
        decreases n - i,
    {
        proof {
            assert(wviews(items@).take(i + 1 as int) =~= wviews(items@).take(i as int).push(
                items@[i as int].wview(),
            ));
            lemma_wire_concat_push::<T>(
                wviews(items@).take(i as int),
                items@[i as int].wview(),
            );
        }
        T::enc(out, &items[i]);
        proof {
            assert(out@ =~= old(out)@ + spec_enc_u64(n as u64) + wire_concat::<T>(
                wviews(items@).take(i + 1 as int),
            ));
        }
        i += 1;
    }
    proof {
        assert(wviews(items@).take(n as int) =~= wviews(items@));
        assert(out@ =~= old(out)@ + wire_enc_list::<T>(wviews(items@)));
    }
}

/// Reads a vector of wire values at `pos`, exactly as the specification
/// list decoder does.
pub fn wire_dec_vec<T: Wire>(s: &Vec<u8>, pos: usize) -> (r: Option<(Vec<T>, usize)>)
    ensures
        (match r {
            None => wire_dec_list::<T>(s@, pos as int) is None,
            Some((v, p)) => wire_dec_list::<T>(s@, pos as int) == Some((wviews(v@), p as int)),
        }),
{
    let (n, mut cur): (u64, usize) = match dec_u64(s, pos) {
        None => {
            return None;
        },
        Some(x) => x,
    };
    let mut acc: Vec<T> = Vec::new();
    let mut k: u64 = 0;
    proof {
        assert(wviews(acc@) =~= Seq::<T::VV>::empty());
    }
    while k < n
        invariant
            0 <= k <= n,
            acc@.len() == k,
            wire_dec_list::<T>(s@, pos as int) == (match wire_dec_many::<T>(
                s@,
                cur as int,
                (n - k) as nat,
            ) {
                None => None::<(Seq<T::VV>, int)>,
                Some((xs, q)) => Some((wviews(acc@) + xs, q)),
            }),
        decreases n - k,
    {
        match T::dec(s, cur) {
            None => {
                return None;
            },
            Some((x, p)) => {
                let ghost pre_acc = acc@;
                acc.push(x);
                proof {
                    assert(wviews(acc@) =~= wviews(pre_acc).push(x.wview()));
                    assert forall|xs: Seq<T::VV>|
                        true implies wviews(pre_acc) + (seq![x.wview()] + xs) =~= wviews(acc@)
                        + xs by {}
                }
                cur = p;
            },
        }
        k += 1;
    }
    proof {
        assert(wviews(acc@) + Seq::<T::VV>::empty() =~= wviews(acc@));
    }
    Some((acc, cur))
}

// ---------------------------------------------------------------------
// single bytes and length-prefixed byte strings
// ---------------------------------------------------------------------
/// The one-byte encoding of `v`.
pub open spec fn spec_enc_u8(v: u8) -> Seq<u8> {
    seq![v]
}

/// A byte read at `pos`.
pub open spec fn spec_dec_u8(s: Seq<u8>, pos: int) -> Option<(u8, int)> {
    if 0 <= pos && pos + 1 <= s.len() {
        Some((s[pos], pos + 1))
    } else {
        None
    }
}

/// Decoding at the start of an encoding of `v` yields `v`.
pub proof fn lemma_dec_u8(s: Seq<u8>, pos: int, v: u8)
    requires
        0 <= pos,
        pos + 1 <= s.len(),
        s.subrange(pos, pos + 1) == spec_enc_u8(v),
    ensures
        spec_dec_u8(s, pos) == Some((v, pos + 1)),
{
    assert(s[pos] == spec_enc_u8(v)[0]);
}

/// Appends the byte `v`.
pub fn enc_u8(out: &mut Vec<u8>, v: u8)
    ensures
        final(out)@ == old(out)@ + spec_enc_u8(v),
{
    out.push(v);
    proof {
        assert(final(out)@ =~= old(out)@ + spec_enc_u8(v));
    }
}

/// Reads a byte at `pos`.
pub fn dec_u8(s: &Vec<u8>, pos: usize) -> (r: Option<(u8, usize)>)
    ensures
        dec_matches(r, spec_dec_u8(s@, pos as int)),
{
    if pos < s.len() {
        Some((s[pos], pos + 1))
    } else {
        None
    }
}

/// The bytes of `s` from `p` on, `n` of them.
fn read_bytes(s: &Vec<u8>, p: usize, n: usize) -> (r: Vec<u8>)
    requires
        p + n <= s@.len(),
    ensures
        r@ == s@.subrange(p as int, p + n),
    {
    let total: usize = s.len();
    let mut out: Vec<u8> = Vec::new();
    let mut i: usize = 0;
    while i < n
        invariant
            total == s@.len(),
            p + n <= total,
            0 <= i <= n,
            out@ =~= s@.subrange(p as int, p + i),
        decreases n - i,
    {
        out.push(s[p + i]);
        proof {
            assert(out@ =~= s@.subrange(p as int, p + i + 1));
        }
        i += 1;
    }
    out
}

impl Wire for Vec<u8> {
    type VV = Seq<u8>;

    open spec fn wview(&self) -> Seq<u8> {
        self@
    }

    open spec fn wenc(v: Seq<u8>) -> Seq<u8> {
        spec_enc_u64(v.len() as u64) + v
    }

    open spec fn wdec(s: Seq<u8>, pos: int) -> Option<(Seq<u8>, int)> {
        match spec_dec_u64(s, pos) {
            None => None,
            Some((n, p)) => if p + n <= s.len() {
                Some((s.subrange(p, p + n as int), p + n))
            } else {
                None
            },
        }
    }

    open spec fn wvalid(v: Seq<u8>) -> bool {
        v.len() <= u64::MAX
    }

    fn enc(out: &mut Vec<u8>, x: &Vec<u8>)
        ensures
            final(out)@ == old(out)@ + Self::wenc(x.wview()),
    {
        enc_u64(out, x.len() as u64);
        let n: usize = x.len();
        let mut i: usize = 0;
        while i < n
            invariant
                n == x@.len(),
                0 <= i <= n,
                out@ =~= old(out)@ + spec_enc_u64(n as u64) + x@.take(i as int),
            decreases n - i,
        {
            out.push(x[i]);
            proof {
                assert(out@ =~= old(out)@ + spec_enc_u64(n as u64) + x@.take(i + 1 as int));
            }
            i += 1;
        }
        proof {
            assert(x@.take(n as int) =~= x@);
            assert(out@ =~= old(out)@ + Self::wenc(x@));
        }
    }

    fn dec(s: &Vec<u8>, pos: usize) -> (r: Option<(Vec<u8>, usize)>)
        ensures
            (match r {
                None => Self::wdec(s@, pos as int) is None,
                Some((x, p)) => Self::wdec(s@, pos as int) == Some((x.wview(), p as int)),
            }),
    {
        let (n, p): (u64, usize) = match dec_u64(s, pos) {
            None => {
                return None;
            },
            Some(x) => x,
        };
        if n <= (s.len() - p) as u64 {
            let nn: usize = n as usize;
            Some((read_bytes(s, p, nn), p + nn))
        } else {
            None
        }
    }

    proof fn wrt(s: Seq<u8>, pos: int, v: Seq<u8>)
    {
        let lenb = spec_enc_u64(v.len() as u64);
        lemma_subrange_split(s, pos, lenb, v);
        lemma_dec_u64(s, pos, v.len() as u64);
    }
}

impl Wire for u32 {
    type VV = u32;

    open spec fn wview(&self) -> u32 {
        *self
    }

    open spec fn wenc(v: u32) -> Seq<u8> {
        spec_enc_u32(v)
    }

    open spec fn wdec(s: Seq<u8>, pos: int) -> Option<(u32, int)> {
        spec_dec_u32(s, pos)
    }

    open spec fn wvalid(v: u32) -> bool {
        true
    }

    fn enc(out: &mut Vec<u8>, x: &u32)
        ensures
            final(out)@ == old(out)@ + Self::wenc(x.wview()),
    {
        enc_u32(out, *x);
    }

    fn dec(s: &Vec<u8>, pos: usize) -> (r: Option<(u32, usize)>)
        ensures
            (match r {
                None => Self::wdec(s@, pos as int) is None,
                Some((x, p)) => Self::wdec(s@, pos as int) == Some((x.wview(), p as int)),
            }),
    {
        dec_u32(s, pos)
    }

    proof fn wrt(s: Seq<u8>, pos: int, v: u32)
    {
        lemma_dec_u32(s, pos, v);
    }
}

impl Wire for ValType {
    type VV = ValType;

    open spec fn wview(&self) -> ValType {
        *self
    }

    open spec fn wenc(v: ValType) -> Seq<u8> {
        match v {
            ValType::I32 => seq![0x7fu8],
            ValType::I64 => seq![0x7eu8],
        }
    }

    open spec fn wdec(s: Seq<u8>, pos: int) -> Option<(ValType, int)> {
        match spec_dec_u8(s, pos) {
            None => None,
            Some((b, p)) => if b == 0x7f {
                Some((ValType::I32, p))
            } else if b == 0x7e {
                Some((ValType::I64, p))
            } else {
                None
            },
        }
    }

    open spec fn wvalid(v: ValType) -> bool {
        true
    }

    fn enc(out: &mut Vec<u8>, x: &ValType)
        ensures
            final(out)@ == old(out)@ + Self::wenc(x.wview()),
    {
        match x {
            ValType::I32 => enc_u8(out, 0x7f),
            ValType::I64 => enc_u8(out, 0x7e),
        }
        proof {
            assert(final(out)@ =~= old(out)@ + Self::wenc(*x));
        }
    }

    fn dec(s: &Vec<u8>, pos: usize) -> (r: Option<(ValType, usize)>)
        ensures
            (match r {
                None => Self::wdec(s@, pos as int) is None,
                Some((x, p)) => Self::wdec(s@, pos as int) == Some((x.wview(), p as int)),
            }),
    {
        match dec_u8(s, pos) {
            None => None,
            Some((b, p)) => if b == 0x7f {
                Some((ValType::I32, p))
            } else if b == 0x7e {
                Some((ValType::I64, p))
            } else {
                None
            },
        }
    }

    proof fn wrt(s: Seq<u8>, pos: int, v: ValType)
    {
        lemma_dec_u8(s, pos, Self::wenc(v)[0]);
        assert(s.subrange(pos, pos + 1)[0] == Self::wenc(v)[0]);
    }
}

impl Wire for Value {
    type VV = Value;

    open spec fn wview(&self) -> Value {
        *self
    }

    open spec fn wenc(v: Value) -> Seq<u8> {
        match v {
            Value::I32(x) => seq![0x7fu8] + spec_enc_u32(x as u32),
            Value::I64(x) => seq![0x7eu8] + spec_enc_u64(x as u64),
        }
    }

    open spec fn wdec(s: Seq<u8>, pos: int) -> Option<(Value, int)> {
        match spec_dec_u8(s, pos) {
            None => None,
            Some((b, p)) => if b == 0x7f {
                match spec_dec_u32(s, p) {
                    None => None,
                    Some((x, q)) => Some((Value::I32(x as i32), q)),
                }
            } else if b == 0x7e {
                match spec_dec_u64(s, p) {
                    None => None,
                    Some((x, q)) => Some((Value::I64(x as i64), q)),
                }
            } else {
                None
            },
        }
    }

    open spec fn wvalid(v: Value) -> bool {
        true
    }

    fn enc(out: &mut Vec<u8>, x: &Value)
        ensures
            final(out)@ == old(out)@ + Self::wenc(x.wview()),
    {
        match x {
            Value::I32(v) => {
                enc_u8(out, 0x7f);
                enc_u32(out, *v as u32);
            },
            Value::I64(v) => {
                enc_u8(out, 0x7e);
                enc_u64(out, *v as u64);
            },
        }
        proof {
            assert(final(out)@ =~= old(out)@ + Self::wenc(*x));
        }
    }

    fn dec(s: &Vec<u8>, pos: usize) -> (r: Option<(Value, usize)>)
        ensures
            (match r {
                None => Self::wdec(s@, pos as int) is None,
                Some((x, p)) => Self::wdec(s@, pos as int) == Some((x.wview(), p as int)),
            }),
    {
        match dec_u8(s, pos) {
            None => None,
            Some((b, p)) => if b == 0x7f {
                match dec_u32(s, p) {
                    None => None,
                    Some((x, q)) => Some((Value::I32(x as i32), q)),
                }
            } else if b == 0x7e {
                match dec_u64(s, p) {
                    None => None,
                    Some((x, q)) => Some((Value::I64(x as i64), q)),
                }
            } else {
                None
            },
        }
    }

    proof fn wrt(s: Seq<u8>, pos: int, v: Value)
    {
        match v {
            Value::I32(x) => {
                let tag = seq![0x7fu8];
                let body = spec_enc_u32(x as u32);
                lemma_subrange_split(s, pos, tag, body);
                lemma_dec_u8(s, pos, 0x7f);
                lemma_dec_u32(s, pos + 1, x as u32);
                assert(x as u32 as i32 == x) by (bit_vector);
            },
            Value::I64(x) => {
                let tag = seq![0x7eu8];
                let body = spec_enc_u64(x as u64);
                lemma_subrange_split(s, pos, tag, body);
                lemma_dec_u8(s, pos, 0x7e);
                lemma_dec_u64(s, pos + 1, x as u64);
                assert(x as u64 as i64 == x) by (bit_vector);
            },
        }
    }
}

impl Wire for GlobalType {
    type VV = GlobalType;

    open spec fn wview(&self) -> GlobalType {
        *self
    }

    open spec fn wenc(v: GlobalType) -> Seq<u8> {
        <ValType as Wire>::wenc(v.ty) + seq![if v.mutable { 1u8 } else { 0u8 }]
    }

    open spec fn wdec(s: Seq<u8>, pos: int) -> Option<(GlobalType, int)> {
        match <ValType as Wire>::wdec(s, pos) {
            None => None,
            Some((ty, p)) => match spec_dec_u8(s, p) {
                None => None,
                Some((b, q)) => if b == 1 {
                    Some((GlobalType { ty, mutable: true }, q))
                } else if b == 0 {
                    Some((GlobalType { ty, mutable: false }, q))
                } else {
                    None
                },
            },
        }
    }

    open spec fn wvalid(v: GlobalType) -> bool {
        true
    }

    fn enc(out: &mut Vec<u8>, x: &GlobalType)
        ensures
            final(out)@ == old(out)@ + Self::wenc(x.wview()),
    {
        <ValType as Wire>::enc(out, &x.ty);
        enc_u8(out, if x.mutable { 1 } else { 0 });
        proof {
            assert(final(out)@ =~= old(out)@ + Self::wenc(*x));
        }
    }

    fn dec(s: &Vec<u8>, pos: usize) -> (r: Option<(GlobalType, usize)>)
        ensures
            (match r {
                None => Self::wdec(s@, pos as int) is None,
                Some((x, p)) => Self::wdec(s@, pos as int) == Some((x.wview(), p as int)),
            }),
    {
        match <ValType as Wire>::dec(s, pos) {
            None => None,
            Some((ty, p)) => match dec_u8(s, p) {
                None => None,
                Some((b, q)) => if b == 1 {
                    Some((GlobalType { ty, mutable: true }, q))
                } else if b == 0 {
                    Some((GlobalType { ty, mutable: false }, q))
                } else {
                    None
                },
            },
        }
    }

    proof fn wrt(s: Seq<u8>, pos: int, v: GlobalType)
    {
        let a = <ValType as Wire>::wenc(v.ty);
        let b = seq![if v.mutable { 1u8 } else { 0u8 }];
        lemma_subrange_split(s, pos, a, b);
        <ValType as Wire>::wrt(s, pos, v.ty);
        lemma_dec_u8(s, pos + a.len(), b[0]);
    }
}

/// The encoding of an optional `u32` bound.
pub open spec fn spec_enc_opt_u32(v: Option<u32>) -> Seq<u8> {
    match v {
        None => seq![0u8],
        Some(x) => seq![1u8] + spec_enc_u32(x),
    }
}

/// An optional `u32` bound read at `pos`.
pub open spec fn spec_dec_opt_u32(s: Seq<u8>, pos: int) -> Option<(Option<u32>, int)> {
    match spec_dec_u8(s, pos) {
        None => None,
        Some((b, p)) => if b == 0 {
            Some((None, p))
        } else if b == 1 {
            match spec_dec_u32(s, p) {
                None => None,
                Some((x, q)) => Some((Some(x), q)),
            }
        } else {
            None
        },
    }
}

/// Decoding at the start of an encoding of `v` yields `v`.
pub proof fn lemma_dec_opt_u32(s: Seq<u8>, pos: int, v: Option<u32>)
    requires
        0 <= pos,
        pos + spec_enc_opt_u32(v).len() <= s.len(),
        s.subrange(pos, pos + spec_enc_opt_u32(v).len()) == spec_enc_opt_u32(v),
    ensures
        spec_dec_opt_u32(s, pos) == Some((v, pos + spec_enc_opt_u32(v).len())),
{
    match v {
        None => {
            lemma_dec_u8(s, pos, 0);
        },
        Some(x) => {
            lemma_subrange_split(s, pos, seq![1u8], spec_enc_u32(x));
            lemma_dec_u8(s, pos, 1);
            lemma_dec_u32(s, pos + 1, x);
        },
    }
}

/// Appends the encoding of an optional bound.
pub fn enc_opt_u32(out: &mut Vec<u8>, v: &Option<u32>)
    ensures
        final(out)@ == old(out)@ + spec_enc_opt_u32(*v),
{
    match v {
        None => enc_u8(out, 0),
        Some(x) => {
            enc_u8(out, 1);
            enc_u32(out, *x);
        },
    }
    proof {
        assert(final(out)@ =~= old(out)@ + spec_enc_opt_u32(*v));
    }
}

/// Reads an optional bound at `pos`.
pub fn dec_opt_u32(s: &Vec<u8>, pos: usize) -> (r: Option<(Option<u32>, usize)>)
    ensures
        dec_matches(r, spec_dec_opt_u32(s@, pos as int)),
{
    match dec_u8(s, pos) {
        None => None,
        Some((b, p)) => if b == 0 {
            Some((None, p))
        } else if b == 1 {
            match dec_u32(s, p) {
                None => None,
                Some((x, q)) => Some((Some(x), q)),
            }
        } else {
            None
        },
    }
}

impl Wire for MemoryType {
    type VV = MemoryType;

    open spec fn wview(&self) -> MemoryType {
        *self
    }

    open spec fn wenc(v: MemoryType) -> Seq<u8> {
        spec_enc_u32(v.minimum) + spec_enc_opt_u32(v.maximum)
    }

    open spec fn wdec(s: Seq<u8>, pos: int) -> Option<(MemoryType, int)> {
        match spec_dec_u32(s, pos) {
            None => None,
            Some((mn, p)) => match spec_dec_opt_u32(s, p) {
                None => None,
                Some((mx, q)) => Some((MemoryType { minimum: mn, maximum: mx }, q)),
            },
        }
    }

    open spec fn wvalid(v: MemoryType) -> bool {
        true
    }

    fn enc(out: &mut Vec<u8>, x: &MemoryType)
        ensures
            final(out)@ == old(out)@ + Self::wenc(x.wview()),
    {
        enc_u32(out, x.minimum);
        enc_opt_u32(out, &x.maximum);
        proof {
            assert(final(out)@ =~= old(out)@ + Self::wenc(*x));
        }
    }

    fn dec(s: &Vec<u8>, pos: usize) -> (r: Option<(MemoryType, usize)>)
        ensures
            (match r {
                None => Self::wdec(s@, pos as int) is None,
                Some((x, p)) => Self::wdec(s@, pos as int) == Some((x.wview(), p as int)),
            }),
    {
        match dec_u32(s, pos) {
            None => None,
            Some((mn, p)) => match dec_opt_u32(s, p) {
                None => None,
                Some((mx, q)) => Some((MemoryType { minimum: mn, maximum: mx }, q)),
            },
        }
    }

    proof fn wrt(s: Seq<u8>, pos: int, v: MemoryType)
    {
        let a = spec_enc_u32(v.minimum);
        let b = spec_enc_opt_u32(v.maximum);
        lemma_subrange_split(s, pos, a, b);
        lemma_dec_u32(s, pos, v.minimum);
        lemma_dec_opt_u32(s, pos + 4, v.maximum);
    }
}

impl Wire for TableType {
    type VV = TableType;

    open spec fn wview(&self) -> TableType {
        *self
    }

    open spec fn wenc(v: TableType) -> Seq<u8> {
        spec_enc_u32(v.minimum) + spec_enc_opt_u32(v.maximum)
    }

    open spec fn wdec(s: Seq<u8>, pos: int) -> Option<(TableType, int)> {
        match spec_dec_u32(s, pos) {
            None => None,
            Some((mn, p)) => match spec_dec_opt_u32(s, p) {
                None => None,
                Some((mx, q)) => Some((TableType { minimum: mn, maximum: mx }, q)),
            },
        }
    }

    open spec fn wvalid(v: TableType) -> bool {
        true
    }

    fn enc(out: &mut Vec<u8>, x: &TableType)
        ensures
            final(out)@ == old(out)@ + Self::wenc(x.wview()),
    {
        enc_u32(out, x.minimum);
        enc_opt_u32(out, &x.maximum);
        proof {
            assert(final(out)@ =~= old(out)@ + Self::wenc(*x));
        }
    }

    fn dec(s: &Vec<u8>, pos: usize) -> (r: Option<(TableType, usize)>)
        ensures
            (match r {
                None => Self::wdec(s@, pos as int) is None,
                Some((x, p)) => Self::wdec(s@, pos as int) == Some((x.wview(), p as int)),
            }),
    {
        match dec_u32(s, pos) {
            None => None,
            Some((mn, p)) => match dec_opt_u32(s, p) {
                None => None,
                Some((mx, q)) => Some((TableType { minimum: mn, maximum: mx }, q)),
            },
        }
    }

    proof fn wrt(s: Seq<u8>, pos: int, v: TableType)
    {
        let a = spec_enc_u32(v.minimum);
        let b = spec_enc_opt_u32(v.maximum);
        lemma_subrange_split(s, pos, a, b);
        lemma_dec_u32(s, pos, v.minimum);
        lemma_dec_opt_u32(s, pos + 4, v.maximum);
    }
}

impl Wire for ExternType {
    type VV = ExternType;

    open spec fn wview(&self) -> ExternType {
        *self
    }

    open spec fn wenc(v: ExternType) -> Seq<u8> {
        match v {
            ExternType::Function(i) => seq![0u8] + spec_enc_u32(i),
            ExternType::Global(g) => seq![1u8] + <GlobalType as Wire>::wenc(g),
            ExternType::Memory(m) => seq![2u8] + <MemoryType as Wire>::wenc(m),
            ExternType::Table(t) => seq![3u8] + <TableType as Wire>::wenc(t),
        }
    }

    open spec fn wdec(s: Seq<u8>, pos: int) -> Option<(ExternType, int)> {
        match spec_dec_u8(s, pos) {
            None => None,
            Some((b, p)) => if b == 0 {
                match spec_dec_u32(s, p) {
                    None => None,
                    Some((i, q)) => Some((ExternType::Function(i), q)),
                }
            } else if b == 1 {
                match <GlobalType as Wire>::wdec(s, p) {
                    None => None,
                    Some((g, q)) => Some((ExternType::Global(g), q)),
                }
            } else if b == 2 {
                match <MemoryType as Wire>::wdec(s, p) {
                    None => None,
                    Some((m, q)) => Some((ExternType::Memory(m), q)),
                }
            } else if b == 3 {
                match <TableType as Wire>::wdec(s, p) {
                    None => None,
                    Some((t, q)) => Some((ExternType::Table(t), q)),
                }
            } else {
                None
            },
        }
    }

    open spec fn wvalid(v: ExternType) -> bool {
        true
    }

    fn enc(out: &mut Vec<u8>, x: &ExternType)
        ensures
            final(out)@ == old(out)@ + Self::wenc(x.wview()),
    {
        match x {
            ExternType::Function(i) => {
                enc_u8(out, 0);
                enc_u32(out, *i);
            },
            ExternType::Global(g) => {
                enc_u8(out, 1);
                <GlobalType as Wire>::enc(out, g);
            },
            ExternType::Memory(m) => {
                enc_u8(out, 2);
                <MemoryType as Wire>::enc(out, m);
            },
            ExternType::Table(t) => {
                enc_u8(out, 3);
                <TableType as Wire>::enc(out, t);
            },
        }
        proof {
            assert(final(out)@ =~= old(out)@ + Self::wenc(*x));
        }
    }

    fn dec(s: &Vec<u8>, pos: usize) -> (r: Option<(ExternType, usize)>)
        ensures
            (match r {
                None => Self::wdec(s@, pos as int) is None,
                Some((x, p)) => Self::wdec(s@, pos as int) == Some((x.wview(), p as int)),
            }),
    {
        match dec_u8(s, pos) {
            None => None,
            Some((b, p)) => if b == 0 {
                match dec_u32(s, p) {
                    None => None,
                    Some((i, q)) => Some((ExternType::Function(i), q)),
                }
            } else if b == 1 {
                match <GlobalType as Wire>::dec(s, p) {
                    None => None,
                    Some((g, q)) => Some((ExternType::Global(g), q)),
                }
            } else if b == 2 {
                match <MemoryType as Wire>::dec(s, p) {
                    None => None,
                    Some((m, q)) => Some((ExternType::Memory(m), q)),
                }
            } else if b == 3 {
                match <TableType as Wire>::dec(s, p) {
                    None => None,
                    Some((t, q)) => Some((ExternType::Table(t), q)),
                }
            } else {
                None
            },
        }
    }

    proof fn wrt(s: Seq<u8>, pos: int, v: ExternType)
    {
        match v {
            ExternType::Function(i) => {
                lemma_subrange_split(s, pos, seq![0u8], spec_enc_u32(i));
                lemma_dec_u8(s, pos, 0);
                lemma_dec_u32(s, pos + 1, i);
            },
            ExternType::Global(g) => {
                lemma_subrange_split(s, pos, seq![1u8], <GlobalType as Wire>::wenc(g));
                lemma_dec_u8(s, pos, 1);
                <GlobalType as Wire>::wrt(s, pos + 1, g);
            },
            ExternType::Memory(m) => {
                lemma_subrange_split(s, pos, seq![2u8], <MemoryType as Wire>::wenc(m));
                lemma_dec_u8(s, pos, 2);
                <MemoryType as Wire>::wrt(s, pos + 1, m);
            },
            ExternType::Table(t) => {
                lemma_subrange_split(s, pos, seq![3u8], <TableType as Wire>::wenc(t));
                lemma_dec_u8(s, pos, 3);
                <TableType as Wire>::wrt(s, pos + 1, t);
            },
        }
    }
}

/// A sequence of self-shaped wire values is its own sequence of shapes.
proof fn lemma_wviews_valtypes(s: Seq<ValType>)
    ensures
        wviews::<ValType>(s) == s,
{
    assert(wviews::<ValType>(s) =~= s);
}

/// A sequence of self-shaped wire values is its own sequence of shapes.
proof fn lemma_wviews_u32s(s: Seq<u32>)
    ensures
        wviews::<u32>(s) == s,
{
    assert(wviews::<u32>(s) =~= s);
}

impl Wire for FunctionType {
    type VV = FunctionTypeV;

    open spec fn wview(&self) -> FunctionTypeV {
        self@
    }

    open spec fn wenc(v: FunctionTypeV) -> Seq<u8> {
        wire_enc_list::<ValType>(v.params) + wire_enc_list::<ValType>(v.results)
    }

    open spec fn wdec(s: Seq<u8>, pos: int) -> Option<(FunctionTypeV, int)> {
        match wire_dec_list::<ValType>(s, pos) {
            None => None,
            Some((params, p)) => match wire_dec_list::<ValType>(s, p) {
                None => None,
                Some((results, q)) => Some((FunctionTypeV { params, results }, q)),
            },
        }
    }

    open spec fn wvalid(v: FunctionTypeV) -> bool {
        v.params.len() <= u64::MAX && v.results.len() <= u64::MAX
    }

    fn enc(out: &mut Vec<u8>, x: &FunctionType)
        ensures
            final(out)@ == old(out)@ + Self::wenc(x.wview()),
    {
        wire_enc_vec::<ValType>(out, &x.params);
        wire_enc_vec::<ValType>(out, &x.results);
        proof {
            lemma_wviews_valtypes(x.params@);
            lemma_wviews_valtypes(x.results@);
            assert(final(out)@ =~= old(out)@ + Self::wenc(x@));
        }
    }

    fn dec(s: &Vec<u8>, pos: usize) -> (r: Option<(FunctionType, usize)>)
        ensures
            (match r {
                None => Self::wdec(s@, pos as int) is None,
                Some((x, p)) => Self::wdec(s@, pos as int) == Some((x.wview(), p as int)),
            }),
    {
        match wire_dec_vec::<ValType>(s, pos) {
            None => None,
            Some((params, p)) => match wire_dec_vec::<ValType>(s, p) {
                None => None,
                Some((results, q)) => {
                    proof {
                        lemma_wviews_valtypes(params@);
                        lemma_wviews_valtypes(results@);
                    }
                    Some((FunctionType { params, results }, q))
                },
            },
        }
    }

    proof fn wrt(s: Seq<u8>, pos: int, v: FunctionTypeV)
    {
        let a = wire_enc_list::<ValType>(v.params);
        let b = wire_enc_list::<ValType>(v.results);
        lemma_subrange_split(s, pos, a, b);
        lemma_wire_dec_list::<ValType>(s, pos, v.params);
        lemma_wire_dec_list::<ValType>(s, pos + a.len(), v.results);
    }
}

impl Wire for ImportDecl {
    type VV = ImportDeclV;

    open spec fn wview(&self) -> ImportDeclV {
        self@
    }

    open spec fn wenc(v: ImportDeclV) -> Seq<u8> {
        <Vec<u8> as Wire>::wenc(v.module) + <Vec<u8> as Wire>::wenc(v.field) + <ExternType as Wire>::wenc(v.ty)
    }

    open spec fn wdec(s: Seq<u8>, pos: int) -> Option<(ImportDeclV, int)> {
        match <Vec<u8> as Wire>::wdec(s, pos) {
            None => None,
            Some((module, p)) => match <Vec<u8> as Wire>::wdec(s, p) {
                None => None,
                Some((field, q)) => match <ExternType as Wire>::wdec(s, q) {
                    None => None,
                    Some((ty, r)) => Some((ImportDeclV { module, field, ty }, r)),
                },
            },
        }
    }

    open spec fn wvalid(v: ImportDeclV) -> bool {
        v.module.len() <= u64::MAX && v.field.len() <= u64::MAX
    }

    fn enc(out: &mut Vec<u8>, x: &ImportDecl)
        ensures
            final(out)@ == old(out)@ + Self::wenc(x.wview()),
    {
        <Vec<u8> as Wire>::enc(out, &x.module);
        <Vec<u8> as Wire>::enc(out, &x.field);
        <ExternType as Wire>::enc(out, &x.ty);
        proof {
            assert(final(out)@ =~= old(out)@ + Self::wenc(x@));
        }
    }

    fn dec(s: &Vec<u8>, pos: usize) -> (r: Option<(ImportDecl, usize)>)
        ensures
            (match r {
                None => Self::wdec(s@, pos as int) is None,
                Some((x, p)) => Self::wdec(s@, pos as int) == Some((x.wview(), p as int)),
            }),
    {
        match <Vec<u8> as Wire>::dec(s, pos) {
            None => None,
            Some((module, p)) => match <Vec<u8> as Wire>::dec(s, p) {
                None => None,
                Some((field, q)) => match <ExternType as Wire>::dec(s, q) {
                    None => None,
                    Some((ty, r)) => Some((ImportDecl { module, field, ty }, r)),
                },
            },
        }
    }

    proof fn wrt(s: Seq<u8>, pos: int, v: ImportDeclV)
    {
        let a = <Vec<u8> as Wire>::wenc(v.module);
        let b = <Vec<u8> as Wire>::wenc(v.field);
        let c = <ExternType as Wire>::wenc(v.ty);
        assert(Self::wenc(v) =~= a + (b + c));
        lemma_subrange_split(s, pos, a, b + c);
        <Vec<u8> as Wire>::wrt(s, pos, v.module);
        lemma_subrange_split(s, pos + a.len(), b, c);
        <Vec<u8> as Wire>::wrt(s, pos + a.len(), v.field);
        <ExternType as Wire>::wrt(s, pos + a.len() + b.len(), v.ty);
    }
}

impl Wire for ExportIndex {
    type VV = ExportIndex;

    open spec fn wview(&self) -> ExportIndex {
        *self
    }

    open spec fn wenc(v: ExportIndex) -> Seq<u8> {
        match v {
            ExportIndex::Function(i) => seq![0u8] + spec_enc_u32(i),
            ExportIndex::Table(i) => seq![1u8] + spec_enc_u32(i),
            ExportIndex::Memory(i) => seq![2u8] + spec_enc_u32(i),
            ExportIndex::Global(i) => seq![3u8] + spec_enc_u32(i),
        }
    }

    open spec fn wdec(s: Seq<u8>, pos: int) -> Option<(ExportIndex, int)> {
        match spec_dec_u8(s, pos) {
            None => None,
            Some((b, p)) => match spec_dec_u32(s, p) {
                None => None,
                Some((i, q)) => if b == 0 {
                    Some((ExportIndex::Function(i), q))
                } else if b == 1 {
                    Some((ExportIndex::Table(i), q))
                } else if b == 2 {
                    Some((ExportIndex::Memory(i), q))
                } else if b == 3 {
                    Some((ExportIndex::Global(i), q))
                } else {
                    None
                },
            },
        }
    }

    open spec fn wvalid(v: ExportIndex) -> bool {
        true
    }

    fn enc(out: &mut Vec<u8>, x: &ExportIndex)
        ensures
            final(out)@ == old(out)@ + Self::wenc(x.wview()),
    {
        match x {
            ExportIndex::Function(i) => {
                enc_u8(out, 0);
                enc_u32(out, *i);
            },
            ExportIndex::Table(i) => {
                enc_u8(out, 1);
                enc_u32(out, *i);
            },
            ExportIndex::Memory(i) => {
                enc_u8(out, 2);
                enc_u32(out, *i);
            },
            ExportIndex::Global(i) => {
                enc_u8(out, 3);
                enc_u32(out, *i);
            },
        }
        proof {
            assert(final(out)@ =~= old(out)@ + Self::wenc(*x));
        }
    }

    fn dec(s: &Vec<u8>, pos: usize) -> (r: Option<(ExportIndex, usize)>)
        ensures
            (match r {
                None => Self::wdec(s@, pos as int) is None,
                Some((x, p)) => Self::wdec(s@, pos as int) == Some((x.wview(), p as int)),
            }),
    {
        match dec_u8(s, pos) {
            None => None,
            Some((b, p)) => match dec_u32(s, p) {
                None => None,
                Some((i, q)) => if b == 0 {
                    Some((ExportIndex::Function(i), q))
                } else if b == 1 {
                    Some((ExportIndex::Table(i), q))
                } else if b == 2 {
                    Some((ExportIndex::Memory(i), q))
                } else if b == 3 {
                    Some((ExportIndex::Global(i), q))
                } else {
                    None
                },
            },
        }
    }

    proof fn wrt(s: Seq<u8>, pos: int, v: ExportIndex)
    {
        match v {
            ExportIndex::Function(i) => {
                lemma_subrange_split(s, pos, seq![0u8], spec_enc_u32(i));
                lemma_dec_u8(s, pos, 0);
                lemma_dec_u32(s, pos + 1, i);
            },
            ExportIndex::Table(i) => {
                lemma_subrange_split(s, pos, seq![1u8], spec_enc_u32(i));
                lemma_dec_u8(s, pos, 1);
                lemma_dec_u32(s, pos + 1, i);
            },
            ExportIndex::Memory(i) => {
                lemma_subrange_split(s, pos, seq![2u8], spec_enc_u32(i));
                lemma_dec_u8(s, pos, 2);
                lemma_dec_u32(s, pos + 1, i);
            },
            ExportIndex::Global(i) => {
                lemma_subrange_split(s, pos, seq![3u8], spec_enc_u32(i));
                lemma_dec_u8(s, pos, 3);
                lemma_dec_u32(s, pos + 1, i);
            },
        }
    }
}

impl Wire for ExportDecl {
    type VV = ExportDeclV;

    open spec fn wview(&self) -> ExportDeclV {
        self@
    }

    open spec fn wenc(v: ExportDeclV) -> Seq<u8> {
        <Vec<u8> as Wire>::wenc(v.name) + <ExportIndex as Wire>::wenc(v.index)
    }

    open spec fn wdec(s: Seq<u8>, pos: int) -> Option<(ExportDeclV, int)> {
        match <Vec<u8> as Wire>::wdec(s, pos) {
            None => None,
            Some((name, p)) => match <ExportIndex as Wire>::wdec(s, p) {
                None => None,
                Some((index, q)) => Some((ExportDeclV { name, index }, q)),
            },
        }
    }

    open spec fn wvalid(v: ExportDeclV) -> bool {
        v.name.len() <= u64::MAX
    }

    fn enc(out: &mut Vec<u8>, x: &ExportDecl)
        ensures
            final(out)@ == old(out)@ + Self::wenc(x.wview()),
    {
        <Vec<u8> as Wire>::enc(out, &x.name);
        <ExportIndex as Wire>::enc(out, &x.index);
        proof {
            assert(final(out)@ =~= old(out)@ + Self::wenc(x@));
        }
    }

    fn dec(s: &Vec<u8>, pos: usize) -> (r: Option<(ExportDecl, usize)>)
        ensures
            (match r {
                None => Self::wdec(s@, pos as int) is None,
                Some((x, p)) => Self::wdec(s@, pos as int) == Some((x.wview(), p as int)),
            }),
    {
        match <Vec<u8> as Wire>::dec(s, pos) {
            None => None,
            Some((name, p)) => match <ExportIndex as Wire>::dec(s, p) {
                None => None,
                Some((index, q)) => Some((ExportDecl { name, index }, q)),
            },
        }
    }

    proof fn wrt(s: Seq<u8>, pos: int, v: ExportDeclV)
    {
        let a = <Vec<u8> as Wire>::wenc(v.name);
        let b = <ExportIndex as Wire>::wenc(v.index);
        lemma_subrange_split(s, pos, a, b);
        <Vec<u8> as Wire>::wrt(s, pos, v.name);
        <ExportIndex as Wire>::wrt(s, pos + a.len(), v.index);
    }
}

impl Wire for GlobalDecl {
    type VV = GlobalDecl;

    open spec fn wview(&self) -> GlobalDecl {
        *self
    }

    open spec fn wenc(v: GlobalDecl) -> Seq<u8> {
        <GlobalType as Wire>::wenc(v.ty) + <Value as Wire>::wenc(v.init)
    }

    open spec fn wdec(s: Seq<u8>, pos: int) -> Option<(GlobalDecl, int)> {
        match <GlobalType as Wire>::wdec(s, pos) {
            None => None,
            Some((ty, p)) => match <Value as Wire>::wdec(s, p) {
                None => None,
                Some((init, q)) => Some((GlobalDecl { ty, init }, q)),
            },
        }
    }

    open spec fn wvalid(v: GlobalDecl) -> bool {
        true
    }

    fn enc(out: &mut Vec<u8>, x: &GlobalDecl)
        ensures
            final(out)@ == old(out)@ + Self::wenc(x.wview()),
    {
        <GlobalType as Wire>::enc(out, &x.ty);
        <Value as Wire>::enc(out, &x.init);
        proof {
            assert(final(out)@ =~= old(out)@ + Self::wenc(*x));
        }
    }

    fn dec(s: &Vec<u8>, pos: usize) -> (r: Option<(GlobalDecl, usize)>)
        ensures
            (match r {
                None => Self::wdec(s@, pos as int) is None,
                Some((x, p)) => Self::wdec(s@, pos as int) == Some((x.wview(), p as int)),
            }),
    {
        match <GlobalType as Wire>::dec(s, pos) {
            None => None,
            Some((ty, p)) => match <Value as Wire>::dec(s, p) {
                None => None,
                Some((init, q)) => Some((GlobalDecl { ty, init }, q)),
            },
        }
    }

    proof fn wrt(s: Seq<u8>, pos: int, v: GlobalDecl)
    {
        let a = <GlobalType as Wire>::wenc(v.ty);
        let b = <Value as Wire>::wenc(v.init);
        lemma_subrange_split(s, pos, a, b);
        <GlobalType as Wire>::wrt(s, pos, v.ty);
        <Value as Wire>::wrt(s, pos + a.len(), v.init);
    }
}

impl Wire for ElemSegment {
    type VV = ElemSegmentV;

    open spec fn wview(&self) -> ElemSegmentV {
        self@
    }

    open spec fn wenc(v: ElemSegmentV) -> Seq<u8> {
        spec_enc_u32(v.table) + spec_enc_u32(v.offset) + wire_enc_list::<u32>(v.entries)
    }

    open spec fn wdec(s: Seq<u8>, pos: int) -> Option<(ElemSegmentV, int)> {
        match spec_dec_u32(s, pos) {
            None => None,
            Some((table, p)) => match spec_dec_u32(s, p) {
                None => None,
                Some((offset, q)) => match wire_dec_list::<u32>(s, q) {
                    None => None,
                    Some((entries, r)) => Some((ElemSegmentV { table, offset, entries }, r)),
                },
            },
        }
    }

    open spec fn wvalid(v: ElemSegmentV) -> bool {
        v.entries.len() <= u64::MAX
    }

    fn enc(out: &mut Vec<u8>, x: &ElemSegment)
        ensures
            final(out)@ == old(out)@ + Self::wenc(x.wview()),
    {
        enc_u32(out, x.table);
        enc_u32(out, x.offset);
        wire_enc_vec::<u32>(out, &x.entries);
        proof {
            lemma_wviews_u32s(x.entries@);
            assert(final(out)@ =~= old(out)@ + Self::wenc(x@));
        }
    }

    fn dec(s: &Vec<u8>, pos: usize) -> (r: Option<(ElemSegment, usize)>)
        ensures
            (match r {
                None => Self::wdec(s@, pos as int) is None,
                Some((x, p)) => Self::wdec(s@, pos as int) == Some((x.wview(), p as int)),
            }),
    {
        match dec_u32(s, pos) {
            None => None,
            Some((table, p)) => match dec_u32(s, p) {
                None => None,
                Some((offset, q)) => match wire_dec_vec::<u32>(s, q) {
                    None => None,
                    Some((entries, r)) => {
                        proof {
                            lemma_wviews_u32s(entries@);
                        }
                        Some((ElemSegment { table, offset, entries }, r))
                    },
                },
            },
        }
    }

    proof fn wrt(s: Seq<u8>, pos: int, v: ElemSegmentV)
    {
        let a = spec_enc_u32(v.table);
        let b = spec_enc_u32(v.offset);
        let c = wire_enc_list::<u32>(v.entries);
        assert(Self::wenc(v) =~= a + (b + c));
        lemma_subrange_split(s, pos, a, b + c);
        lemma_dec_u32(s, pos, v.table);
        lemma_subrange_split(s, pos + 4, b, c);
        lemma_dec_u32(s, pos + 4, v.offset);
        lemma_wire_dec_list::<u32>(s, pos + 8, v.entries);
    }
}

impl Wire for DataSegment {
    type VV = DataSegmentV;

    open spec fn wview(&self) -> DataSegmentV {
        self@
    }

    open spec fn wenc(v: DataSegmentV) -> Seq<u8> {
        spec_enc_u32(v.memory) + spec_enc_u32(v.offset) + <Vec<u8> as Wire>::wenc(v.bytes)
    }

    open spec fn wdec(s: Seq<u8>, pos: int) -> Option<(DataSegmentV, int)> {
        match spec_dec_u32(s, pos) {
            None => None,
            Some((memory, p)) => match spec_dec_u32(s, p) {
                None => None,
                Some((offset, q)) => match <Vec<u8> as Wire>::wdec(s, q) {
                    None => None,
                    Some((bytes, r)) => Some((DataSegmentV { memory, offset, bytes }, r)),
                },
            },
        }
    }

    open spec fn wvalid(v: DataSegmentV) -> bool {
        v.bytes.len() <= u64::MAX
    }

    fn enc(out: &mut Vec<u8>, x: &DataSegment)
        ensures
            final(out)@ == old(out)@ + Self::wenc(x.wview()),
    {
        enc_u32(out, x.memory);
        enc_u32(out, x.offset);
        <Vec<u8> as Wire>::enc(out, &x.bytes);
        proof {
            assert(final(out)@ =~= old(out)@ + Self::wenc(x@));
        }
    }

    fn dec(s: &Vec<u8>, pos: usize) -> (r: Option<(DataSegment, usize)>)
        ensures
            (match r {
                None => Self::wdec(s@, pos as int) is None,
                Some((x, p)) => Self::wdec(s@, pos as int) == Some((x.wview(), p as int)),
            }),
    {
        match dec_u32(s, pos) {
            None => None,
            Some((memory, p)) => match dec_u32(s, p) {
                None => None,
                Some((offset, q)) => match <Vec<u8> as Wire>::dec(s, q) {
                    None => None,
                    Some((bytes, r)) => Some((DataSegment { memory, offset, bytes }, r)),
                },
            },
        }
    }

    proof fn wrt(s: Seq<u8>, pos: int, v: DataSegmentV)
    {
        let a = spec_enc_u32(v.memory);
        let b = spec_enc_u32(v.offset);
        let c = <Vec<u8> as Wire>::wenc(v.bytes);
        assert(Self::wenc(v) =~= a + (b + c));
        lemma_subrange_split(s, pos, a, b + c);
        lemma_dec_u32(s, pos, v.memory);
        lemma_subrange_split(s, pos + 4, b, c);
        lemma_dec_u32(s, pos + 4, v.offset);
        <Vec<u8> as Wire>::wrt(s, pos + 8, v.bytes);
    }
}

impl Wire for ModuleInfo {
    type VV = ModuleInfoV;

    open spec fn wview(&self) -> ModuleInfoV {
        self@
    }

    open spec fn wenc(v: ModuleInfoV) -> Seq<u8> {
        wire_enc_list::<FunctionType>(v.types) + (wire_enc_list::<ImportDecl>(v.imports) + (
        wire_enc_list::<u32>(v.functions) + (wire_enc_list::<ExportDecl>(v.exports) + (
        spec_enc_opt_u32(v.start) + (wire_enc_list::<GlobalDecl>(v.globals) + (wire_enc_list::<
            MemoryType,
        >(v.memories) + (wire_enc_list::<TableType>(v.tables) + (wire_enc_list::<ElemSegment>(
            v.elements,
        ) + wire_enc_list::<DataSegment>(v.data)))))))))
    }

    open spec fn wdec(s: Seq<u8>, pos: int) -> Option<(ModuleInfoV, int)> {
        match wire_dec_list::<FunctionType>(s, pos) {
            None => None,
            Some((types, p1)) => match wire_dec_list::<ImportDecl>(s, p1) {
                None => None,
                Some((imports, p2)) => match wire_dec_list::<u32>(s, p2) {
                    None => None,
                    Some((functions, p3)) => match wire_dec_list::<ExportDecl>(s, p3) {
                        None => None,
                        Some((exports, p4)) => match spec_dec_opt_u32(s, p4) {
                            None => None,
                            Some((start, p5)) => match wire_dec_list::<GlobalDecl>(s, p5) {
                                None => None,
                                Some((globals, p6)) => match wire_dec_list::<MemoryType>(s, p6) {
                                    None => None,
                                    Some((memories, p7)) => match wire_dec_list::<TableType>(
                                        s,
                                        p7,
                                    ) {
                                        None => None,
                                        Some((tables, p8)) => match wire_dec_list::<ElemSegment>(
                                            s,
                                            p8,
                                        ) {
                                            None => None,
                                            Some((elements, p9)) => match wire_dec_list::<
                                                DataSegment,
                                            >(s, p9) {
                                                None => None,
                                                Some((data, p10)) => Some(
                                                    (
                                                        ModuleInfoV {
                                                            types,
                                                            imports,
                                                            functions,
                                                            exports,
                                                            start,
                                                            globals,
                                                            memories,
                                                            tables,
                                                            elements,
                                                            data,
                                                        },
                                                        p10,
                                                    ),
                                                ),
                                            },
                                        },
                                    },
                                },
                            },
                        },
                    },
                },
            },
        }
    }

    open spec fn wvalid(v: ModuleInfoV) -> bool {
        &&& v.types.len() <= u64::MAX
        &&& forall|i: int|
            0 <= i < v.types.len() ==> <FunctionType as Wire>::wvalid(#[trigger] v.types[i])
        &&& v.imports.len() <= u64::MAX
        &&& forall|i: int|
            0 <= i < v.imports.len() ==> <ImportDecl as Wire>::wvalid(#[trigger] v.imports[i])
        &&& v.functions.len() <= u64::MAX
        &&& v.exports.len() <= u64::MAX
        &&& forall|i: int|
            0 <= i < v.exports.len() ==> <ExportDecl as Wire>::wvalid(#[trigger] v.exports[i])
        &&& v.globals.len() <= u64::MAX
        &&& v.memories.len() <= u64::MAX
        &&& v.tables.len() <= u64::MAX
        &&& v.elements.len() <= u64::MAX
        &&& forall|i: int|
            0 <= i < v.elements.len() ==> <ElemSegment as Wire>::wvalid(#[trigger] v.elements[i])
        &&& v.data.len() <= u64::MAX
        &&& forall|i: int|
            0 <= i < v.data.len() ==> <DataSegment as Wire>::wvalid(#[trigger] v.data[i])
    }

    #[verifier::rlimit(80)]
    fn enc(out: &mut Vec<u8>, x: &ModuleInfo)
        ensures
            final(out)@ == old(out)@ + Self::wenc(x.wview()),
    {
        wire_enc_vec::<FunctionType>(out, &x.types);
        wire_enc_vec::<ImportDecl>(out, &x.imports);
        wire_enc_vec::<u32>(out, &x.functions);
        wire_enc_vec::<ExportDecl>(out, &x.exports);
        enc_opt_u32(out, &x.start);
        wire_enc_vec::<GlobalDecl>(out, &x.globals);
        wire_enc_vec::<MemoryType>(out, &x.memories);
        wire_enc_vec::<TableType>(out, &x.tables);
        wire_enc_vec::<ElemSegment>(out, &x.elements);
        wire_enc_vec::<DataSegment>(out, &x.data);
        proof {
            assert(wviews::<FunctionType>(x.types@) =~= x@.types);
            assert(wviews::<ImportDecl>(x.imports@) =~= x@.imports);
            assert(wviews::<u32>(x.functions@) =~= x@.functions);
            assert(wviews::<ExportDecl>(x.exports@) =~= x@.exports);
            assert(wviews::<GlobalDecl>(x.globals@) =~= x@.globals);
            assert(wviews::<MemoryType>(x.memories@) =~= x@.memories);
            assert(wviews::<TableType>(x.tables@) =~= x@.tables);
            assert(wviews::<ElemSegment>(x.elements@) =~= x@.elements);
            assert(wviews::<DataSegment>(x.data@) =~= x@.data);
            assert(final(out)@ =~= old(out)@ + Self::wenc(x@));
        }
    }

    fn dec(s: &Vec<u8>, pos: usize) -> (r: Option<(ModuleInfo, usize)>)
        ensures
            (match r {
                None => Self::wdec(s@, pos as int) is None,
                Some((x, p)) => Self::wdec(s@, pos as int) == Some((x.wview(), p as int)),
            }),
    {
        let (types, p1) = match wire_dec_vec::<FunctionType>(s, pos) {
            None => {
                return None;
            },
            Some(x) => x,
        };
        let (imports, p2) = match wire_dec_vec::<ImportDecl>(s, p1) {
            None => {
                return None;
            },
            Some(x) => x,
        };
        let (functions, p3) = match wire_dec_vec::<u32>(s, p2) {
            None => {
                return None;
            },
            Some(x) => x,
        };
        let (exports, p4) = match wire_dec_vec::<ExportDecl>(s, p3) {
            None => {
                return None;
            },
            Some(x) => x,
        };
        let (start, p5) = match dec_opt_u32(s, p4) {
            None => {
                return None;
            },
            Some(x) => x,
        };
        let (globals, p6) = match wire_dec_vec::<GlobalDecl>(s, p5) {
            None => {
                return None;
            },
            Some(x) => x,
        };
        let (memories, p7) = match wire_dec_vec::<MemoryType>(s, p6) {
            None => {
                return None;
            },
            Some(x) => x,
        };
        let (tables, p8) = match wire_dec_vec::<TableType>(s, p7) {
            None => {
                return None;
            },
            Some(x) => x,
        };
        let (elements, p9) = match wire_dec_vec::<ElemSegment>(s, p8) {
            None => {
                return None;
            },
            Some(x) => x,
        };
        let (data, p10) = match wire_dec_vec::<DataSegment>(s, p9) {
            None => {
                return None;
            },
            Some(x) => x,
        };
        let info = ModuleInfo {
            types,
            imports,
            functions,
            exports,
            start,
            globals,
            memories,
            tables,
            elements,
            data,
        };
        proof {
            assert(wviews::<FunctionType>(info.types@) =~= info@.types);
            assert(wviews::<ImportDecl>(info.imports@) =~= info@.imports);
            assert(wviews::<u32>(info.functions@) =~= info@.functions);
            assert(wviews::<ExportDecl>(info.exports@) =~= info@.exports);
            assert(wviews::<GlobalDecl>(info.globals@) =~= info@.globals);
            assert(wviews::<MemoryType>(info.memories@) =~= info@.memories);
            assert(wviews::<TableType>(info.tables@) =~= info@.tables);
            assert(wviews::<ElemSegment>(info.elements@) =~= info@.elements);
            assert(wviews::<DataSegment>(info.data@) =~= info@.data);
        }
        Some((info, p10))
    }

    #[verifier::rlimit(80)]
    proof fn wrt(s: Seq<u8>, pos: int, v: ModuleInfoV)
    {
        let a1 = wire_enc_list::<FunctionType>(v.types);
        let a2 = wire_enc_list::<ImportDecl>(v.imports);
        let a3 = wire_enc_list::<u32>(v.functions);
        let a4 = wire_enc_list::<ExportDecl>(v.exports);
        let a5 = spec_enc_opt_u32(v.start);
        let a6 = wire_enc_list::<GlobalDecl>(v.globals);
        let a7 = wire_enc_list::<MemoryType>(v.memories);
        let a8 = wire_enc_list::<TableType>(v.tables);
        let a9 = wire_enc_list::<ElemSegment>(v.elements);
        let a10 = wire_enc_list::<DataSegment>(v.data);
        let p1 = pos + a1.len();
        let p2 = p1 + a2.len();
        let p3 = p2 + a3.len();
        let p4 = p3 + a4.len();
        let p5 = p4 + a5.len();
        let p6 = p5 + a6.len();
        let p7 = p6 + a7.len();
        let p8 = p7 + a8.len();
        let p9 = p8 + a9.len();
        lemma_subrange_split(s, pos, a1, a2 + (a3 + (a4 + (a5 + (a6 + (a7 + (a8 + (a9 + a10))))))));
        lemma_subrange_split(s, p1, a2, a3 + (a4 + (a5 + (a6 + (a7 + (a8 + (a9 + a10)))))));
        lemma_subrange_split(s, p2, a3, a4 + (a5 + (a6 + (a7 + (a8 + (a9 + a10))))));
        lemma_subrange_split(s, p3, a4, a5 + (a6 + (a7 + (a8 + (a9 + a10)))));
        lemma_subrange_split(s, p4, a5, a6 + (a7 + (a8 + (a9 + a10))));
        lemma_subrange_split(s, p5, a6, a7 + (a8 + (a9 + a10)));
        lemma_subrange_split(s, p6, a7, a8 + (a9 + a10));
        lemma_subrange_split(s, p7, a8, a9 + a10);
        lemma_subrange_split(s, p8, a9, a10);
        lemma_wire_dec_list::<FunctionType>(s, pos, v.types);
        lemma_wire_dec_list::<ImportDecl>(s, p1, v.imports);
        lemma_wire_dec_list::<u32>(s, p2, v.functions);
        lemma_wire_dec_list::<ExportDecl>(s, p3, v.exports);
        lemma_dec_opt_u32(s, p4, v.start);
        lemma_wire_dec_list::<GlobalDecl>(s, p5, v.globals);
        lemma_wire_dec_list::<MemoryType>(s, p6, v.memories);
        lemma_wire_dec_list::<TableType>(s, p7, v.tables);
        lemma_wire_dec_list::<ElemSegment>(s, p8, v.elements);
        lemma_wire_dec_list::<DataSegment>(s, p9, v.data);
    }
}

} // verus!
