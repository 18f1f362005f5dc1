//! Little-endian integer encoding and byte-buffer primitives shared by all
//! binary formats of the database.

use vstd::prelude::*;

verus! {

/// The little-endian `u16` stored at byte `p` of `s`.
pub open spec fn le16(s: Seq<u8>, p: int) -> u16 {
    (s[p] + 256 * s[p + 1]) as u16
}

/// The little-endian `u32` stored at byte `p` of `s`.
pub open spec fn le32(s: Seq<u8>, p: int) -> u32 {
    (s[p] + 256 * s[p + 1] + 65536 * s[p + 2] + 16777216 * s[p + 3]) as u32
}

/// The little-endian encoding of a `u16`.
pub open spec fn bytes16(x: u16) -> Seq<u8> {
    seq![(x % 256) as u8, (x / 256) as u8]
}

/// The little-endian encoding of a `u32`.
pub open spec fn bytes32(x: u32) -> Seq<u8> {
    seq![
        (x % 256) as u8,
        ((x / 256) % 256) as u8,
        ((x / 65536) % 256) as u8,
        (x / 16777216) as u8,
    ]
}

/// Decoding the encoding of `x`, wherever it stands in a sequence, gives `x`.
pub proof fn lemma_le16_bytes16(pre: Seq<u8>, x: u16, post: Seq<u8>)
    ensures
        le16(pre + bytes16(x) + post, pre.len() as int) == x,
        (pre + bytes16(x) + post).len() == pre.len() + 2 + post.len(),
{
    let s = pre + bytes16(x) + post;
    let p = pre.len() as int;
    assert(s[p] == (x % 256) as u8);
    assert(s[p + 1] == (x / 256) as u8);
}

/// Decoding the encoding of `x`, wherever it stands in a sequence, gives `x`.
pub proof fn lemma_le32_bytes32(pre: Seq<u8>, x: u32, post: Seq<u8>)
    ensures
        le32(pre + bytes32(x) + post, pre.len() as int) == x,
        (pre + bytes32(x) + post).len() == pre.len() + 4 + post.len(),
{
    let s = pre + bytes32(x) + post;
    let p = pre.len() as int;
    assert(s[p] == (x % 256) as u8);
    assert(s[p + 1] == ((x / 256) % 256) as u8);
    assert(s[p + 2] == ((x / 65536) % 256) as u8);
    assert(s[p + 3] == (x / 16777216) as u8);
    let a = x % 256;
    let b = (x / 256) % 256;
    let c = (x / 65536) % 256;
    let d = x / 16777216;
    assert(a + 256 * b + 65536 * c + 16777216 * d == x) by (nonlinear_arith)
        requires
            a == x % 256,
            b == (x / 256) % 256,
            c == (x / 65536) % 256,
            d == x / 16777216,
    ;
}

/// Four bytes at `p` that spell the encoding of `x` decode to `x`.
pub proof fn lemma_le32_sub(s: Seq<u8>, p: int, x: u32)
    requires
        0 <= p,
        p + 4 <= s.len(),
        s.subrange(p, p + 4) == bytes32(x),
    ensures
        le32(s, p) == x,
{
    assert(s =~= s.take(p) + bytes32(x) + s.skip(p + 4));
    lemma_le32_bytes32(s.take(p), x, s.skip(p + 4));
}

/// Two bytes at `p` that spell the encoding of `x` decode to `x`.
pub proof fn lemma_le16_sub(s: Seq<u8>, p: int, x: u16)
    requires
        0 <= p,
        p + 2 <= s.len(),
        s.subrange(p, p + 2) == bytes16(x),
    ensures
        le16(s, p) == x,
{
    assert(s =~= s.take(p) + bytes16(x) + s.skip(p + 2));
    lemma_le16_bytes16(s.take(p), x, s.skip(p + 2));
}

/// Reads the little-endian `u16` at `pos`.
pub fn read_u16(data: &[u8], pos: usize) -> (r: u16)
    requires
        pos + 2 <= data@.len(),
    ensures
        r == le16(data@, pos as int),
{
    data[pos] as u16 + 256 * (data[pos + 1] as u16)
}

/// Reads the little-endian `u32` at `pos`.
pub fn read_u32(data: &[u8], pos: usize) -> (r: u32)
    requires
        pos + 4 <= data@.len(),
    ensures
        r == le32(data@, pos as int),
{
    data[pos] as u32 + 256 * (data[pos + 1] as u32) + 65536 * (data[pos + 2] as u32) + 16777216
        * (data[pos + 3] as u32)
}

/// Appends the byte `x`.
pub fn push_u8(out: &mut Vec<u8>, x: u8)
    ensures
        final(out)@ == old(out)@ + seq![x],
{
    out.push(x);
    assert(final(out)@ =~= old(out)@ + seq![x]);
}

/// Appends the little-endian encoding of `x`.
pub fn push_u16(out: &mut Vec<u8>, x: u16)
    ensures
        final(out)@ == old(out)@ + bytes16(x),
{
    out.push((x % 256) as u8);
    out.push((x / 256) as u8);
    assert(final(out)@ =~= old(out)@ + bytes16(x));
}

/// Appends the little-endian encoding of `x`.
pub fn push_u32(out: &mut Vec<u8>, x: u32)
    ensures
        final(out)@ == old(out)@ + bytes32(x),
{
    out.push((x % 256) as u8);
    out.push(((x / 256) % 256) as u8);
    out.push(((x / 65536) % 256) as u8);
    out.push((x / 16777216) as u8);
    assert(final(out)@ =~= old(out)@ + bytes32(x));
}


/// A value with a self-delimiting binary encoding, described over its view.
pub trait Codec: View + Sized {
    /// The bytes that encode `v`.
    spec fn spec_bytes(v: Self::V) -> Seq<u8>;

    /// The value encoded at byte `p` of `s`, with the position just after it.
    spec fn spec_parse(s: Seq<u8>, p: int) -> Option<(Self::V, int)>;

    /// Values that the encoding can carry (and that decode back to themselves).
    spec fn spec_wf(v: Self::V) -> bool;

    /// Values that can be written at all.
    spec fn spec_writable(v: Self::V) -> bool;

    /// Decoding the encoding of a well-formed value, wherever it stands, gives
    /// the value back and stops right after its bytes.
    proof fn lemma_roundtrip(v: Self::V, pre: Seq<u8>, post: Seq<u8>)
        requires
            Self::spec_wf(v),
        ensures
            Self::spec_parse(pre + Self::spec_bytes(v) + post, pre.len() as int) == Some(
                (v, pre.len() + Self::spec_bytes(v).len() as int),
            ),
    ;

    /// A value decoded at `p` lies within `s`.
    proof fn lemma_parse_bounds(s: Seq<u8>, p: int)
        ensures
            Self::spec_parse(s, p) matches Some((v, e)) ==> 0 <= p <= e <= s.len(),
    ;

    /// A decoded value can be written again, and its encoding takes as many
    /// bytes as it was decoded from.
    proof fn lemma_parse_writable(s: Seq<u8>, p: int)
        requires
            s.len() <= usize::MAX,
        ensures
            Self::spec_parse(s, p) matches Some((v, e)) ==> Self::spec_writable(v)
                && Self::spec_bytes(v).len() == e - p,
    ;

    /// Decodes the value at `pos`.
    fn parse(data: &[u8], pos: usize) -> (r: Option<(Self, usize)>)
        requires
            pos <= data@.len(),
        ensures
            r is Some <==> Self::spec_parse(data@, pos as int) is Some,
            r matches Some((v, e)) ==> Self::spec_parse(data@, pos as int) == Some(
                (v@, e as int),
            ) && pos <= e <= data@.len(),
    ;

    /// Number of bytes of the encoding of `self`.
    fn byte_len(&self) -> (r: usize)
        requires
            Self::spec_writable(self@),
        ensures
            r == Self::spec_bytes(self@).len(),
    ;

    /// Appends the encoding of `self`.
    fn serialize(&self, out: &mut Vec<u8>)
        requires
            Self::spec_writable(self@),
        ensures
            final(out)@ == old(out)@ + Self::spec_bytes(self@),
    ;
}

impl Codec for u8 {
    open spec fn spec_bytes(v: u8) -> Seq<u8> {
        seq![v]
    }

    open spec fn spec_parse(s: Seq<u8>, p: int) -> Option<(u8, int)> {
        if 0 <= p && p + 1 <= s.len() {
            Some((s[p], p + 1))
        } else {
            None
        }
    }

    open spec fn spec_wf(v: u8) -> bool {
        true
    }

    open spec fn spec_writable(v: u8) -> bool {
        true
    }

    proof fn lemma_parse_bounds(s: Seq<u8>, p: int) {
    }

    proof fn lemma_parse_writable(s: Seq<u8>, p: int) {
    }

    proof fn lemma_roundtrip(v: u8, pre: Seq<u8>, post: Seq<u8>) {
        assert((pre + seq![v] + post)[pre.len() as int] == v);
    }

    fn parse(data: &[u8], pos: usize) -> (r: Option<(u8, usize)>) {
        if pos < data.len() {
            Some((data[pos], pos + 1))
        } else {
            None
        }
    }

    fn byte_len(&self) -> (r: usize) {
        1
    }

    fn serialize(&self, out: &mut Vec<u8>) {
        out.push(*self);
    }
}

impl Codec for u16 {
    open spec fn spec_bytes(v: u16) -> Seq<u8> {
        bytes16(v)
    }

    open spec fn spec_parse(s: Seq<u8>, p: int) -> Option<(u16, int)> {
        if 0 <= p && p + 2 <= s.len() {
            Some((le16(s, p), p + 2))
        } else {
            None
        }
    }

    open spec fn spec_wf(v: u16) -> bool {
        true
    }

    open spec fn spec_writable(v: u16) -> bool {
        true
    }

    proof fn lemma_parse_bounds(s: Seq<u8>, p: int) {
    }

    proof fn lemma_parse_writable(s: Seq<u8>, p: int) {
    }

    proof fn lemma_roundtrip(v: u16, pre: Seq<u8>, post: Seq<u8>) {
        lemma_le16_bytes16(pre, v, post);
    }

    fn parse(data: &[u8], pos: usize) -> (r: Option<(u16, usize)>) {
        if data.len() - pos >= 2 {
            Some((read_u16(data, pos), pos + 2))
        } else {
            None
        }
    }

    fn byte_len(&self) -> (r: usize) {
        2
    }

    fn serialize(&self, out: &mut Vec<u8>) {
        push_u16(out, *self);
    }
}

impl Codec for u32 {
    open spec fn spec_bytes(v: u32) -> Seq<u8> {
        bytes32(v)
    }

    open spec fn spec_parse(s: Seq<u8>, p: int) -> Option<(u32, int)> {
        if 0 <= p && p + 4 <= s.len() {
            Some((le32(s, p), p + 4))
        } else {
            None
        }
    }

    open spec fn spec_wf(v: u32) -> bool {
        true
    }

    open spec fn spec_writable(v: u32) -> bool {
        true
    }

    proof fn lemma_parse_bounds(s: Seq<u8>, p: int) {
    }

    proof fn lemma_parse_writable(s: Seq<u8>, p: int) {
    }

    proof fn lemma_roundtrip(v: u32, pre: Seq<u8>, post: Seq<u8>) {
        lemma_le32_bytes32(pre, v, post);
    }

    fn parse(data: &[u8], pos: usize) -> (r: Option<(u32, usize)>) {
        if data.len() - pos >= 4 {
            Some((read_u32(data, pos), pos + 4))
        } else {
            None
        }
    }

    fn byte_len(&self) -> (r: usize) {
        4
    }

    fn serialize(&self, out: &mut Vec<u8>) {
        push_u32(out, *self);
    }
}

impl Codec for () {
    open spec fn spec_bytes(v: ()) -> Seq<u8> {
        Seq::empty()
    }

    open spec fn spec_parse(s: Seq<u8>, p: int) -> Option<((), int)> {
        if 0 <= p && p <= s.len() {
            Some(((), p))
        } else {
            None
        }
    }

    open spec fn spec_wf(v: ()) -> bool {
        true
    }

    open spec fn spec_writable(v: ()) -> bool {
        true
    }

    proof fn lemma_parse_bounds(s: Seq<u8>, p: int) {
    }

    proof fn lemma_parse_writable(s: Seq<u8>, p: int) {
    }

    proof fn lemma_roundtrip(v: (), pre: Seq<u8>, post: Seq<u8>) {
    }

    fn parse(data: &[u8], pos: usize) -> (r: Option<((), usize)>) {
        Some(((), pos))
    }

    fn byte_len(&self) -> (r: usize) {
        0
    }

    fn serialize(&self, out: &mut Vec<u8>) {
        assert(old(out)@ + Seq::<u8>::empty() =~= old(out)@);
    }
}

impl<const N: usize> Codec for [u8; N] {
    open spec fn spec_bytes(v: Seq<u8>) -> Seq<u8> {
        v
    }

    open spec fn spec_parse(s: Seq<u8>, p: int) -> Option<(Seq<u8>, int)> {
        if 0 <= p && p + N <= s.len() {
            Some((s.subrange(p, p + N), p + N))
        } else {
            None
        }
    }

    open spec fn spec_wf(v: Seq<u8>) -> bool {
        v.len() == N
    }

    open spec fn spec_writable(v: Seq<u8>) -> bool {
        true
    }

    proof fn lemma_parse_bounds(s: Seq<u8>, p: int) {
    }

    proof fn lemma_parse_writable(s: Seq<u8>, p: int) {
    }

    proof fn lemma_roundtrip(v: Seq<u8>, pre: Seq<u8>, post: Seq<u8>) {
        assert((pre + v + post).subrange(pre.len() as int, pre.len() + N) =~= v);
    }

    fn parse(data: &[u8], pos: usize) -> (r: Option<([u8; N], usize)>) {
        if data.len() - pos < N {
            return None;
        }
        let mut arr = [0u8; N];
        let mut i: usize = 0;
        while i < N
            invariant
                pos + N <= data.len(),
                i <= N,
                arr@.len() == N,
                forall|k: int| 0 <= k < i ==> arr@[k] == data@[pos + k],
            decreases N - i,
        {
            arr[i] = data[pos + i];
            i = i + 1;
        }
        assert(arr@ =~= data@.subrange(pos as int, pos + N));
        Some((arr, pos + N))
    }

    fn byte_len(&self) -> (r: usize) {
        N
    }

    fn serialize(&self, out: &mut Vec<u8>) {
        let mut i: usize = 0;
        while i < N
            invariant
                i <= N,
                self@.len() == N,
                out@ == old(out)@ + self@.take(i as int),
            decreases N - i,
        {
            out.push(self[i]);
            i = i + 1;
            assert(out@ =~= old(out)@ + self@.take(i as int));
        }
        assert(self@.take(N as int) =~= self@);
    }
}

/// `buf` after writing `b` at `pos`: bytes before `pos` stay, missing bytes up to
/// `pos` read as zero, `b` overwrites or extends from `pos` on.
pub open spec fn write_at(buf: Seq<u8>, pos: int, b: Seq<u8>) -> Seq<u8> {
    let len = if buf.len() > pos + b.len() {
        buf.len() as int
    } else {
        pos + b.len()
    };
    Seq::new(
        len as nat,
        |i: int|
            if pos <= i < pos + b.len() {
                b[i - pos]
            } else if i < buf.len() {
                buf[i]
            } else {
                0u8
            },
    )
}

/// `s` holds the bytes `b` from byte `r` on.
pub open spec fn holds_at(s: Seq<u8>, r: int, b: Seq<u8>) -> bool {
    &&& 0 <= r
    &&& r + b.len() <= s.len()
    &&& s.subrange(r, r + b.len()) == b
}

/// After writing `b` at `q`, the buffer holds `b` at `q` and is no shorter.
pub proof fn lemma_write_at_holds(s: Seq<u8>, q: int, b: Seq<u8>)
    requires
        0 <= q,
    ensures
        holds_at(write_at(s, q, b), q, b),
        write_at(s, q, b).len() >= s.len(),
{
    assert(write_at(s, q, b).subrange(q, q + b.len()) =~= b);
}

/// Writing `b` at `q` keeps bytes `c` held at `r` where the two ranges do not overlap.
pub proof fn lemma_write_at_keeps(s: Seq<u8>, q: int, b: Seq<u8>, r: int, c: Seq<u8>)
    requires
        holds_at(s, r, c),
        0 <= q,
        q + b.len() <= r || r + c.len() <= q,
    ensures
        holds_at(write_at(s, q, b), r, c),
{
    assert forall|i: int| 0 <= i < c.len() implies write_at(s, q, b)[r + i] == c[i] by {
        assert(s.subrange(r, r + c.len())[i] == s[r + i]);
    }
    assert(write_at(s, q, b).subrange(r, r + c.len()) =~= c);
}

/// Bytes `a + b` held at `r` are `a` held at `r` followed by `b` held right after.
pub proof fn lemma_holds_split(s: Seq<u8>, r: int, a: Seq<u8>, b: Seq<u8>)
    requires
        holds_at(s, r, a + b),
    ensures
        holds_at(s, r, a),
        holds_at(s, r + a.len(), b),
{
    assert(s.subrange(r, r + a.len()) =~= (a + b).subrange(0, a.len() as int));
    assert(s.subrange(r + a.len(), r + a.len() + b.len()) =~= (a + b).subrange(
        a.len() as int,
        (a.len() + b.len()) as int,
    ));
    assert((a + b).subrange(0, a.len() as int) =~= a);
    assert((a + b).subrange(a.len() as int, (a.len() + b.len()) as int) =~= b);
}

/// The encoding of a well-formed value held at `r` decodes to the value.
pub proof fn lemma_parse_held<C: Codec>(s: Seq<u8>, r: int, v: C::V)
    requires
        holds_at(s, r, C::spec_bytes(v)),
        C::spec_wf(v),
    ensures
        C::spec_parse(s, r) == Some((v, r + C::spec_bytes(v).len())),
{
    let pre = s.subrange(0, r);
    let post = s.subrange(r + C::spec_bytes(v).len(), s.len() as int);
    assert(s =~= pre + C::spec_bytes(v) + post);
    C::lemma_roundtrip(v, pre, post);
}

/// `a` and `b` hold the same bytes from `lo` up to `hi`.
pub open spec fn agree_on(a: Seq<u8>, b: Seq<u8>, lo: int, hi: int) -> bool {
    &&& 0 <= lo <= hi
    &&& hi <= a.len()
    &&& hi <= b.len()
    &&& forall|i: int| lo <= i < hi ==> a[i] == b[i]
}

/// Writing `b` at `q` outside the range from `lo` up to `hi` keeps the bytes there.
pub proof fn lemma_write_at_agree(s: Seq<u8>, q: int, b: Seq<u8>, lo: int, hi: int)
    requires
        0 <= lo <= hi <= s.len(),
        0 <= q,
        q + b.len() <= lo || hi <= q,
    ensures
        agree_on(s, write_at(s, q, b), lo, hi),
{
}

/// Agreement on a range is transitive.
pub proof fn lemma_agree_trans(a: Seq<u8>, b: Seq<u8>, c: Seq<u8>, lo: int, hi: int)
    requires
        agree_on(a, b, lo, hi),
        agree_on(b, c, lo, hi),
    ensures
        agree_on(a, c, lo, hi),
{
}

/// Agreement on a range holds on every range within it.
pub proof fn lemma_agree_sub(a: Seq<u8>, b: Seq<u8>, lo: int, hi: int, lo2: int, hi2: int)
    requires
        agree_on(a, b, lo, hi),
        lo <= lo2 <= hi2 <= hi,
    ensures
        agree_on(a, b, lo2, hi2),
{
}

/// Bytes held within a range on which two sequences agree are held by both.
pub proof fn lemma_agree_holds(a: Seq<u8>, b: Seq<u8>, lo: int, hi: int, r: int, c: Seq<u8>)
    requires
        agree_on(a, b, lo, hi),
        holds_at(a, r, c),
        lo <= r,
        r + c.len() <= hi,
    ensures
        holds_at(b, r, c),
{
    assert forall|i: int| 0 <= i < c.len() implies b[r + i] == c[i] by {
        assert(a.subrange(r, r + c.len())[i] == a[r + i]);
    }
    assert(b.subrange(r, r + c.len()) =~= c);
}

/// Writes `b` into `buf` at `pos`, padding with zeros where `buf` is shorter.
pub fn write_bytes_at(buf: &mut Vec<u8>, pos: usize, b: &[u8])
    requires
        pos + b@.len() <= usize::MAX,
    ensures
        final(buf)@ == write_at(old(buf)@, pos as int, b@),
{
    let ghost target = write_at(old(buf)@, pos as int, b@);
    while buf.len() < pos
        invariant
            old(buf)@.len() <= buf@.len() || buf@.len() == old(buf)@.len(),
            old(buf)@.len() < pos ==> buf@.len() <= pos,
            old(buf)@.len() >= pos ==> buf@ == old(buf)@,
            old(buf)@.len() <= buf@.len(),
            forall|k: int|
                0 <= k < buf@.len() ==> buf@[k] == if k < old(buf)@.len() {
                    old(buf)@[k]
                } else {
                    0u8
                },
        decreases pos - buf@.len(),
    {
        buf.push(0u8);
    }
    let mut i: usize = 0;
    while i < b.len()
        invariant
            pos + b@.len() <= usize::MAX,
            i <= b@.len(),
            buf@.len() >= pos,
            buf@.len() == if old(buf)@.len() > pos + i {
                old(buf)@.len() as int
            } else {
                pos + i
            },
            forall|k: int|
                0 <= k < buf@.len() ==> buf@[k] == if pos <= k < pos + i {
                    b@[k - pos]
                } else if k < old(buf)@.len() {
                    old(buf)@[k]
                } else {
                    0u8
                },
        decreases b@.len() - i,
    {
        if pos + i < buf.len() {
            buf.set(pos + i, b[i]);
        } else {
            buf.push(b[i]);
        }
        i = i + 1;
    }
    assert(buf@ =~= target);
}


/// Two values stored one after the other.
impl<A: Codec, B: Codec> Codec for (A, B) {
    open spec fn spec_bytes(v: (A::V, B::V)) -> Seq<u8> {
        A::spec_bytes(v.0) + B::spec_bytes(v.1)
    }

    open spec fn spec_parse(s: Seq<u8>, p: int) -> Option<((A::V, B::V), int)> {
        match A::spec_parse(s, p) {
            Some((a, e)) => match B::spec_parse(s, e) {
                Some((b, f)) => Some(((a, b), f)),
                None => None,
            },
            None => None,
        }
    }

    open spec fn spec_wf(v: (A::V, B::V)) -> bool {
        A::spec_wf(v.0) && B::spec_wf(v.1)
    }

    open spec fn spec_writable(v: (A::V, B::V)) -> bool {
        &&& A::spec_writable(v.0)
        &&& B::spec_writable(v.1)
        &&& A::spec_bytes(v.0).len() + B::spec_bytes(v.1).len() <= usize::MAX
    }

    proof fn lemma_parse_bounds(s: Seq<u8>, p: int) {
        A::lemma_parse_bounds(s, p);
        if let Some((a, e)) = A::spec_parse(s, p) {
            B::lemma_parse_bounds(s, e);
        }
    }

    proof fn lemma_parse_writable(s: Seq<u8>, p: int) {
        A::lemma_parse_bounds(s, p);
        A::lemma_parse_writable(s, p);
        if let Some((a, e)) = A::spec_parse(s, p) {
            B::lemma_parse_bounds(s, e);
            B::lemma_parse_writable(s, e);
        }
    }

    proof fn lemma_roundtrip(v: (A::V, B::V), pre: Seq<u8>, post: Seq<u8>) {
        let ba = A::spec_bytes(v.0);
        let bb = B::spec_bytes(v.1);
        assert(pre + (ba + bb) + post =~= pre + ba + (bb + post));
        A::lemma_roundtrip(v.0, pre, bb + post);
        assert(pre + (ba + bb) + post =~= (pre + ba) + bb + post);
        B::lemma_roundtrip(v.1, pre + ba, post);
    }

    fn parse(data: &[u8], pos: usize) -> (r: Option<((A, B), usize)>) {
        match A::parse(data, pos) {
            Some((a, e)) => match B::parse(data, e) {
                Some((b, f)) => Some(((a, b), f)),
                None => None,
            },
            None => None,
        }
    }

    fn byte_len(&self) -> (r: usize) {
        self.0.byte_len() + self.1.byte_len()
    }

    fn serialize(&self, out: &mut Vec<u8>) {
        self.0.serialize(out);
        self.1.serialize(out);
        assert(final(out)@ =~= old(out)@ + Self::spec_bytes(self@));
    }
}

/// A fixed little-endian `u32` that must be present in the encoding.
#[derive(Debug, Clone, Copy, PartialEq, Eq)]
pub struct Magic32<const V: u32>;

impl<const V: u32> View for Magic32<V> {
    type V = ();

    open spec fn view(&self) -> () {
        ()
    }
}

impl<const V: u32> Codec for Magic32<V> {
    open spec fn spec_bytes(v: ()) -> Seq<u8> {
        bytes32(V)
    }

    open spec fn spec_parse(s: Seq<u8>, p: int) -> Option<((), int)> {
        if 0 <= p && p + 4 <= s.len() && le32(s, p) == V {
            Some(((), p + 4))
        } else {
            None
        }
    }

    open spec fn spec_wf(v: ()) -> bool {
        true
    }

    open spec fn spec_writable(v: ()) -> bool {
        true
    }

    proof fn lemma_parse_bounds(s: Seq<u8>, p: int) {
    }

    proof fn lemma_parse_writable(s: Seq<u8>, p: int) {
    }

    proof fn lemma_roundtrip(v: (), pre: Seq<u8>, post: Seq<u8>) {
        lemma_le32_bytes32(pre, V, post);
    }

    fn parse(data: &[u8], pos: usize) -> (r: Option<(Magic32<V>, usize)>) {
        if data.len() - pos >= 4 && read_u32(data, pos) == V {
            Some((Magic32, pos + 4))
        } else {
            None
        }
    }

    fn byte_len(&self) -> (r: usize) {
        4
    }

    fn serialize(&self, out: &mut Vec<u8>) {
        push_u32(out, V);
    }
}

/// A fixed little-endian `u16` that must be present in the encoding.
#[derive(Debug, Clone, Copy, PartialEq, Eq)]
pub struct Magic16<const V: u16>;

impl<const V: u16> View for Magic16<V> {
    type V = ();

    open spec fn view(&self) -> () {
        ()
    }
}

impl<const V: u16> Codec for Magic16<V> {
    open spec fn spec_bytes(v: ()) -> Seq<u8> {
        bytes16(V)
    }

    open spec fn spec_parse(s: Seq<u8>, p: int) -> Option<((), int)> {
        if 0 <= p && p + 2 <= s.len() && le16(s, p) == V {
            Some(((), p + 2))
        } else {
            None
        }
    }

    open spec fn spec_wf(v: ()) -> bool {
        true
    }

    open spec fn spec_writable(v: ()) -> bool {
        true
    }

    proof fn lemma_parse_bounds(s: Seq<u8>, p: int) {
    }

    proof fn lemma_parse_writable(s: Seq<u8>, p: int) {
    }

    proof fn lemma_roundtrip(v: (), pre: Seq<u8>, post: Seq<u8>) {
        lemma_le16_bytes16(pre, V, post);
    }

    fn parse(data: &[u8], pos: usize) -> (r: Option<(Magic16<V>, usize)>) {
        if data.len() - pos >= 2 && read_u16(data, pos) == V {
            Some((Magic16, pos + 2))
        } else {
            None
        }
    }

    fn byte_len(&self) -> (r: usize) {
        2
    }

    fn serialize(&self, out: &mut Vec<u8>) {
        push_u16(out, V);
    }
}

} // verus!
