//! Offset arrays: an array of offsets followed by items stored at those offsets.
//!
//! The offsets are either `u8` or `u16`, preceded by the magic number
//! `0x03u8` / `0x0003u16`. Each offset counts from a base position, which lies
//! a known distance before the offset array (the start of the enclosing row).

use crate::codec::{
    agree_on, bytes16, holds_at, le16, lemma_agree_holds, lemma_agree_trans, lemma_le16_sub,
    lemma_parse_held, lemma_write_at_agree, lemma_write_at_holds, lemma_write_at_keeps, push_u16,
    read_u16, write_at, write_bytes_at, Codec,
};
use vstd::prelude::*;

verus! {

/// Whether the offsets are stored as `u8` or `u16`.
#[derive(Debug, Clone, Copy, PartialEq, Eq, Structural)]
pub enum OffsetSize {
    /// Offsets are stored as `u8`.
    U8,
    /// Offsets are stored as `u16`.
    U16,
}


/// The offsets of an offset array, either as `u8` or as `u16`.
#[derive(Debug, Clone, PartialEq, Eq)]
pub enum OffsetArray<const N: usize> {
    /// Offsets stored as `u8`, after the magic byte `0x03`.
    U8([u8; N]),
    /// Offsets stored as `u16`, after the magic word `0x0003`.
    U16([u16; N]),
}

/// The little-endian bytes of `n` values taken from `vals`, each as a `u16`.
pub open spec fn u16_words_bytes(vals: Seq<u16>, n: nat) -> Seq<u8>
    decreases n,
{
    if n == 0 {
        Seq::empty()
    } else {
        u16_words_bytes(vals, (n - 1) as nat) + bytes16(vals[n - 1])
    }
}

/// The byte length of the words that `u16_words_bytes` encodes.
pub proof fn lemma_u16_words_bytes_len(vals: Seq<u16>, n: nat)
    ensures
        u16_words_bytes(vals, n).len() == 2 * n,
    decreases n,
{
    if n > 0 {
        lemma_u16_words_bytes_len(vals, (n - 1) as nat);
    }
}

impl<const N: usize> OffsetArray<N> {
    /// The offset size of the array.
    pub open spec fn spec_size(&self) -> OffsetSize {
        match self {
            OffsetArray::U8(_) => OffsetSize::U8,
            OffsetArray::U16(_) => OffsetSize::U16,
        }
    }

    /// The offsets, as numbers.
    pub open spec fn spec_offsets(&self) -> Seq<int> {
        match self {
            OffsetArray::U8(a) => Seq::new(N as nat, |i: int| a@[i] as int),
            OffsetArray::U16(a) => Seq::new(N as nat, |i: int| a@[i] as int),
        }
    }

    /// The bytes that encode the array: the magic number, then the offsets.
    pub open spec fn spec_bytes(&self) -> Seq<u8> {
        match self {
            OffsetArray::U8(a) => seq![3u8] + a@,
            OffsetArray::U16(a) => bytes16(3) + u16_words_bytes(a@, N as nat),
        }
    }

    /// Number of bytes that an array of `N` offsets of the given size takes.
    pub open spec fn spec_len(size: OffsetSize) -> int {
        match size {
            OffsetSize::U8 => 1 + N,
            OffsetSize::U16 => 2 + 2 * N,
        }
    }

    /// The array of the given offset size encoded at byte `p` of `s`: its offsets,
    /// or `None` where the bytes run out or the magic number is wrong.
    pub open spec fn spec_parse(s: Seq<u8>, p: int, size: OffsetSize) -> Option<Seq<int>> {
        if !(0 <= p && p + Self::spec_len(size) <= s.len()) {
            None
        } else {
            match size {
                OffsetSize::U8 => if s[p] == 3 {
                    Some(Seq::new(N as nat, |i: int| s[p + 1 + i] as int))
                } else {
                    None
                },
                OffsetSize::U16 => if le16(s, p) == 3 {
                    Some(Seq::new(N as nat, |i: int| le16(s, p + 2 + 2 * i) as int))
                } else {
                    None
                },
            }
        }
    }

    /// Whether the array stores offsets of the given size.
    pub fn assert_offset_size_matches(&self, offset_size: OffsetSize) -> (r: bool)
        ensures
            r == (self.spec_size() == offset_size),
    {
        match (self, offset_size) {
            (OffsetArray::U8(_), OffsetSize::U8) => true,
            (OffsetArray::U16(_), OffsetSize::U16) => true,
            _ => false,
        }
    }

    /// The `i`-th offset.
    pub fn offset(&self, i: usize) -> (r: u16)
        requires
            i < N,
        ensures
            r == self.spec_offsets()[i as int],
    {
        match self {
            OffsetArray::U8(a) => a[i] as u16,
            OffsetArray::U16(a) => a[i],
        }
    }

    /// Decodes an array of offsets of the given size at `pos`.
    pub fn parse(data: &[u8], pos: usize, size: OffsetSize) -> (r: Option<(OffsetArray<N>, usize)>)
        requires
            pos <= data@.len(),
        ensures
            r is Some <==> Self::spec_parse(data@, pos as int, size) is Some,
            r matches Some((a, e)) ==> {
                &&& Self::spec_parse(data@, pos as int, size) == Some(a.spec_offsets())
                &&& a.spec_size() == size
                &&& e == pos + Self::spec_len(size)
            },
    {
        let len = data.len();
        match size {
            OffsetSize::U8 => {
                if N >= len - pos || data[pos] != 3 {
                    return None;
                }
                let mut a = [0u8; N];
                let mut i: usize = 0;
                while i < N
                    invariant
                        pos + 1 + N <= len,
                        len == data@.len(),
                        i <= N,
                        forall|k: int| 0 <= k < i ==> a@[k] == data@[pos + 1 + k],
                    decreases N - i,
                {
                    a[i] = data[pos + 1 + i];
                    i = i + 1;
                }
                let r = OffsetArray::U8(a);
                assert(r.spec_offsets() =~= Seq::new(
                    N as nat,
                    |i: int| data@[pos + 1 + i] as int,
                ));
                Some((r, pos + 1 + N))
            },
            OffsetSize::U16 => {
                if len - pos < 2 || (len - pos - 2) / 2 < N || read_u16(data, pos) != 3 {
                    return None;
                }
                let mut a = [0u16; N];
                let mut i: usize = 0;
                while i < N
                    invariant
                        pos + 2 + 2 * N <= len,
                        len == data@.len(),
                        i <= N,
                        forall|k: int| 0 <= k < i ==> a@[k] == le16(data@, pos + 2 + 2 * k),
                    decreases N - i,
                {
                    a[i] = read_u16(data, pos + 2 + 2 * i);
                    i = i + 1;
                }
                let r = OffsetArray::U16(a);
                assert(r.spec_offsets() =~= Seq::new(
                    N as nat,
                    |i: int| le16(data@, pos + 2 + 2 * i) as int,
                ));
                Some((r, pos + 2 + 2 * N))
            },
        }
    }

    /// Appends the encoding of the array.
    pub fn serialize(&self, out: &mut Vec<u8>)
        ensures
            final(out)@ == old(out)@ + self.spec_bytes(),
    {
        match self {
            OffsetArray::U8(a) => {
                out.push(3u8);
                let ghost start = out@;
                let mut i: usize = 0;
                while i < N
                    invariant
                        i <= N,
                        a@.len() == N,
                        out@ == start + a@.take(i as int),
                    decreases N - i,
                {
                    out.push(a[i]);
                    i = i + 1;
                    assert(out@ =~= start + a@.take(i as int));
                }
                assert(a@.take(N as int) =~= a@);
            },
            OffsetArray::U16(a) => {
                push_u16(out, 3);
                let ghost start = out@;
                let mut i: usize = 0;
                while i < N
                    invariant
                        i <= N,
                        a@.len() == N,
                        out@ == start + u16_words_bytes(a@, i as nat),
                    decreases N - i,
                {
                    push_u16(out, a[i]);
                    i = i + 1;
                }
            },
        }
        assert(final(out)@ =~= old(out)@ + self.spec_bytes());
    }

    /// Decoding the encoding of an offset array, wherever it stands, gives its offsets back.
    pub proof fn lemma_roundtrip(&self, pre: Seq<u8>, post: Seq<u8>)
        ensures
            Self::spec_parse(pre + self.spec_bytes() + post, pre.len() as int, self.spec_size())
                == Some(self.spec_offsets()),
            self.spec_bytes().len() == Self::spec_len(self.spec_size()),
    {
        let s = pre + self.spec_bytes() + post;
        let p = pre.len() as int;
        match self {
            OffsetArray::U8(a) => {
                assert(Seq::new(N as nat, |i: int| s[p + 1 + i] as int) =~= self.spec_offsets());
            },
            OffsetArray::U16(a) => {
                lemma_u16_words_bytes_len(a@, N as nat);
                lemma_u16_words_prefix(a@, N as nat);
                assert(s.subrange(p, p + 2) =~= bytes16(3));
                lemma_le16_sub(s, p, 3);
                assert forall|i: int| 0 <= i < N implies le16(s, p + 2 + 2 * i) == a@[i] by {
                    assert(s.subrange(p + 2 + 2 * i, p + 2 + 2 * i + 2) =~= u16_words_bytes(
                        a@,
                        N as nat,
                    ).subrange(2 * i, 2 * i + 2));
                    lemma_le16_sub(s, p + 2 + 2 * i, a@[i]);
                }
                assert(Seq::new(N as nat, |i: int| le16(s, p + 2 + 2 * i) as int)
                    =~= self.spec_offsets());
            },
        }
    }
}

impl<const N: usize> From<[u8; N]> for OffsetArray<N> {
    fn from(arr: [u8; N]) -> (r: OffsetArray<N>) {
        OffsetArray::U8(arr)
    }
}

impl<const N: usize> vstd::std_specs::convert::FromSpecImpl<[u8; N]> for OffsetArray<N> {
    open spec fn obeys_from_spec() -> bool {
        true
    }

    open spec fn from_spec(arr: [u8; N]) -> OffsetArray<N> {
        OffsetArray::U8(arr)
    }
}

impl<const N: usize> From<[u16; N]> for OffsetArray<N> {
    fn from(arr: [u16; N]) -> (r: OffsetArray<N>) {
        OffsetArray::U16(arr)
    }
}

impl<const N: usize> vstd::std_specs::convert::FromSpecImpl<[u16; N]> for OffsetArray<N> {
    open spec fn obeys_from_spec() -> bool {
        true
    }

    open spec fn from_spec(arr: [u16; N]) -> OffsetArray<N> {
        OffsetArray::U16(arr)
    }
}

/// A value built from `N` items that are stored at the offsets of an offset array.
pub trait OffsetArrayItems<const N: usize>: Sized {
    /// The type of the items.
    type Item: Codec;

    /// The items, in the order of the offsets. Every implementation in this
    /// library defines it; the default leaves it unknown.
    closed spec fn spec_items(&self) -> Seq<<Self::Item as View>::V> {
        arbitrary()
    }

    /// References to the items, in the order of the offsets.
    fn as_items(&self) -> (r: Vec<&Self::Item>)
        ensures
            r@.len() == N,
            self.spec_items().len() == N,
            forall|i: int| 0 <= i < N ==> r@[i]@ == self.spec_items()[i],
    ;

    /// Builds the value from its items.
    fn from_items(items: Vec<Self::Item>) -> (r: Self)
        requires
            items@.len() == N,
        ensures
            r.spec_items().len() == N,
            forall|i: int| 0 <= i < N ==> r.spec_items()[i] == items@[i]@,
    ;
}

impl OffsetArrayItems<0> for () {
    type Item = ();

    open spec fn spec_items(&self) -> Seq<()> {
        Seq::empty()
    }

    fn as_items(&self) -> (r: Vec<&()>) {
        Vec::new()
    }

    fn from_items(items: Vec<()>) -> (r: ()) {
    }
}

/// The first `k` items decoded at the offsets `offs` from `base`.
pub open spec fn items_at<I: Codec>(s: Seq<u8>, base: int, offs: Seq<int>, k: nat) -> Option<
    Seq<I::V>,
>
    decreases k,
{
    if k == 0 {
        Some(Seq::empty())
    } else {
        match items_at::<I>(s, base, offs, (k - 1) as nat) {
            Some(vs) => match I::spec_parse(s, base + offs[k - 1]) {
                Some((v, _)) => Some(vs.push(v)),
                None => None,
            },
            None => None,
        }
    }
}

/// `buf` after writing the first `k` items at the offsets `offs` from `base`, in order.
pub open spec fn write_items<I: Codec>(
    buf: Seq<u8>,
    base: int,
    offs: Seq<int>,
    items: Seq<I::V>,
    k: nat,
) -> Seq<u8>
    decreases k,
{
    if k == 0 {
        buf
    } else {
        write_at(
            write_items::<I>(buf, base, offs, items, (k - 1) as nat),
            base + offs[k - 1],
            I::spec_bytes(items[k - 1]),
        )
    }
}

/// Total number of bytes of the encodings of the first `k` items.
pub open spec fn items_bytes_len<I: Codec>(items: Seq<I::V>, k: nat) -> int
    decreases k,
{
    if k == 0 {
        0
    } else {
        items_bytes_len::<I>(items, (k - 1) as nat) + I::spec_bytes(items[k - 1]).len()
    }
}

/// The bytes of a prefix of the items are no more than those of a longer prefix.
pub proof fn lemma_items_bytes_len_mono<I: Codec>(items: Seq<I::V>, k: nat, n: nat)
    requires
        k <= n,
    ensures
        0 <= items_bytes_len::<I>(items, k) <= items_bytes_len::<I>(items, n),
    decreases n,
{
    if n > k {
        lemma_items_bytes_len_mono::<I>(items, k, (n - 1) as nat);
    } else if n > 0 {
        lemma_items_bytes_len_mono::<I>(items, (n - 1) as nat, (n - 1) as nat);
    }
}

/// The first `n` items are laid out at their offsets without clashing: each
/// starts at or after `start`, and two of them either share their offset and
/// value or do not overlap.
pub open spec fn items_laid_out<I: Codec>(offs: Seq<int>, items: Seq<I::V>, start: int, n: nat) -> bool {
    &&& forall|i: int| 0 <= i < n ==> start <= #[trigger] offs[i]
    &&& forall|i: int, j: int|
        #![trigger offs[i], offs[j]]
        0 <= i < n && 0 <= j < n && i != j ==> (offs[i] == offs[j] && items[i] == items[j]) || offs[i]
            + I::spec_bytes(items[i]).len() <= offs[j] || offs[j] + I::spec_bytes(items[j]).len()
            <= offs[i]
}

/// Writing the first `k` items keeps bytes held at `r` that none of them overlaps.
pub proof fn lemma_write_items_keeps<I: Codec>(
    buf: Seq<u8>,
    base: int,
    offs: Seq<int>,
    items: Seq<I::V>,
    k: nat,
    r: int,
    c: Seq<u8>,
)
    requires
        holds_at(buf, r, c),
        forall|i: int| 0 <= i < k ==> 0 <= base + #[trigger] offs[i],
        forall|i: int|
            0 <= i < k ==> base + #[trigger] offs[i] + I::spec_bytes(items[i]).len() <= r || r + c.len()
                <= base + offs[i],
    ensures
        holds_at(write_items::<I>(buf, base, offs, items, k), r, c),
    decreases k,
{
    if k > 0 {
        lemma_write_items_keeps::<I>(buf, base, offs, items, (k - 1) as nat, r, c);
        lemma_write_at_keeps(
            write_items::<I>(buf, base, offs, items, (k - 1) as nat),
            base + offs[k - 1],
            I::spec_bytes(items[k - 1]),
            r,
            c,
        );
    }
}

/// After writing the first `k` of `n` laid-out items, each of them is held at
/// its offset.
pub proof fn lemma_write_items_hold<I: Codec>(
    buf: Seq<u8>,
    base: int,
    offs: Seq<int>,
    items: Seq<I::V>,
    k: nat,
    n: nat,
    start: int,
)
    requires
        k <= n,
        0 <= base,
        0 <= start,
        items_laid_out::<I>(offs, items, start, n),
    ensures
        forall|i: int|
            0 <= i < k ==> holds_at(
                write_items::<I>(buf, base, offs, items, k),
                base + #[trigger] offs[i],
                I::spec_bytes(items[i]),
            ),
    decreases k,
{
    if k > 0 {
        let prev = write_items::<I>(buf, base, offs, items, (k - 1) as nat);
        let q = base + offs[k - 1];
        let b = I::spec_bytes(items[k - 1]);
        lemma_write_items_hold::<I>(buf, base, offs, items, (k - 1) as nat, n, start);
        assert(start <= offs[k - 1]);
        lemma_write_at_holds(prev, q, b);
        assert forall|i: int| 0 <= i < k implies holds_at(
            write_at(prev, q, b),
            base + #[trigger] offs[i],
            I::spec_bytes(items[i]),
        ) by {
            if i < k - 1 {
                assert(holds_at(prev, base + offs[i], I::spec_bytes(items[i])));
                if offs[i] == offs[k - 1] && items[i] == items[k - 1] {
                } else {
                    lemma_write_at_keeps(prev, q, b, base + offs[i], I::spec_bytes(items[i]));
                }
            }
        }
    }
}

/// Writing the first `k` items keeps the bytes from `lo` up to `hi` where none
/// of the items overlaps that range.
pub proof fn lemma_write_items_agree<I: Codec>(
    buf: Seq<u8>,
    base: int,
    offs: Seq<int>,
    items: Seq<I::V>,
    k: nat,
    lo: int,
    hi: int,
)
    requires
        0 <= lo <= hi <= buf.len(),
        forall|i: int| 0 <= i < k ==> 0 <= base + #[trigger] offs[i],
        forall|i: int|
            0 <= i < k ==> base + #[trigger] offs[i] + I::spec_bytes(items[i]).len() <= lo || hi
                <= base + offs[i],
    ensures
        agree_on(buf, write_items::<I>(buf, base, offs, items, k), lo, hi),
        write_items::<I>(buf, base, offs, items, k).len() >= buf.len(),
    decreases k,
{
    if k > 0 {
        let prev = write_items::<I>(buf, base, offs, items, (k - 1) as nat);
        lemma_write_items_agree::<I>(buf, base, offs, items, (k - 1) as nat, lo, hi);
        lemma_write_at_agree(prev, base + offs[k - 1], I::spec_bytes(items[k - 1]), lo, hi);
        lemma_agree_trans(buf, prev, write_at(prev, base + offs[k - 1], I::spec_bytes(items[k - 1])), lo, hi);
    }
}

/// Well-formed items held at their offsets decode to themselves.
pub proof fn lemma_items_at_held<I: Codec>(s: Seq<u8>, base: int, offs: Seq<int>, items: Seq<I::V>, k: nat)
    requires
        k <= items.len(),
        forall|i: int| 0 <= i < k ==> holds_at(s, base + #[trigger] offs[i], I::spec_bytes(items[i])),
        forall|i: int| 0 <= i < k ==> I::spec_wf(#[trigger] items[i]),
    ensures
        items_at::<I>(s, base, offs, k) == Some(items.subrange(0, k as int)),
    decreases k,
{
    if k > 0 {
        lemma_items_at_held::<I>(s, base, offs, items, (k - 1) as nat);
        assert(I::spec_wf(items[k - 1]));
        assert(holds_at(s, base + offs[k - 1], I::spec_bytes(items[k - 1])));
        lemma_parse_held::<I>(s, base + offs[k - 1], items[k - 1]);
        assert(items.subrange(0, k - 1).push(items[k - 1]) =~= items.subrange(0, k as int));
    }
}

/// Why an offset array container cannot be written.
#[derive(Debug, Clone, Copy, PartialEq, Eq, Structural)]
pub enum OffsetArrayError {
    /// The offsets are stored with a different size than the row demands.
    OffsetSizeMismatch,
    /// The base position would lie before the start of the stream.
    PositionUnderflow,
    /// An item would lie beyond the addressable memory.
    PositionOverflow,
}

/// An offset array together with the value built from the items at its offsets.
#[derive(Debug, PartialEq, Clone, Eq)]
pub struct OffsetArrayContainer<T, const N: usize> {
    /// The offsets, either `u8` or `u16`.
    pub offsets: OffsetArray<N>,
    /// The value built from the items.
    pub inner: T,
}

impl<T: OffsetArrayItems<N>, const N: usize> OffsetArrayContainer<T, N> {
    /// The container encoded at `p` of `s`, whose offsets count from `offset`
    /// bytes before `p`: its offsets and items, or `None` where the offsets or an
    /// item cannot be decoded, or where the base lies before the stream start.
    pub open spec fn spec_parse(s: Seq<u8>, p: int, offset: int, size: OffsetSize) -> Option<
        (Seq<int>, Seq<<T::Item as View>::V>),
    > {
        match OffsetArray::<N>::spec_parse(s, p, size) {
            Some(offs) => if offset <= p {
                match items_at::<T::Item>(s, p - offset, offs, N as nat) {
                    Some(items) => Some((offs, items)),
                    None => None,
                }
            } else {
                None
            },
            None => None,
        }
    }

    /// `buf` after writing the container at `p`: the offsets at `p`, then each item
    /// at its offset from the base `p - offset`.
    pub open spec fn spec_write(&self, buf: Seq<u8>, p: int, offset: int) -> Seq<u8> {
        write_items::<T::Item>(
            write_at(buf, p, self.offsets.spec_bytes()),
            p - offset,
            self.offsets.spec_offsets(),
            self.inner.spec_items(),
            N as nat,
        )
    }

    /// Number of bytes the container takes in a page heap: its offsets, then its items.
    pub open spec fn spec_heap_bytes(&self) -> int {
        self.offsets.spec_bytes().len() + items_bytes_len::<T::Item>(self.inner.spec_items(), N as nat)
    }

    /// The items are laid out after the offset array, which starts `offset`
    /// bytes after the base, without clashing.
    pub open spec fn spec_laid_out(&self, offset: int) -> bool {
        &&& self.inner.spec_items().len() == N
        &&& items_laid_out::<T::Item>(
            self.offsets.spec_offsets(),
            self.inner.spec_items(),
            offset + self.offsets.spec_bytes().len(),
            N as nat,
        )
    }

    /// The items of the container can be encoded and decode back to themselves.
    pub open spec fn spec_items_wf(&self) -> bool {
        forall|i: int| 0 <= i < N ==> T::Item::spec_wf(#[trigger] self.inner.spec_items()[i])
    }

    /// Every byte that writing the container at `p` writes, with item offsets
    /// counted from `offset` bytes before `p`, has an address that a `usize`
    /// can hold.
    pub open spec fn spec_fits_memory(&self, p: int, offset: int) -> bool {
        &&& p + self.offsets.spec_bytes().len() <= usize::MAX
        &&& forall|i: int|
            0 <= i < N ==> p - offset + #[trigger] self.offsets.spec_offsets()[i] + T::Item::spec_bytes(
                self.inner.spec_items()[i],
            ).len() <= usize::MAX
    }

    /// Every byte that writing the container at `p` writes, with item offsets
    /// counted from `offset` bytes before `p`, lies from `lo` up to `hi`.
    pub open spec fn spec_within(&self, p: int, offset: int, lo: int, hi: int) -> bool {
        &&& lo <= p
        &&& p + self.offsets.spec_bytes().len() <= hi
        &&& forall|i: int|
            0 <= i < N ==> lo <= p - offset + #[trigger] self.offsets.spec_offsets()[i] && p - offset
                + self.offsets.spec_offsets()[i] + T::Item::spec_bytes(self.inner.spec_items()[i]).len()
                <= hi
    }

    /// `s` holds the offsets at `p` and each item at its offset from the base
    /// `offset` bytes before `p`.
    pub open spec fn spec_held(&self, s: Seq<u8>, p: int, offset: int) -> bool {
        &&& holds_at(s, p, self.offsets.spec_bytes())
        &&& forall|i: int|
            0 <= i < N ==> holds_at(
                s,
                p - offset + #[trigger] self.offsets.spec_offsets()[i],
                T::Item::spec_bytes(self.inner.spec_items()[i]),
            )
    }

    /// After writing a container whose items are laid out after its offsets,
    /// the offsets and items are held where they were written.
    pub proof fn lemma_write_held(&self, buf: Seq<u8>, p: int, offset: int)
        requires
            0 <= offset <= p,
            self.spec_laid_out(offset),
        ensures
            self.spec_held(self.spec_write(buf, p, offset), p, offset),
    {
        let ob = self.offsets.spec_bytes();
        let offs = self.offsets.spec_offsets();
        let items = self.inner.spec_items();
        let s0 = write_at(buf, p, ob);
        let base = p - offset;
        lemma_write_at_holds(buf, p, ob);
        assert forall|i: int| 0 <= i < N implies base + #[trigger] offs[i] + T::Item::spec_bytes(
            items[i],
        ).len() <= p || p + ob.len() <= base + offs[i] by {
            assert(offset + ob.len() <= offs[i]);
        }
        lemma_write_items_keeps::<T::Item>(s0, base, offs, items, N as nat, p, ob);
        lemma_write_items_hold::<T::Item>(s0, base, offs, items, N as nat, N as nat, offset + ob.len());
    }

    /// Offsets and well-formed items held where they belong decode to the
    /// container's offsets and items.
    pub proof fn lemma_held_parse(&self, s: Seq<u8>, p: int, offset: int)
        requires
            0 <= offset <= p,
            self.spec_held(s, p, offset),
            self.spec_items_wf(),
            self.inner.spec_items().len() == N,
        ensures
            Self::spec_parse(s, p, offset, self.offsets.spec_size()) == Some(
                (self.offsets.spec_offsets(), self.inner.spec_items()),
            ),
    {
        let ob = self.offsets.spec_bytes();
        let offs = self.offsets.spec_offsets();
        let items = self.inner.spec_items();
        let pre = s.subrange(0, p);
        let post = s.subrange(p + ob.len(), s.len() as int);
        assert(s =~= pre + ob + post);
        self.offsets.lemma_roundtrip(pre, post);
        lemma_items_at_held::<T::Item>(s, p - offset, offs, items, N as nat);
        assert(items.subrange(0, N as int) =~= items);
    }

    /// Writing a container whose bytes lie from `lo2` up to `hi2` keeps the
    /// bytes of a range that does not meet that one.
    pub proof fn lemma_write_agree(&self, buf: Seq<u8>, p: int, offset: int, lo2: int, hi2: int, lo: int, hi: int)
        requires
            0 <= offset <= p,
            self.spec_within(p, offset, lo2, hi2),
            hi2 <= lo || hi <= lo2,
            0 <= lo <= hi <= buf.len(),
        ensures
            agree_on(buf, self.spec_write(buf, p, offset), lo, hi),
            self.spec_write(buf, p, offset).len() >= buf.len(),
    {
        let ob = self.offsets.spec_bytes();
        let offs = self.offsets.spec_offsets();
        let items = self.inner.spec_items();
        lemma_write_at_agree(buf, p, ob, lo, hi);
        assert forall|i: int| 0 <= i < N implies 0 <= p - offset + #[trigger] offs[i] by {
        }
        lemma_write_items_agree::<T::Item>(write_at(buf, p, ob), p - offset, offs, items, N as nat, lo, hi);
        lemma_agree_trans(buf, write_at(buf, p, ob), self.spec_write(buf, p, offset), lo, hi);
    }

    /// Offsets and items held within a range stay held where the bytes of that
    /// range stay.
    pub proof fn lemma_held_agree(&self, s1: Seq<u8>, s2: Seq<u8>, p: int, offset: int, lo: int, hi: int)
        requires
            self.spec_held(s1, p, offset),
            self.spec_within(p, offset, lo, hi),
            agree_on(s1, s2, lo, hi),
        ensures
            self.spec_held(s2, p, offset),
    {
        let offs = self.offsets.spec_offsets();
        let items = self.inner.spec_items();
        lemma_agree_holds(s1, s2, lo, hi, p, self.offsets.spec_bytes());
        assert forall|i: int| 0 <= i < N implies holds_at(
            s2,
            p - offset + #[trigger] offs[i],
            T::Item::spec_bytes(items[i]),
        ) by {
            lemma_agree_holds(s1, s2, lo, hi, p - offset + offs[i], T::Item::spec_bytes(items[i]));
        }
    }

    /// Writing the container at `p` keeps the bytes held before its base,
    /// `offset` bytes before `p`.
    pub proof fn lemma_write_keeps_before_base(&self, buf: Seq<u8>, p: int, offset: int, r: int, c: Seq<u8>)
        requires
            0 <= offset <= p,
            holds_at(buf, r, c),
            r + c.len() <= p - offset,
        ensures
            holds_at(self.spec_write(buf, p, offset), r, c),
    {
        let ob = self.offsets.spec_bytes();
        let offs = self.offsets.spec_offsets();
        let items = self.inner.spec_items();
        lemma_write_at_keeps(buf, p, ob, r, c);
        assert forall|i: int| 0 <= i < N implies 0 <= #[trigger] offs[i] by {
        }
        lemma_write_items_keeps::<T::Item>(write_at(buf, p, ob), p - offset, offs, items, N as nat, r, c);
    }

    /// Writing the container at `p` keeps the bytes held before `p`, where its
    /// offset array starts, when its items are laid out after that array.
    pub proof fn lemma_write_keeps_before(&self, buf: Seq<u8>, p: int, offset: int, r: int, c: Seq<u8>)
        requires
            0 <= offset <= p,
            holds_at(buf, r, c),
            r + c.len() <= p,
            self.spec_laid_out(offset),
        ensures
            holds_at(self.spec_write(buf, p, offset), r, c),
    {
        let ob = self.offsets.spec_bytes();
        let offs = self.offsets.spec_offsets();
        let items = self.inner.spec_items();
        lemma_write_at_keeps(buf, p, ob, r, c);
        assert forall|i: int| 0 <= i < N implies p - offset + #[trigger] offs[i] + T::Item::spec_bytes(
            items[i],
        ).len() <= r || r + c.len() <= p - offset + offs[i] by {
            assert(offset + ob.len() <= offs[i]);
        }
        lemma_write_items_keeps::<T::Item>(write_at(buf, p, ob), p - offset, offs, items, N as nat, r, c);
    }

    /// Number of bytes the container takes in a page heap.
    pub fn heap_bytes_required(&self) -> (r: u16)
        requires
            self.spec_heap_bytes() <= u16::MAX,
            forall|i: int|
                0 <= i < N ==> T::Item::spec_writable(#[trigger] self.inner.spec_items()[i]),
        ensures
            r == self.spec_heap_bytes(),
    {
        proof {
            lemma_items_bytes_len_mono::<T::Item>(self.inner.spec_items(), 0, N as nat);
        }
        let head: usize = match &self.offsets {
            OffsetArray::U8(_) => 1 + N,
            OffsetArray::U16(a) => {
                proof {
                    lemma_u16_words_bytes_len(a@, N as nat);
                }
                2 + 2 * N
            },
        };
        let items = self.inner.as_items();
        let mut total: usize = head;
        let mut i: usize = 0;
        while i < N
            invariant
                i <= N,
                items@.len() == N,
                self.inner.spec_items().len() == N,
                forall|k: int| 0 <= k < N ==> items@[k]@ == self.inner.spec_items()[k],
                forall|k: int|
                    0 <= k < N ==> T::Item::spec_writable(#[trigger] self.inner.spec_items()[k]),
                self.spec_heap_bytes() <= u16::MAX,
                head == self.offsets.spec_bytes().len(),
                total == head + items_bytes_len::<T::Item>(self.inner.spec_items(), i as nat),
            decreases N - i,
        {
            proof {
                lemma_items_bytes_len_mono::<T::Item>(self.inner.spec_items(), (i + 1) as nat, N as nat);
            }
            assert(T::Item::spec_writable(self.inner.spec_items()[i as int]));
            total = total + items[i].byte_len();
            i = i + 1;
        }
        total as u16
    }

    /// Number of bytes the container takes in a page heap, or `None` where that
    /// does not fit into a `u16`.
    pub fn checked_heap_bytes(&self) -> (r: Option<u16>)
        requires
            forall|i: int|
                0 <= i < N ==> T::Item::spec_writable(#[trigger] self.inner.spec_items()[i]),
        ensures
            self.spec_heap_bytes() >= 0,
            self.spec_heap_bytes() <= u16::MAX ==> r == Some(self.spec_heap_bytes() as u16),
            self.spec_heap_bytes() > u16::MAX ==> r is None,
    {
        proof {
            lemma_items_bytes_len_mono::<T::Item>(self.inner.spec_items(), 0, N as nat);
        }
        let head: usize = match &self.offsets {
            OffsetArray::U8(_) => {
                if N > 65534 {
                    return None;
                }
                1 + N
            },
            OffsetArray::U16(a) => {
                proof {
                    lemma_u16_words_bytes_len(a@, N as nat);
                }
                if N > 32766 {
                    return None;
                }
                2 + 2 * N
            },
        };
        let items = self.inner.as_items();
        let mut total: usize = head;
        let mut i: usize = 0;
        while i < N
            invariant
                i <= N,
                items@.len() == N,
                self.inner.spec_items().len() == N,
                forall|k: int| 0 <= k < N ==> items@[k]@ == self.inner.spec_items()[k],
                forall|k: int|
                    0 <= k < N ==> T::Item::spec_writable(#[trigger] self.inner.spec_items()[k]),
                head == self.offsets.spec_bytes().len(),
                total <= u16::MAX,
                total == head + items_bytes_len::<T::Item>(self.inner.spec_items(), i as nat),
            decreases N - i,
        {
            proof {
                lemma_items_bytes_len_mono::<T::Item>(self.inner.spec_items(), (i + 1) as nat, N as nat);
            }
            assert(T::Item::spec_writable(self.inner.spec_items()[i as int]));
            let b = items[i].byte_len();
            if b > 65535 - total {
                return None;
            }
            total = total + b;
            i = i + 1;
        }
        Some(total as u16)
    }

    /// Decodes the container at `pos`, whose offsets count from `offset` bytes before `pos`.
    pub fn parse(data: &[u8], pos: usize, offset: u64, size: OffsetSize) -> (r: Option<Self>)
        requires
            pos <= data@.len(),
        ensures
            r is Some <==> Self::spec_parse(data@, pos as int, offset as int, size) is Some,
            r matches Some(c) ==> Self::spec_parse(data@, pos as int, offset as int, size) == Some(
                (c.offsets.spec_offsets(), c.inner.spec_items()),
            ) && c.offsets.spec_size() == size,
            r matches Some(c) ==> forall|i: int|
                0 <= i < N ==> T::Item::spec_writable(#[trigger] c.inner.spec_items()[i]),
    {
        let offsets = match OffsetArray::<N>::parse(data, pos, size) {
            Some((a, _)) => a,
            None => {
                return None;
            },
        };
        if offset > pos as u64 {
            return None;
        }
        let base = pos - offset as usize;
        let ghost offs = offsets.spec_offsets();
        let mut items: Vec<T::Item> = Vec::new();
        let mut i: usize = 0;
        while i < N
            invariant
                i <= N,
                base <= pos <= data@.len(),
                base == pos - offset,
                offset <= pos,
                OffsetArray::<N>::spec_parse(data@, pos as int, size) == Some(offs),
                offsets.spec_size() == size,
                offs == offsets.spec_offsets(),
                offs.len() == N,
                items@.len() == i,
                items_at::<T::Item>(data@, base as int, offs, i as nat) matches Some(vs) && (
                forall|k: int| 0 <= k < i ==> vs[k] == #[trigger] items@[k]@) && vs.len() == i,
                forall|k: int| 0 <= k < i ==> T::Item::spec_writable(#[trigger] items@[k]@),
            decreases N - i,
        {
            let off = offsets.offset(i) as usize;
            proof {
                T::Item::lemma_parse_bounds(data@, base + off);
            }
            if off > data.len() - base {
                proof {
                    lemma_items_at_none::<T::Item>(data@, base as int, offs, (i + 1) as nat, N as nat);
                }
                return None;
            }
            proof {
                T::Item::lemma_parse_writable(data@, base + off);
            }
            match T::Item::parse(data, base + off) {
                Some((v, _)) => {
                    items.push(v);
                },
                None => {
                    proof {
                        lemma_items_at_none::<T::Item>(data@, base as int, offs, (i + 1) as nat, N as nat);
                    }
                    return None;
                },
            }
            i = i + 1;
        }
        let inner = T::from_items(items);
        proof {
            let vs = items_at::<T::Item>(data@, base as int, offs, N as nat)->Some_0;
            assert(vs =~= inner.spec_items());
        }
        Some(OffsetArrayContainer { offsets, inner })
    }

    /// Writes the container at `pos` of `buf`: the offsets at `pos`, then each
    /// item at its offset from the base `pos - offset`.
    ///
    /// Fails, writing nothing, where the offsets have another size than `size`;
    /// fails after writing the offsets where the base would lie before position 0.
    pub fn write(&self, buf: &mut Vec<u8>, pos: usize, offset: u64, size: OffsetSize) -> (r:
        Result<(), OffsetArrayError>)
        requires
            pos <= old(buf)@.len(),
            forall|i: int|
                0 <= i < N ==> T::Item::spec_writable(#[trigger] self.inner.spec_items()[i]),
        ensures
            self.offsets.spec_size() != size ==> r == Err::<(), OffsetArrayError>(
                OffsetArrayError::OffsetSizeMismatch,
            ) && final(buf)@ == old(buf)@,
            self.offsets.spec_size() == size && offset > pos ==> r is Err,
            r == Err::<(), OffsetArrayError>(OffsetArrayError::PositionUnderflow) ==> (
            self.offsets.spec_size() == size && offset > pos && final(buf)@ == write_at(
                old(buf)@,
                pos as int,
                self.offsets.spec_bytes(),
            )),
            self.offsets.spec_size() == size && offset <= pos ==> (r is Ok <==> self.spec_fits_memory(
                pos as int,
                offset as int,
            )),
            self.offsets.spec_size() == size && offset <= pos && !self.spec_fits_memory(
                pos as int,
                offset as int,
            ) ==> r == Err::<(), OffsetArrayError>(OffsetArrayError::PositionOverflow),
            r is Ok ==> self.offsets.spec_size() == size && offset <= pos && final(buf)@
                == self.spec_write(old(buf)@, pos as int, offset as int),
    {
        if !self.offsets.assert_offset_size_matches(size) {
            return Err(OffsetArrayError::OffsetSizeMismatch);
        }
        let mut head: Vec<u8> = Vec::new();
        self.offsets.serialize(&mut head);
        assert(head@ =~= self.offsets.spec_bytes());
        if head.len() > usize::MAX - pos {
            return Err(OffsetArrayError::PositionOverflow);
        }
        write_bytes_at(buf, pos, head.as_slice());
        if offset > pos as u64 {
            return Err(OffsetArrayError::PositionUnderflow);
        }
        let base = pos - offset as usize;
        let items = self.inner.as_items();
        let ghost start = buf@;
        let ghost offs = self.offsets.spec_offsets();
        let mut i: usize = 0;
        while i < N
            invariant
                i <= N,
                base <= pos,
                base == pos - offset,
                offset <= pos,
                self.offsets.spec_size() == size,
                items@.len() == N,
                offs == self.offsets.spec_offsets(),
                offs.len() == N,
                self.inner.spec_items().len() == N,
                forall|k: int| 0 <= k < N ==> items@[k]@ == self.inner.spec_items()[k],
                forall|k: int|
                    0 <= k < N ==> T::Item::spec_writable(#[trigger] self.inner.spec_items()[k]),
                buf@ == write_items::<T::Item>(start, base as int, offs, self.inner.spec_items(), i as nat),
                pos + self.offsets.spec_bytes().len() <= usize::MAX,
                forall|k: int|
                    0 <= k < i ==> base + #[trigger] offs[k] + T::Item::spec_bytes(self.inner.spec_items()[k]).len()
                        <= usize::MAX,
            decreases N - i,
        {
            let mut bytes: Vec<u8> = Vec::new();
            assert(T::Item::spec_writable(self.inner.spec_items()[i as int]));
            items[i].serialize(&mut bytes);
            assert(bytes@ =~= T::Item::spec_bytes(self.inner.spec_items()[i as int]));
            let off = self.offsets.offset(i) as usize;
            if off > usize::MAX - base || bytes.len() > usize::MAX - (base + off) {
                return Err(OffsetArrayError::PositionOverflow);
            }
            write_bytes_at(buf, base + off, bytes.as_slice());
            i = i + 1;
        }
        Ok(())
    }
}

/// Once an item fails to decode, the later prefixes of items fail too.
pub proof fn lemma_items_at_none<I: Codec>(s: Seq<u8>, base: int, offs: Seq<int>, k: nat, n: nat)
    requires
        k <= n,
        items_at::<I>(s, base, offs, k) is None,
    ensures
        items_at::<I>(s, base, offs, n) is None,
    decreases n - k,
{
    if k < n {
        lemma_items_at_none::<I>(s, base, offs, k + 1, n);
    }
}

/// Each pair of bytes of `u16_words_bytes` encodes one of the words.
pub proof fn lemma_u16_words_prefix(vals: Seq<u16>, n: nat)
    requires
        n <= vals.len(),
    ensures
        forall|i: int|
            0 <= i < n ==> #[trigger] u16_words_bytes(vals, n).subrange(2 * i, 2 * i + 2)
                == bytes16(vals[i]),
    decreases n,
{
    if n > 0 {
        lemma_u16_words_prefix(vals, (n - 1) as nat);
        lemma_u16_words_bytes_len(vals, (n - 1) as nat);
        let b = u16_words_bytes(vals, n);
        assert forall|i: int| 0 <= i < n implies #[trigger] b.subrange(2 * i, 2 * i + 2)
            == bytes16(vals[i]) by {
            if i < n - 1 {
                assert(b.subrange(2 * i, 2 * i + 2) =~= u16_words_bytes(
                    vals,
                    (n - 1) as nat,
                ).subrange(2 * i, 2 * i + 2));
            } else {
                assert(b.subrange(2 * i, 2 * i + 2) =~= bytes16(vals[n - 1]));
            }
        }
    }
}

} // verus!
