//! Pages of the database: a header, followed by either index entries or a
//! data section whose rows are located through row groups at the page end.

use crate::codec::{
    agree_on, bytes16, bytes32, holds_at, le16, le32, lemma_agree_holds, lemma_agree_sub, lemma_agree_trans,
    lemma_holds_split, lemma_le16_sub, lemma_le32_sub, lemma_parse_held, lemma_write_at_agree,
    lemma_write_at_holds, lemma_write_at_keeps, push_u16, push_u32, push_u8, read_u16, read_u32,
    write_at, write_bytes_at, Codec,
};
use crate::pdb::bitfields::{spec_num_row_groups, PackedRowCounts, PageFlags};
use crate::pdb::offset_array::OffsetArrayError;
use crate::pdb::rows::{codec_read, codec_write, read_value, write_value, Row};
use crate::pdb::string::{lemma_u16s_bytes, u16s_bytes};
use crate::pdb::{
    bit_set, present_offsets_upto, DatabaseType, IndexEntry, PageIndex, PageType, RowGroup,
    EMPTY_INDEX_ENTRY,
};
use std::collections::BTreeMap;
use vstd::prelude::*;
use vstd::std_specs::bits::u16_leading_zeros;
use vstd::std_specs::iter::IteratorSpec;

verus! {

broadcast use vstd::std_specs::btree::group_btree_axioms;

/// Size of the page header in bytes.
pub const PAGE_HEADER_SIZE: usize = 32;

/// Size of the index page header in bytes.
pub const INDEX_PAGE_HEADER_SIZE: usize = 28;

/// Size of the data page header in bytes.
pub const DATA_PAGE_HEADER_SIZE: usize = 8;

/// The header of a page.
#[derive(Debug, PartialEq, Eq, Clone)]
pub struct PageHeader {
    /// Index of the page; it should match the index used for lookup.
    pub page_index: PageIndex,
    /// Type of information that the rows of this page contain.
    pub page_type: PageType,
    /// Index of the next page with the same page type; past the end of the
    /// file where this page is the last one of that type.
    pub next_page: PageIndex,
    /// Unknown field, a number between 1 and ~2500.
    pub unknown1: u32,
    /// Unknown field, apparently always zero.
    pub unknown2: u32,
    /// Number of used row offsets (13 bits) and of valid rows (11 bits).
    pub packed_row_counts: PackedRowCounts,
    /// Page flags.
    pub page_flags: PageFlags,
    /// Free space in bytes in the data section (excluding the row groups).
    pub free_size: u16,
    /// Used space in bytes in the data section.
    pub used_size: u16,
}

impl PageHeader {
    /// Size of the page header in bytes.
    pub const BINARY_SIZE: u32 = 0x20;

    /// `self` is the header decoded at byte `p` of `s` in a database of kind `db`.
    pub open spec fn spec_read(&self, s: Seq<u8>, p: int, db: DatabaseType) -> bool {
        &&& Self::spec_readable(s, p)
        &&& self.page_index.0 == le32(s, p + 4)
        &&& self.page_type == PageType::spec_from_u32(le32(s, p + 8), db)
        &&& self.next_page.0 == le32(s, p + 12)
        &&& self.unknown1 == le32(s, p + 16)
        &&& self.unknown2 == le32(s, p + 20)
        &&& (self.packed_row_counts.spec_num_rows() as int, self.packed_row_counts.spec_num_rows_valid() as int)
            == PackedRowCounts::spec_from_bytes(s[p + 24], s[p + 25], s[p + 26])
        &&& self.page_flags == PageFlags::spec_from_byte(s[p + 27])
        &&& self.free_size == le16(s, p + 28)
        &&& self.used_size == le16(s, p + 30)
    }

    /// A page header decodes at byte `p` of `s`: 32 bytes that start with the
    /// magic number zero.
    pub open spec fn spec_readable(s: Seq<u8>, p: int) -> bool {
        0 <= p && p + 32 <= s.len() && le32(s, p) == 0
    }

    /// The 32 bytes that encode the header.
    pub open spec fn spec_bytes(&self) -> Seq<u8> {
        Seq::<u8>::empty() + bytes32(0) + bytes32(self.page_index.0) + bytes32(
            self.page_type.spec_to_u32(),
        ) + bytes32(self.next_page.0) + bytes32(self.unknown1) + bytes32(self.unknown2)
            + self.packed_row_counts.spec_bytes() + seq![self.page_flags.spec_byte()] + bytes16(
            self.free_size,
        ) + bytes16(self.used_size)
    }

    /// The encoding of a header whose page type reads back as itself and whose
    /// counters fit their bits decodes to the header.
    #[verifier::spinoff_prover]
    pub proof fn lemma_held_read(&self, s: Seq<u8>, p: int, db: DatabaseType)
        requires
            holds_at(s, p, self.spec_bytes()),
            self.page_type.spec_wf(db),
            self.packed_row_counts.wf(),
        ensures
            self.spec_read(s, p, db),
    {
        let x0 = Seq::<u8>::empty();
        let x1 = x0 + bytes32(0u32);
        let x2 = x1 + bytes32(self.page_index.0);
        let x3 = x2 + bytes32(self.page_type.spec_to_u32());
        let x4 = x3 + bytes32(self.next_page.0);
        let x5 = x4 + bytes32(self.unknown1);
        let x6 = x5 + bytes32(self.unknown2);
        let x7 = x6 + self.packed_row_counts.spec_bytes();
        let x8 = x7 + seq![self.page_flags.spec_byte()];
        let x9 = x8 + bytes16(self.free_size);
        let x10 = x9 + bytes16(self.used_size);
        assert(self.spec_bytes() == x10);
        lemma_holds_split(s, p, x9, bytes16(self.used_size));
        assert(x9.len() == 30);
        lemma_le16_sub(s, p + 30, self.used_size);
        lemma_holds_split(s, p, x8, bytes16(self.free_size));
        assert(x8.len() == 28);
        lemma_le16_sub(s, p + 28, self.free_size);
        lemma_holds_split(s, p, x7, seq![self.page_flags.spec_byte()]);
        assert(x7.len() == 27);
        assert(s[p + 27] == s.subrange(p + 27, p + 27 + 1)[0]);
        lemma_holds_split(s, p, x6, self.packed_row_counts.spec_bytes());
        assert(x6.len() == 24);
        assert(s[p + 24] == s.subrange(p + 24, p + 27)[0]);
        assert(s[p + 25] == s.subrange(p + 24, p + 27)[1]);
        assert(s[p + 26] == s.subrange(p + 24, p + 27)[2]);
        lemma_holds_split(s, p, x5, bytes32(self.unknown2));
        assert(x5.len() == 20);
        lemma_le32_sub(s, p + 20, self.unknown2);
        lemma_holds_split(s, p, x4, bytes32(self.unknown1));
        assert(x4.len() == 16);
        lemma_le32_sub(s, p + 16, self.unknown1);
        lemma_holds_split(s, p, x3, bytes32(self.next_page.0));
        assert(x3.len() == 12);
        lemma_le32_sub(s, p + 12, self.next_page.0);
        lemma_holds_split(s, p, x2, bytes32(self.page_type.spec_to_u32()));
        assert(x2.len() == 8);
        lemma_le32_sub(s, p + 8, self.page_type.spec_to_u32());
        lemma_holds_split(s, p, x1, bytes32(self.page_index.0));
        assert(x1.len() == 4);
        lemma_le32_sub(s, p + 4, self.page_index.0);
        lemma_holds_split(s, p, x0, bytes32(0u32));
        assert(x0.len() == 0);
        lemma_le32_sub(s, p + 0, 0u32);
        self.packed_row_counts.lemma_roundtrip();
        PageFlags::lemma_byte_roundtrip(self.page_flags);
    }

    /// Decodes the header at `pos`.
    pub fn parse(data: &[u8], pos: usize, db: DatabaseType) -> (r: Option<PageHeader>)
        requires
            pos <= data@.len(),
        ensures
            r is Some <==> Self::spec_readable(data@, pos as int),
            r matches Some(h) ==> h.spec_read(data@, pos as int, db) && h.packed_row_counts.wf(),
    {
        if data.len() - pos < 32 || read_u32(data, pos) != 0 {
            return None;
        }
        let page_index = PageIndex(read_u32(data, pos + 4));
        let page_type = PageType::from_u32(read_u32(data, pos + 8), db);
        let next_page = PageIndex(read_u32(data, pos + 12));
        let unknown1 = read_u32(data, pos + 16);
        let unknown2 = read_u32(data, pos + 20);
        let packed_row_counts = PackedRowCounts::from_bytes(
            [data[pos + 24], data[pos + 25], data[pos + 26]],
        );
        let page_flags = PageFlags::from_bytes([data[pos + 27]]);
        let free_size = read_u16(data, pos + 28);
        let used_size = read_u16(data, pos + 30);
        Some(
            PageHeader {
                page_index,
                page_type,
                next_page,
                unknown1,
                unknown2,
                packed_row_counts,
                page_flags,
                free_size,
                used_size,
            },
        )
    }

    /// Appends the 32 bytes that encode the header.
    pub fn serialize(&self, out: &mut Vec<u8>)
        requires
            self.packed_row_counts.wf(),
        ensures
            final(out)@ == old(out)@ + self.spec_bytes(),
            self.spec_bytes().len() == 32,
    {
        let ghost start = out@;
        let mut v: Vec<u8> = Vec::new();
        push_u32(&mut v, 0);
        push_u32(&mut v, self.page_index.0);
        push_u32(&mut v, self.page_type.to_u32());
        push_u32(&mut v, self.next_page.0);
        push_u32(&mut v, self.unknown1);
        push_u32(&mut v, self.unknown2);
        let counts = self.packed_row_counts.into_bytes();
        push_u8(&mut v, counts[0]);
        push_u8(&mut v, counts[1]);
        push_u8(&mut v, counts[2]);
        let flags = self.page_flags.into_bytes();
        push_u8(&mut v, flags[0]);
        push_u16(&mut v, self.free_size);
        push_u16(&mut v, self.used_size);
        assert(v@ =~= self.spec_bytes());
        let mut i: usize = 0;
        while i < v.len()
            invariant
                i <= v@.len(),
                out@ == start + v@.take(i as int),
            decreases v@.len() - i,
        {
            out.push(v[i]);
            i = i + 1;
            assert(out@ =~= start + v@.take(i as int));
        }
        assert(v@.take(v@.len() as int) =~= v@);
    }
}

/// The header of an index page.
#[derive(Debug, PartialEq, Eq, Clone)]
pub struct IndexPageHeader {
    /// Unknown field, usually `0x1fff` or `0x0001`.
    pub unknown_a: u16,
    /// Unknown field, usually `0x1fff` or `0x0000`.
    pub unknown_b: u16,
    /// Offset where the next index entry will be written, counted in entries.
    pub next_offset: u16,
    /// Redundant page index.
    pub page_index: PageIndex,
    /// Redundant next page index.
    pub next_page: PageIndex,
    /// Number of index entries in this page.
    pub num_entries: u16,
    /// Points to the first empty index entry, or `0x1fff` if none.
    pub first_empty: u16,
}

impl IndexPageHeader {
    /// Size of the index page header in bytes.
    pub const BINARY_SIZE: u32 = 28;

    /// `self` is the index page header decoded at byte `p` of `s`.
    pub open spec fn spec_read(&self, s: Seq<u8>, p: int) -> bool {
        &&& Self::spec_readable(s, p)
        &&& self.unknown_a == le16(s, p)
        &&& self.unknown_b == le16(s, p + 2)
        &&& self.next_offset == le16(s, p + 6)
        &&& self.page_index.0 == le32(s, p + 8)
        &&& self.next_page.0 == le32(s, p + 12)
        &&& self.num_entries == le16(s, p + 24)
        &&& self.first_empty == le16(s, p + 26)
    }

    /// An index page header decodes at byte `p` of `s`: 28 bytes with the magic
    /// `0x03ec` at 4 and the magic `0x03ffffff` (as a `u64`) at 16.
    pub open spec fn spec_readable(s: Seq<u8>, p: int) -> bool {
        &&& 0 <= p && p + 28 <= s.len()
        &&& le16(s, p + 4) == 0x03ec
        &&& le32(s, p + 16) == 0x03ff_ffff
        &&& le32(s, p + 20) == 0
    }

    /// The 28 bytes that encode the header.
    pub open spec fn spec_bytes(&self) -> Seq<u8> {
        Seq::<u8>::empty() + bytes16(self.unknown_a) + bytes16(self.unknown_b) + bytes16(0x03ec)
            + bytes16(self.next_offset) + bytes32(self.page_index.0) + bytes32(self.next_page.0)
            + bytes32(0x03ff_ffff) + bytes32(0) + bytes16(self.num_entries) + bytes16(
            self.first_empty,
        )
    }

    /// The encoding of an index page header decodes to the header.
    #[verifier::spinoff_prover]
    pub proof fn lemma_held_read(&self, s: Seq<u8>, p: int)
        requires
            holds_at(s, p, self.spec_bytes()),
        ensures
            self.spec_read(s, p),
    {
        let x0 = Seq::<u8>::empty();
        let x1 = x0 + bytes16(self.unknown_a);
        let x2 = x1 + bytes16(self.unknown_b);
        let x3 = x2 + bytes16(0x03ecu16);
        let x4 = x3 + bytes16(self.next_offset);
        let x5 = x4 + bytes32(self.page_index.0);
        let x6 = x5 + bytes32(self.next_page.0);
        let x7 = x6 + bytes32(0x03ff_ffffu32);
        let x8 = x7 + bytes32(0u32);
        let x9 = x8 + bytes16(self.num_entries);
        let x10 = x9 + bytes16(self.first_empty);
        assert(self.spec_bytes() == x10);
        lemma_holds_split(s, p, x9, bytes16(self.first_empty));
        assert(x9.len() == 26);
        lemma_le16_sub(s, p + 26, self.first_empty);
        lemma_holds_split(s, p, x8, bytes16(self.num_entries));
        assert(x8.len() == 24);
        lemma_le16_sub(s, p + 24, self.num_entries);
        lemma_holds_split(s, p, x7, bytes32(0u32));
        assert(x7.len() == 20);
        lemma_le32_sub(s, p + 20, 0u32);
        lemma_holds_split(s, p, x6, bytes32(0x03ff_ffffu32));
        assert(x6.len() == 16);
        lemma_le32_sub(s, p + 16, 0x03ff_ffffu32);
        lemma_holds_split(s, p, x5, bytes32(self.next_page.0));
        assert(x5.len() == 12);
        lemma_le32_sub(s, p + 12, self.next_page.0);
        lemma_holds_split(s, p, x4, bytes32(self.page_index.0));
        assert(x4.len() == 8);
        lemma_le32_sub(s, p + 8, self.page_index.0);
        lemma_holds_split(s, p, x3, bytes16(self.next_offset));
        assert(x3.len() == 6);
        lemma_le16_sub(s, p + 6, self.next_offset);
        lemma_holds_split(s, p, x2, bytes16(0x03ecu16));
        assert(x2.len() == 4);
        lemma_le16_sub(s, p + 4, 0x03ecu16);
        lemma_holds_split(s, p, x1, bytes16(self.unknown_b));
        assert(x1.len() == 2);
        lemma_le16_sub(s, p + 2, self.unknown_b);
        lemma_holds_split(s, p, x0, bytes16(self.unknown_a));
        assert(x0.len() == 0);
        lemma_le16_sub(s, p + 0, self.unknown_a);
    }

    /// Decodes the header at `pos`.
    pub fn parse(data: &[u8], pos: usize) -> (r: Option<IndexPageHeader>)
        requires
            pos <= data@.len(),
        ensures
            r is Some <==> Self::spec_readable(data@, pos as int),
            r matches Some(h) ==> h.spec_read(data@, pos as int),
    {
        if data.len() - pos < 28 || read_u16(data, pos + 4) != 0x03ec || read_u32(data, pos + 16)
            != 0x03ff_ffff || read_u32(data, pos + 20) != 0 {
            return None;
        }
        Some(
            IndexPageHeader {
                unknown_a: read_u16(data, pos),
                unknown_b: read_u16(data, pos + 2),
                next_offset: read_u16(data, pos + 6),
                page_index: PageIndex(read_u32(data, pos + 8)),
                next_page: PageIndex(read_u32(data, pos + 12)),
                num_entries: read_u16(data, pos + 24),
                first_empty: read_u16(data, pos + 26),
            },
        )
    }

    /// Appends the 28 bytes that encode the header.
    pub fn serialize(&self, out: &mut Vec<u8>)
        ensures
            final(out)@ == old(out)@ + self.spec_bytes(),
            self.spec_bytes().len() == 28,
    {
        let ghost start = out@;
        push_u16(out, self.unknown_a);
        push_u16(out, self.unknown_b);
        push_u16(out, 0x03ec);
        push_u16(out, self.next_offset);
        push_u32(out, self.page_index.0);
        push_u32(out, self.next_page.0);
        push_u32(out, 0x03ff_ffff);
        push_u32(out, 0);
        push_u16(out, self.num_entries);
        push_u16(out, self.first_empty);
        assert(out@ =~= start + self.spec_bytes());
    }
}

/// The bytes of the given index entries, one after the other.
pub open spec fn entries_bytes(entries: Seq<IndexEntry>) -> Seq<u8>
    decreases entries.len(),
{
    if entries.len() == 0 {
        Seq::empty()
    } else {
        entries_bytes(entries.drop_last()) + bytes32(entries.last().0)
    }
}

/// The entries take four bytes each.
pub proof fn lemma_entries_bytes_len(e: Seq<IndexEntry>)
    ensures
        entries_bytes(e).len() == 4 * e.len(),
    decreases e.len(),
{
    if e.len() > 0 {
        lemma_entries_bytes_len(e.drop_last());
    }
}

/// Entries held at `q` decode, four bytes each, to themselves.
pub proof fn lemma_entries_held(s: Seq<u8>, q: int, e: Seq<IndexEntry>)
    requires
        holds_at(s, q, entries_bytes(e)),
    ensures
        forall|i: int| 0 <= i < e.len() ==> #[trigger] e[i].0 == le32(s, q + 4 * i),
    decreases e.len(),
{
    if e.len() > 0 {
        let d = e.drop_last();
        lemma_entries_bytes_len(d);
        lemma_holds_split(s, q, entries_bytes(d), bytes32(e.last().0));
        lemma_entries_held(s, q, d);
        lemma_le32_sub(s, q + 4 * d.len(), e.last().0);
        assert forall|i: int| 0 <= i < e.len() implies #[trigger] e[i].0 == le32(s, q + 4 * i) by {
            if i < d.len() {
                assert(d[i] == e[i]);
            }
        }
    }
}

/// The bytes of `n` empty index entries.
pub open spec fn empty_entries_bytes(n: nat) -> Seq<u8>
    decreases n,
{
    if n == 0 {
        Seq::empty()
    } else {
        empty_entries_bytes((n - 1) as nat) + bytes32(EMPTY_INDEX_ENTRY)
    }
}

/// The empty entries take four bytes each.
pub proof fn lemma_empty_entries_bytes_len(n: nat)
    ensures
        empty_entries_bytes(n).len() == 4 * n,
    decreases n,
{
    if n > 0 {
        lemma_empty_entries_bytes_len((n - 1) as nat);
    }
}

/// Number of index entries that fit into an index page of `page_size` bytes:
/// the space after both headers, less 20 trailing bytes, in four-byte entries.
pub open spec fn spec_total_entries(page_size: u32) -> int {
    (page_size - 32 - 28 - 20) / 4
}

/// The content of an index page.
#[derive(Debug, PartialEq, Eq, Clone)]
pub struct IndexPageContent {
    /// The header of the index page.
    pub header: IndexPageHeader,
    /// The index entries.
    pub entries: Vec<IndexEntry>,
}

impl IndexPageContent {
    /// `self` is the index content decoded at byte `p` of `s`.
    pub open spec fn spec_read(&self, s: Seq<u8>, p: int) -> bool {
        &&& self.header.spec_read(s, p)
        &&& p + 28 + 4 * self.header.num_entries <= s.len()
        &&& self.entries@.len() == self.header.num_entries
        &&& forall|i: int|
            0 <= i < self.entries@.len() ==> #[trigger] self.entries@[i].0 == le32(
                s,
                p + 28 + 4 * i,
            )
    }

    /// An index content decodes at byte `p` of `s`.
    pub open spec fn spec_readable(s: Seq<u8>, p: int) -> bool {
        IndexPageHeader::spec_readable(s, p) && p + 28 + 4 * le16(s, p + 24) <= s.len()
    }

    /// The bytes that encode the content in a page of `page_size` bytes: the
    /// header, the entries, empty entries up to the capacity, and 20 zeros.
    pub open spec fn spec_bytes(&self, page_size: u32) -> Seq<u8> {
        self.header.spec_bytes() + entries_bytes(self.entries@) + empty_entries_bytes(
            (spec_total_entries(page_size) - self.header.num_entries) as nat,
        ) + Seq::new(20, |i: int| 0u8)
    }

    /// The encoding of an index content whose header counts its entries
    /// decodes to the content.
    pub proof fn lemma_held_read(&self, s: Seq<u8>, p: int, page_size: u32)
        requires
            holds_at(s, p, self.spec_bytes(page_size)),
            self.entries@.len() == self.header.num_entries,
        ensures
            self.spec_read(s, p),
    {
        let ih = self.header.spec_bytes();
        let eb = entries_bytes(self.entries@);
        let empties = empty_entries_bytes((spec_total_entries(page_size) - self.header.num_entries) as nat);
        lemma_holds_split(s, p, ih + eb + empties, Seq::new(20, |i: int| 0u8));
        lemma_holds_split(s, p, ih + eb, empties);
        lemma_holds_split(s, p, ih, eb);
        assert(ih.len() == 28);
        self.header.lemma_held_read(s, p);
        lemma_entries_bytes_len(self.entries@);
        lemma_entries_held(s, p + 28, self.entries@);
    }

    /// Number of index entries that fit into an index page of `page_size` bytes.
    pub fn total_entries(page_size: u32) -> (r: usize)
        requires
            page_size >= 80,
        ensures
            r == spec_total_entries(page_size),
    {
        ((page_size - 32 - 28 - 20) / 4) as usize
    }

    /// Decodes the index content at `pos`: the header, then its number of entries.
    pub fn parse(data: &[u8], pos: usize) -> (r: Option<IndexPageContent>)
        requires
            pos <= data@.len(),
        ensures
            r is Some <==> Self::spec_readable(data@, pos as int),
            r matches Some(c) ==> c.spec_read(data@, pos as int),
    {
        let header = match IndexPageHeader::parse(data, pos) {
            Some(h) => h,
            None => {
                return None;
            },
        };
        let n = header.num_entries as usize;
        if (data.len() - pos - 28) / 4 < n {
            return None;
        }
        let mut entries: Vec<IndexEntry> = Vec::new();
        let mut i: usize = 0;
        while i < n
            invariant
                i <= n,
                n == header.num_entries,
                data.len() == data@.len(),
                pos + 28 + 4 * n <= data@.len(),
                entries@.len() == i,
                forall|k: int|
                    0 <= k < i ==> #[trigger] entries@[k].0 == le32(data@, pos + 28 + 4 * k),
            decreases n - i,
        {
            entries.push(IndexEntry(read_u32(data, pos + 28 + 4 * i)));
            i = i + 1;
        }
        Some(IndexPageContent { header, entries })
    }

    /// Appends the encoding of the content for a page of `page_size` bytes.
    pub fn serialize(&self, out: &mut Vec<u8>, page_size: u32)
        requires
            page_size >= 80,
            self.header.num_entries <= spec_total_entries(page_size),
        ensures
            final(out)@ == old(out)@ + self.spec_bytes(page_size),
    {
        let ghost start = out@;
        self.header.serialize(out);
        let mut i: usize = 0;
        while i < self.entries.len()
            invariant
                i <= self.entries@.len(),
                out@ == start + self.header.spec_bytes() + entries_bytes(
                    self.entries@.take(i as int),
                ),
            decreases self.entries@.len() - i,
        {
            assert(self.entries@.take(i + 1).drop_last() =~= self.entries@.take(i as int));
            push_u32(out, self.entries[i].0);
            i = i + 1;
            assert(out@ =~= start + self.header.spec_bytes() + entries_bytes(
                self.entries@.take(i as int),
            ));
        }
        assert(self.entries@.take(self.entries@.len() as int) =~= self.entries@);
        let empty = Self::total_entries(page_size) - self.header.num_entries as usize;
        let ghost mid = out@;
        let mut j: usize = 0;
        while j < empty
            invariant
                j <= empty,
                out@ == mid + empty_entries_bytes(j as nat),
            decreases empty - j,
        {
            push_u32(out, EMPTY_INDEX_ENTRY);
            j = j + 1;
            assert(out@ =~= mid + empty_entries_bytes(j as nat));
        }
        let ghost before = out@;
        let mut k: usize = 0;
        while k < 20
            invariant
                k <= 20,
                out@ == before + Seq::new(k as nat, |i: int| 0u8),
            decreases 20 - k,
        {
            out.push(0u8);
            k = k + 1;
            assert(out@ =~= before + Seq::new(k as nat, |i: int| 0u8));
        }
        assert(out@ =~= start + self.spec_bytes(page_size));
    }
}


/// The header of the data part of a page.
#[derive(Debug, PartialEq, Eq, Clone, Copy, Structural)]
pub struct DataPageHeader {
    /// Unknown field, often 1 or 0x1fff.
    pub unknown5: u16,
    /// Unknown field related to the number of rows in the table, but not equal to it.
    pub unknown_not_num_rows_large: u16,
    /// Unknown field (usually zero).
    pub unknown6: u16,
    /// Unknown field (usually zero).
    pub unknown7: u16,
}

impl View for DataPageHeader {
    type V = (u16, (u16, (u16, u16)));

    open spec fn view(&self) -> (u16, (u16, (u16, u16))) {
        (self.unknown5, (self.unknown_not_num_rows_large, (self.unknown6, self.unknown7)))
    }
}

impl Codec for DataPageHeader {
    open spec fn spec_bytes(v: (u16, (u16, (u16, u16)))) -> Seq<u8> {
        <(u16, (u16, (u16, u16))) as Codec>::spec_bytes(v)
    }

    open spec fn spec_parse(s: Seq<u8>, p: int) -> Option<((u16, (u16, (u16, u16))), int)> {
        <(u16, (u16, (u16, u16))) as Codec>::spec_parse(s, p)
    }

    open spec fn spec_wf(v: (u16, (u16, (u16, u16)))) -> bool {
        true
    }

    open spec fn spec_writable(v: (u16, (u16, (u16, u16)))) -> bool {
        true
    }

    proof fn lemma_parse_bounds(s: Seq<u8>, p: int) {
        <(u16, (u16, (u16, u16))) as Codec>::lemma_parse_bounds(s, p);
    }

    proof fn lemma_parse_writable(s: Seq<u8>, p: int) {
        <(u16, (u16, (u16, u16))) as Codec>::lemma_parse_writable(s, p);
    }

    proof fn lemma_roundtrip(v: (u16, (u16, (u16, u16))), pre: Seq<u8>, post: Seq<u8>) {
        <(u16, (u16, (u16, u16))) as Codec>::lemma_roundtrip(v, pre, post);
    }

    fn parse(data: &[u8], pos: usize) -> (r: Option<(DataPageHeader, usize)>) {
        match <(u16, (u16, (u16, u16))) as Codec>::parse(data, pos) {
            Some(((a, (b, (c, d))), e)) => Some(
                (
                    DataPageHeader {
                        unknown5: a,
                        unknown_not_num_rows_large: b,
                        unknown6: c,
                        unknown7: d,
                    },
                    e,
                ),
            ),
            None => None,
        }
    }

    fn byte_len(&self) -> (r: usize) {
        8
    }

    fn serialize(&self, out: &mut Vec<u8>) {
        push_u16(out, self.unknown5);
        push_u16(out, self.unknown_not_num_rows_large);
        push_u16(out, self.unknown6);
        push_u16(out, self.unknown7);
        assert(final(out)@ =~= old(out)@ + Self::spec_bytes(self@));
    }
}

/// The sixteen row offsets of a row group stored at byte `q` of `s`.
pub open spec fn group_offsets_at(s: Seq<u8>, q: int) -> Seq<u16> {
    Seq::new(16, |k: int| le16(s, q + 2 * k))
}

/// The offsets of the present rows of the row group stored at byte `q` of `s`.
pub open spec fn group_present_at(s: Seq<u8>, q: int) -> Seq<u16> {
    present_offsets_upto(group_offsets_at(s, q), le16(s, q + 32), 16)
}

/// Where row group `i` of a page ending at byte `end` is stored: row groups are
/// laid out backwards from the end of the page, 36 bytes each.
pub open spec fn group_pos(end: int, i: int) -> int {
    end - 36 * (i + 1)
}

/// The offsets of the present rows of the first `n` row groups of a page ending
/// at byte `end`, group by group.
pub open spec fn groups_present_at(s: Seq<u8>, end: int, n: nat) -> Seq<u16>
    decreases n,
{
    if n == 0 {
        Seq::empty()
    } else {
        groups_present_at(s, end, (n - 1) as nat) + group_present_at(s, group_pos(end, n - 1))
    }
}

/// The offsets of the present rows of the given row groups, group by group.
pub open spec fn groups_present(groups: Seq<RowGroup>) -> Seq<u16>
    decreases groups.len(),
{
    if groups.len() == 0 {
        Seq::empty()
    } else {
        groups_present(groups.drop_last()) + groups.last().spec_present()
    }
}

/// The bytes of a row group that are written: the offsets from the first
/// present one on (as many as the flags have leading zeros are skipped), then
/// the flags and the unknown field.
pub open spec fn group_tail_bytes(g: RowGroup) -> Seq<u8> {
    let skip = u16_leading_zeros(g.row_presence_flags) as int;
    u16s_bytes(g.row_offsets@.subrange(skip, 16)) + bytes16(g.row_presence_flags) + bytes16(
        g.unknown,
    )
}

/// `buf` after writing the first `k` row groups backwards from byte `end`; each
/// group's written bytes end where the group ends.
pub open spec fn groups_written(buf: Seq<u8>, end: int, groups: Seq<RowGroup>, k: nat) -> Seq<u8>
    decreases k,
{
    if k == 0 {
        buf
    } else {
        let g = groups[k - 1];
        write_at(
            groups_written(buf, end, groups, (k - 1) as nat),
            group_pos(end, k - 1) + 2 * (u16_leading_zeros(g.row_presence_flags) as int),
            group_tail_bytes(g),
        )
    }
}

/// The first `n` row groups of a page ending at byte `end` lie within `len` bytes.
pub open spec fn groups_in_bounds(len: int, end: int, n: int) -> bool {
    forall|i: int| 0 <= i < n ==> 0 <= #[trigger] group_pos(end, i) && group_pos(end, i) + 36 <= len
}

/// A row of a page of type `t` decodes at `base` plus each of the offsets.
pub open spec fn rows_readable_at(s: Seq<u8>, base: int, offs: Seq<u16>, t: PageType) -> bool {
    forall|i: int| 0 <= i < offs.len() ==> Row::spec_readable(s, base + #[trigger] offs[i], t)
}

/// Appending an element adds it to the set of elements.
pub proof fn lemma_push_to_set(t: Seq<u16>, o: u16)
    ensures
        t.push(o).to_set() == t.to_set().insert(o),
{
    let t1 = t.push(o);
    assert forall|x: u16| t1.contains(x) <==> (t.contains(x) || x == o) by {
        if t.contains(x) {
            let k = choose|k: int| 0 <= k < t.len() && t[k] == x;
            assert(t1[k] == x);
        }
        if x == o {
            assert(t1[t.len() as int] == o);
        }
        if t1.contains(x) {
            let k = choose|k: int| 0 <= k < t1.len() && t1[k] == x;
            if k < t.len() {
                assert(t[k] == x);
            }
        }
    }
    assert(t1.to_set() =~= t.to_set().insert(o));
}

/// `v` lists the entries of `m` by increasing key.
pub open spec fn sorted_entries(m: Map<u16, Row>, v: Seq<(u16, Row)>) -> bool {
    &&& v.len() == m.dom().len()
    &&& forall|i: int| 0 <= i < v.len() ==> #[trigger] m.contains_key(v[i].0) && m[v[i].0] == v[i].1
    &&& forall|i: int, j: int| 0 <= i < j < v.len() ==> v[i].0 < v[j].0
    &&& forall|k: u16| #[trigger] m.contains_key(k) ==> exists|i: int| 0 <= i < v.len() && v[i].0 == k
}

/// The entries of a map iteration, as values.
pub open spec fn deref_entries<'a>(v: Seq<(&'a u16, &'a Row)>) -> Seq<(u16, Row)> {
    v.map_values(|kv: (&'a u16, &'a Row)| (*kv.0, *kv.1))
}

/// A map iteration lists the entries of the map by increasing offset.
pub proof fn lemma_iter_sorted(m: &BTreeMap<u16, Row>)
    requires
        offset_keys_ordered(),
        vstd::std_specs::btree::increasing_seq(
            vstd::std_specs::btree::spec_btree_map_iter(m).remaining().map_values(
                |kv: (&u16, &Row)| *kv.0,
            ),
        ),
    ensures
        sorted_entries(m@, deref_entries(vstd::std_specs::btree::spec_btree_map_iter(m).remaining())),
{
    let r = vstd::std_specs::btree::spec_btree_map_iter(m).remaining();
    let ks = r.map_values(|kv: (&u16, &Row)| *kv.0);
    let v = deref_entries(r);
    vstd::std_specs::btree::axiom_increasing_seq_meaning(ks);
    assert(r.len() == m@.dom().len());
    assert forall|i: int| 0 <= i < v.len() implies #[trigger] m@.contains_key(v[i].0) && m@[v[i].0] == v[i].1 by {
        assert(m@.contains_key(*r[i].0));
    }
    assert forall|i: int, j: int| 0 <= i < j < v.len() implies v[i].0 < v[j].0 by {
        assert(ks[i] == v[i].0 && ks[j] == v[j].0);
        assert(vstd::std_specs::cmp::OrdSpec::cmp_spec(&ks[i], &ks[j]) is Less);
    }
    assert forall|k: u16| #[trigger] m@.contains_key(k) implies exists|i: int| 0 <= i < v.len() && v[i].0 == k by {
        assert(r.contains((&k, &m@[k])));
        let i = choose|i: int| 0 <= i < r.len() && r[i] == (&k, &m@[k]);
        assert(v[i].0 == k);
    }
}

/// The entry that a map iteration visits at step `k` is in the map.
pub proof fn lemma_iter_entry_in_map(m: &BTreeMap<u16, Row>, k: int)
    requires
        offset_keys_ordered(),
        0 <= k < vstd::std_specs::btree::spec_btree_map_iter(m).remaining().len(),
    ensures
        ({
            let e = vstd::std_specs::btree::spec_btree_map_iter(m).remaining()[k];
            m@.contains_key(*e.0) && m@[*e.0] == *e.1
        }),
{
    let r = vstd::std_specs::btree::spec_btree_map_iter(m).remaining();
    assert(m@.contains_key(*r[k].0));
}

/// `buf` after writing the first `k` rows of `v`, each at `base` plus its offset.
pub open spec fn rows_written(buf: Seq<u8>, base: int, v: Seq<(u16, Row)>, k: nat) -> Seq<u8>
    decreases k,
{
    if k == 0 {
        buf
    } else {
        let e = v[k - 1];
        e.1.spec_write(rows_written(buf, base, v, (k - 1) as nat), base + e.0)
    }
}

/// Writing rows at offsets from `base` keeps the bytes held before `base`.
pub proof fn lemma_rows_written_keeps(buf: Seq<u8>, base: int, v: Seq<(u16, Row)>, k: nat, r: int, c: Seq<u8>)
    requires
        holds_at(buf, r, c),
        r + c.len() <= base,
        k <= v.len(),
    ensures
        holds_at(rows_written(buf, base, v, k), r, c),
    decreases k,
{
    if k > 0 {
        lemma_rows_written_keeps(buf, base, v, (k - 1) as nat, r, c);
        let e = v[k - 1];
        e.1.lemma_write_keeps_before(rows_written(buf, base, v, (k - 1) as nat), base + e.0, r, c);
    }
}

/// Writing the first `k` row groups backwards from `end` keeps the bytes held
/// before the last of them.
pub proof fn lemma_groups_written_keeps(buf: Seq<u8>, end: int, groups: Seq<RowGroup>, k: nat, r: int, c: Seq<u8>)
    requires
        holds_at(buf, r, c),
        r + c.len() <= end - 36 * k,
    ensures
        holds_at(groups_written(buf, end, groups, k), r, c),
    decreases k,
{
    if k > 0 {
        lemma_groups_written_keeps(buf, end, groups, (k - 1) as nat, r, c);
        let g = groups[k - 1];
        lemma_write_at_keeps(
            groups_written(buf, end, groups, (k - 1) as nat),
            group_pos(end, k - 1) + 2 * (u16_leading_zeros(g.row_presence_flags) as int),
            group_tail_bytes(g),
            r,
            c,
        );
    }
}

/// Where the written bytes of row group `g`, number `i` of a page ending at
/// byte `end`, start: after the offsets skipped before its first present row.
pub open spec fn group_tail_pos(end: int, i: int, g: RowGroup) -> int {
    group_pos(end, i) + 2 * (u16_leading_zeros(g.row_presence_flags) as int)
}

/// The written bytes of a row group end where the group ends.
pub proof fn lemma_group_tail_len(g: RowGroup)
    ensures
        0 <= u16_leading_zeros(g.row_presence_flags) <= 16,
        group_tail_bytes(g).len() == 36 - 2 * (u16_leading_zeros(g.row_presence_flags) as int),
{
    vstd::std_specs::bits::axiom_u16_leading_zeros(g.row_presence_flags);
    let skip = u16_leading_zeros(g.row_presence_flags) as int;
    lemma_u16s_bytes(g.row_offsets@.subrange(skip, 16));
}

/// After writing the first `k` row groups backwards from `end`, the written
/// bytes of each of them are held.
pub proof fn lemma_groups_written_hold(buf: Seq<u8>, end: int, groups: Seq<RowGroup>, k: nat)
    requires
        36 * k <= end,
        k <= groups.len(),
    ensures
        forall|i: int|
            0 <= i < k ==> holds_at(
                groups_written(buf, end, groups, k),
                group_tail_pos(end, i, groups[i]),
                group_tail_bytes(#[trigger] groups[i]),
            ),
        k > 0 ==> groups_written(buf, end, groups, k).len() >= end,
        groups_written(buf, end, groups, k).len() >= buf.len(),
    decreases k,
{
    if k > 0 {
        let prev = groups_written(buf, end, groups, (k - 1) as nat);
        lemma_groups_written_hold(buf, end, groups, (k - 1) as nat);
        let g = groups[k - 1];
        lemma_group_tail_len(g);
        let q = group_tail_pos(end, k - 1, g);
        let tb = group_tail_bytes(g);
        lemma_write_at_holds(prev, q, tb);
        assert forall|i: int| 0 <= i < k implies holds_at(
            write_at(prev, q, tb),
            group_tail_pos(end, i, groups[i]),
            group_tail_bytes(#[trigger] groups[i]),
        ) by {
            if i < k - 1 {
                lemma_group_tail_len(groups[i]);
                lemma_write_at_keeps(prev, q, tb, group_tail_pos(end, i, groups[i]), group_tail_bytes(groups[i]));
            }
        }
    }
}

/// Writing the first `k` row groups keeps the bytes of a range that none of
/// their written parts meets.
pub proof fn lemma_groups_written_agree(buf: Seq<u8>, end: int, groups: Seq<RowGroup>, k: nat, lo: int, hi: int)
    requires
        36 * k <= end,
        k <= groups.len(),
        0 <= lo <= hi <= buf.len(),
        forall|i: int|
            0 <= i < k ==> group_pos(end, i) + 36 <= lo || hi <= #[trigger] group_tail_pos(end, i, groups[i]),
    ensures
        agree_on(buf, groups_written(buf, end, groups, k), lo, hi),
    decreases k,
{
    if k > 0 {
        let prev = groups_written(buf, end, groups, (k - 1) as nat);
        lemma_groups_written_agree(buf, end, groups, (k - 1) as nat, lo, hi);
        lemma_groups_written_hold(buf, end, groups, (k - 1) as nat);
        let g = groups[k - 1];
        lemma_group_tail_len(g);
        assert(group_pos(end, k - 1) + 36 <= lo || hi <= group_tail_pos(end, k - 1, groups[k - 1]));
        lemma_write_at_agree(prev, group_tail_pos(end, k - 1, g), group_tail_bytes(g), lo, hi);
        lemma_agree_trans(buf, prev, write_at(prev, group_tail_pos(end, k - 1, g), group_tail_bytes(g)), lo, hi);
    }
}

/// The row group `g` stored at `gp` of `s` reads back: its flags, its unknown
/// field, and its offsets from the first present row on.
pub open spec fn group_read_back(g: RowGroup, s: Seq<u8>, gp: int) -> bool {
    &&& g.row_presence_flags == le16(s, gp + 32)
    &&& g.unknown == le16(s, gp + 34)
    &&& forall|j: int|
        u16_leading_zeros(g.row_presence_flags) <= j < 16 ==> #[trigger] g.row_offsets@[j] == le16(
            s,
            gp + 2 * j,
        )
}

/// The written bytes of a row group, held where they belong, read back.
pub proof fn lemma_group_tail_read(s: Seq<u8>, gp: int, g: RowGroup)
    requires
        holds_at(s, gp + 2 * (u16_leading_zeros(g.row_presence_flags) as int), group_tail_bytes(g)),
    ensures
        group_read_back(g, s, gp),
{
    lemma_group_tail_len(g);
    let skip = u16_leading_zeros(g.row_presence_flags) as int;
    let u = g.row_offsets@.subrange(skip, 16);
    let ub = u16s_bytes(u);
    lemma_u16s_bytes(u);
    let q = gp + 2 * skip;
    lemma_holds_split(s, q, ub + bytes16(g.row_presence_flags), bytes16(g.unknown));
    lemma_holds_split(s, q, ub, bytes16(g.row_presence_flags));
    lemma_le16_sub(s, q + ub.len(), g.row_presence_flags);
    lemma_le16_sub(s, q + ub.len() + 2, g.unknown);
    assert forall|j: int| skip <= j < 16 implies #[trigger] g.row_offsets@[j] == le16(s, gp + 2 * j) by {
        let m = j - skip;
        assert(s.subrange(q + 2 * m, q + 2 * m + 2) =~= ub.subrange(2 * m, 2 * m + 2));
        lemma_le16_sub(s, q + 2 * m, u[m]);
    }
}

/// Offsets that agree at every present place give the same present offsets.
pub proof fn lemma_present_agree(a: Seq<u16>, b: Seq<u16>, f: u16, n: nat)
    requires
        n <= 16,
        forall|i: int| 0 <= i < n && #[trigger] bit_set(f, i as u16) ==> a[15 - i] == b[15 - i],
    ensures
        present_offsets_upto(a, f, n) == present_offsets_upto(b, f, n),
    decreases n,
{
    if n > 0 {
        lemma_present_agree(a, b, f, (n - 1) as nat);
        if bit_set(f, (n - 1) as u16) {
            assert(a[15 - (n - 1)] == b[15 - (n - 1)]);
        }
    }
}

/// A present place of a row group lies at or after its skipped offsets.
pub proof fn lemma_present_place(f: u16, i: int)
    requires
        0 <= i < 16,
        bit_set(f, i as u16),
    ensures
        u16_leading_zeros(f) <= 15 - i,
{
    vstd::std_specs::bits::axiom_u16_leading_zeros(f);
    if 16 - u16_leading_zeros(f) <= i {
        assert((f >> (i as u16)) & 1u16 == 0u16);
    }
}

/// Row groups that read back give the present offsets read from the bytes.
pub proof fn lemma_groups_present_read(s: Seq<u8>, end: int, groups: Seq<RowGroup>)
    requires
        forall|i: int| 0 <= i < groups.len() ==> group_read_back(#[trigger] groups[i], s, group_pos(end, i)),
    ensures
        groups_present_at(s, end, groups.len()) == groups_present(groups),
    decreases groups.len(),
{
    if groups.len() > 0 {
        let init = groups.drop_last();
        assert forall|i: int| 0 <= i < init.len() implies group_read_back(#[trigger] init[i], s, group_pos(end, i)) by {
            assert(init[i] == groups[i]);
        }
        lemma_groups_present_read(s, end, init);
        let n = groups.len() - 1;
        let g = groups.last();
        assert(group_read_back(groups[n], s, group_pos(end, n)));
        let gp = group_pos(end, n);
        assert forall|i: int| 0 <= i < 16 && #[trigger] bit_set(g.row_presence_flags, i as u16) implies g.row_offsets@[15 - i]
            == group_offsets_at(s, gp)[15 - i] by {
            lemma_present_place(g.row_presence_flags, i);
        }
        lemma_present_agree(g.row_offsets@, group_offsets_at(s, gp), g.row_presence_flags, 16);
    }
}

/// Where row entry `e` ends in the page heap: its offset plus the bytes the row takes.
pub open spec fn entry_end(e: (u16, Row)) -> int {
    e.0 + e.1.spec_heap_bytes()
}

/// Every row entry writes only within its range of the heap at `base`, and
/// the ranges of two entries do not overlap.
pub open spec fn entries_apart(base: int, v: Seq<(u16, Row)>) -> bool {
    &&& forall|i: int|
        0 <= i < v.len() ==> (#[trigger] v[i]).1.spec_within(base + v[i].0, base + v[i].0, base + entry_end(v[i]))
    &&& forall|i: int, j: int|
        #![trigger v[i], v[j]]
        0 <= i < v.len() && 0 <= j < v.len() && i != j ==> entry_end(v[i]) <= v[j].0 || entry_end(v[j])
            <= v[i].0
}

/// Writing rows keeps the bytes of a range that none of their ranges meets.
pub proof fn lemma_rows_written_agree(buf: Seq<u8>, base: int, v: Seq<(u16, Row)>, k: nat, lo: int, hi: int)
    requires
        0 <= base,
        k <= v.len(),
        entries_apart(base, v),
        0 <= lo <= hi <= buf.len(),
        forall|i: int| 0 <= i < k ==> base + entry_end(#[trigger] v[i]) <= lo || hi <= base + v[i].0,
    ensures
        agree_on(buf, rows_written(buf, base, v, k), lo, hi),
        rows_written(buf, base, v, k).len() >= buf.len(),
    decreases k,
{
    if k > 0 {
        let prev = rows_written(buf, base, v, (k - 1) as nat);
        lemma_rows_written_agree(buf, base, v, (k - 1) as nat, lo, hi);
        let e = v[k - 1];
        assert(base + entry_end(v[k - 1]) <= lo || hi <= base + v[k - 1].0);
        e.1.lemma_write_agree(prev, base + e.0, base + e.0, base + entry_end(e), lo, hi);
        lemma_agree_trans(buf, prev, e.1.spec_write(prev, base + e.0), lo, hi);
    }
}

/// After writing rows whose ranges do not overlap, each row is held where it
/// was written.
pub proof fn lemma_rows_written_held(buf: Seq<u8>, base: int, v: Seq<(u16, Row)>, k: nat)
    requires
        0 <= base,
        k <= v.len(),
        entries_apart(base, v),
        forall|i: int| 0 <= i < k ==> (#[trigger] v[i]).1.spec_laid_out(),
        forall|i: int| 0 <= i < k ==> base + entry_end(#[trigger] v[i]) <= buf.len(),
    ensures
        forall|i: int| 0 <= i < k ==> (#[trigger] v[i]).1.spec_held(rows_written(buf, base, v, k), base + v[i].0),
    decreases k,
{
    if k > 0 {
        let prev = rows_written(buf, base, v, (k - 1) as nat);
        lemma_rows_written_held(buf, base, v, (k - 1) as nat);
        lemma_rows_written_agree(buf, base, v, (k - 1) as nat, 0, 0);
        let e = v[k - 1];
        let next = e.1.spec_write(prev, base + e.0);
        assert(e.1.spec_laid_out());
        e.1.lemma_write_held(prev, base + e.0);
        assert forall|i: int| 0 <= i < k implies (#[trigger] v[i]).1.spec_held(next, base + v[i].0) by {
            if i < k - 1 {
                assert(base + entry_end(v[i]) <= buf.len());
                assert(entry_end(v[i]) <= v[k - 1].0 || entry_end(v[k - 1]) <= v[i].0);
                e.1.lemma_write_agree(prev, base + e.0, base + e.0, base + entry_end(e), base + v[i].0, base + entry_end(v[i]));
                v[i].1.lemma_held_agree(prev, next, base + v[i].0, base + v[i].0, base + entry_end(v[i]));
            }
        }
    }
}

/// Maps keyed by `u16` row offsets behave as maps: their keys are ordered as numbers.
pub open spec fn offset_keys_ordered() -> bool {
    vstd::laws_cmp::obeys_cmp::<u16>() && vstd::std_specs::btree::key_obeys_cmp_spec::<u16>()
}

/// Keys of the `u16` row offsets are ordered as numbers.
pub proof fn lemma_offset_keys_hold()
    ensures
        offset_keys_ordered(),
{
}

/// The data part of a page: its header, the row groups stored backwards from the
/// end of the page, and the rows by the heap offset at which each is stored.
#[derive(Debug, PartialEq, Clone)]
pub struct DataPageContent {
    /// The header of the data page.
    pub header: DataPageHeader,
    /// Row groups at the end of the page, the first one last.
    pub row_groups: Vec<RowGroup>,
    /// Rows by the heap offset at which each is stored; the offsets should
    /// match those in `row_groups`.
    pub rows: BTreeMap<u16, Row>,
}

impl DataPageContent {
    /// Size of the heap of a page of `page_size` bytes: what follows both headers.
    pub open spec fn spec_page_heap_size(page_size: u32) -> int {
        page_size - 32 - 8
    }

    /// Size of the heap of a page of `page_size` bytes.
    pub fn page_heap_size(page_size: u32) -> (r: u32)
        requires
            page_size >= 40,
        ensures
            r == Self::spec_page_heap_size(page_size),
    {
        page_size - 32 - 8
    }

    /// `self` is the data content of the page at byte `p` of `s`, of
    /// `page_size` bytes, whose header is `h`.
    pub open spec fn spec_read(
        &self,
        s: Seq<u8>,
        p: int,
        page_size: u32,
        h: PageHeader,
    ) -> bool {
        let n = spec_num_row_groups(h.packed_row_counts.spec_num_rows() as int);
        let end = p + page_size;
        &&& codec_read::<DataPageHeader>(self.header@, s, p + 32)
        &&& self.row_groups@.len() == n
        &&& forall|i: int|
            0 <= i < n ==> (#[trigger] self.row_groups@[i]).row_offsets@ == group_offsets_at(
                s,
                group_pos(end, i),
            ) && self.row_groups@[i].row_presence_flags == le16(s, group_pos(end, i) + 32)
                && self.row_groups@[i].unknown == le16(s, group_pos(end, i) + 34)
        &&& self.rows@.dom() == groups_present(self.row_groups@).to_set()
        &&& forall|k: u16| #[trigger]
            self.rows@.contains_key(k) ==> self.rows@[k].spec_read(s, p + 40 + k, h.page_type)
        &&& self.rows@.len() == h.packed_row_counts.spec_num_rows_valid()
    }

    /// The data content of the page at byte `p` of `s`, of `page_size` bytes,
    /// whose header is `h`, decodes: the data header and every row group lie
    /// within `s`, every present row decodes, and the present offsets number
    /// as many distinct ones as the header counts valid rows.
    pub open spec fn spec_readable(
        s: Seq<u8>,
        p: int,
        page_size: u32,
        num_rows: int,
        num_rows_valid: int,
        t: PageType,
    ) -> bool {
        &&& 0 <= p && p + 40 <= s.len()
        &&& groups_in_bounds(s.len() as int, p + page_size, spec_num_row_groups(num_rows))
        &&& rows_readable_at(
            s,
            p + 40,
            groups_present_at(s, p + page_size, spec_num_row_groups(num_rows) as nat),
            t,
        )
        &&& groups_present_at(s, p + page_size, spec_num_row_groups(num_rows) as nat).to_set().len()
            == num_rows_valid
    }

    /// Decodes the row group stored at `q`.
    fn parse_row_group(data: &[u8], q: usize) -> (r: RowGroup)
        requires
            q + 36 <= data.len(),
        ensures
            r.row_offsets@ == group_offsets_at(data@, q as int),
            r.row_presence_flags == le16(data@, q + 32),
            r.unknown == le16(data@, q + 34),
    {
        let mut offsets = [0u16; 16];
        let mut k: usize = 0;
        while k < 16
            invariant
                k <= 16,
                q + 36 <= data.len(),
                offsets@.len() == 16,
                forall|j: int| 0 <= j < k ==> offsets@[j] == le16(data@, q + 2 * j),
            decreases 16 - k,
        {
            offsets[k] = read_u16(data, q + 2 * k);
            k = k + 1;
        }
        assert(offsets@ =~= group_offsets_at(data@, q as int));
        RowGroup {
            row_offsets: offsets,
            row_presence_flags: read_u16(data, q + 32),
            unknown: read_u16(data, q + 34),
        }
    }

    /// Decodes the data content of the page at `pos`, of `page_size` bytes,
    /// whose header is `h`: the data header, the row groups from the end of the
    /// page backwards, and the present rows from the heap after both headers.
    /// Fails where a part lies outside `data`, a present row does not decode, or
    /// the number of distinct present offsets differs from the valid rows counted
    /// in `h`.
    pub fn parse(data: &[u8], pos: usize, page_size: u32, h: &PageHeader) -> (r: Option<
        DataPageContent,
    >)
        requires
            pos <= data@.len(),
        ensures
            r is Some <==> Self::spec_readable(
                data@,
                pos as int,
                page_size,
                h.packed_row_counts.spec_num_rows() as int,
                h.packed_row_counts.spec_num_rows_valid() as int,
                h.page_type,
            ),
            r matches Some(c) ==> c.spec_read(data@, pos as int, page_size, *h),
            r matches Some(c) ==> c.spec_rows_writable(),
    {
        let ghost s = data@;
        let n = h.packed_row_counts.num_row_groups();
        let ghost end = pos + page_size;
        if data.len() - pos < 40 {
            return None;
        }
        let header = match read_value::<DataPageHeader>(data, pos + 32) {
            Some(v) => v,
            None => {
                proof {
                    DataPageHeader::lemma_parse_bounds(s, pos + 32);
                }
                return None;
            },
        };
        let end128: u128 = pos as u128 + page_size as u128;
        let mut row_groups: Vec<RowGroup> = Vec::new();
        let mut all: Vec<u16> = Vec::new();
        let mut i: u16 = 0;
        while i < n
            invariant
                i <= n,
                n == spec_num_row_groups(h.packed_row_counts.spec_num_rows() as int),
                end128 == end,
                end == pos + page_size,
                data@ == s,
                row_groups@.len() == i,
                forall|k: int| 0 <= k < i ==> 0 <= #[trigger] group_pos(end, k) && group_pos(end, k) + 36 <= s.len(),
                forall|k: int|
                    0 <= k < i ==> (#[trigger] row_groups@[k]).row_offsets@ == group_offsets_at(
                        s,
                        group_pos(end, k),
                    ) && row_groups@[k].row_presence_flags == le16(s, group_pos(end, k) + 32)
                        && row_groups@[k].unknown == le16(s, group_pos(end, k) + 34),
                all@ == groups_present(row_groups@),
                all@ == groups_present_at(s, end, i as nat),
            decreases n - i,
        {
            let back: u128 = 36 * (i as u128 + 1);
            if back > end128 || end128 - back + 36 > data.len() as u128 {
                assert(!(0 <= group_pos(end, i as int) && group_pos(end, i as int) + 36 <= s.len()));
                return None;
            }
            let q = (end128 - back) as usize;
            let g = Self::parse_row_group(data, q);
            let present = g.present_rows_offsets();
            let mut j: usize = 0;
            let ghost before = all@;
            while j < present.len()
                invariant
                    j <= present@.len(),
                    all@ == before + present@.take(j as int),
                decreases present@.len() - j,
            {
                all.push(present[j]);
                j = j + 1;
                assert(all@ =~= before + present@.take(j as int));
            }
            assert(present@.take(present@.len() as int) =~= present@);
            let ghost prev = row_groups@;
            row_groups.push(g);
            assert(row_groups@.drop_last() =~= prev);
            i = i + 1;
        }
        let mut rows: BTreeMap<u16, Row> = BTreeMap::new();
        let mut j: usize = 0;
        proof {
            lemma_offset_keys_hold();
        }
        while j < all.len()
            invariant
                j <= all@.len(),
                data@ == s,
                0 <= pos && pos + 40 <= s.len(),
                rows@.dom() == all@.take(j as int).to_set(),
                forall|k: u16| #[trigger]
                    rows@.contains_key(k) ==> rows@[k].spec_read(s, pos + 40 + k, h.page_type),
                forall|k: u16| #[trigger] rows@.contains_key(k) ==> rows@[k].spec_writable(),
                forall|k: int| 0 <= k < j ==> Row::spec_readable(s, pos + 40 + #[trigger] all@[k], h.page_type),
                offset_keys_ordered(),
                end == pos + page_size,
                all@ == groups_present_at(s, end, n as nat),
                n == spec_num_row_groups(h.packed_row_counts.spec_num_rows() as int),
                forall|k: int| 0 <= k < n ==> 0 <= #[trigger] group_pos(end, k) && group_pos(end, k) + 36 <= s.len(),
                row_groups@.len() == n,
                forall|k: int|
                    0 <= k < n ==> (#[trigger] row_groups@[k]).row_offsets@ == group_offsets_at(
                        s,
                        group_pos(end, k),
                    ) && row_groups@[k].row_presence_flags == le16(s, group_pos(end, k) + 32)
                        && row_groups@[k].unknown == le16(s, group_pos(end, k) + 34),
                all@ == groups_present(row_groups@),
            decreases all@.len() - j,
        {
            let o = all[j];
            if o as usize > data.len() - (pos + 40) {
                proof {
                    crate::pdb::rows::lemma_row_unreadable_beyond(s, pos + 40 + o, h.page_type);
                }
                if h.page_type.is_known() {
                    assert(!Row::spec_readable(s, pos + 40 + all@[j as int], h.page_type));
                    return None;
                }
                rows.insert(o, Row::Unknown);
            } else {
                match Row::parse(data, pos + 40 + o as usize, h.page_type) {
                    Some(row) => {
                        rows.insert(o, row);
                    },
                    None => {
                        assert(!Row::spec_readable(s, pos + 40 + all@[j as int], h.page_type));
                        return None;
                    },
                }
            }
            proof {
                assert(all@.take(j + 1) =~= all@.take(j as int).push(o));
                lemma_push_to_set(all@.take(j as int), o);
            }
            j = j + 1;
        }
        assert(all@.take(all@.len() as int) =~= all@);
        if rows.len() != h.packed_row_counts.num_rows_valid() as usize {
            return None;
        }
        Some(DataPageContent { header, row_groups, rows })
    }

    /// The row at heap offset `k` can be written into the page at `p`, of
    /// `page_size` bytes, whose header is `h`, and read back: it is a
    /// well-formed row of the page's type (or an unknown row of a page of
    /// unknown type), it writes only from its offset up to its end, which lies
    /// within the page, and it does not meet the written part of a row group.
    pub open spec fn spec_row_ok(&self, k: u16, h: PageHeader, p: int, page_size: u32) -> bool {
        let r = self.rows@[k];
        let end = p + page_size;
        &&& (r.spec_page_type() == Some(h.page_type) && r.spec_wf() && r.spec_offsets_match()
            && r.spec_laid_out()) || (r is Unknown && h.page_type is Unknown)
        &&& r.spec_within(p + 40 + k, p + 40 + k, p + 40 + entry_end((k, r)))
        &&& 40 + entry_end((k, r)) <= page_size
        &&& forall|i: int|
            0 <= i < self.row_groups@.len() ==> p + 40 + entry_end((k, r)) <= #[trigger] group_tail_pos(
                end,
                i,
                self.row_groups@[i],
            ) || group_pos(end, i) + 36 <= p + 40 + k
    }

    /// The content of the page at `p`, of `page_size` bytes, whose header is
    /// `h`, is laid out so that writing it reads back: the header counts its
    /// row groups and valid rows, the row groups fit after both headers, the
    /// rows are those that the row groups mark present, each row can be
    /// written and read back, and the ranges of two rows do not overlap.
    pub open spec fn spec_layout_ok(&self, h: PageHeader, p: int, page_size: u32) -> bool {
        let n = self.row_groups@.len();
        &&& n == spec_num_row_groups(h.packed_row_counts.spec_num_rows() as int)
        &&& 40 + 36 * n <= page_size
        &&& self.rows@.dom() == groups_present(self.row_groups@).to_set()
        &&& self.rows@.len() == h.packed_row_counts.spec_num_rows_valid()
        &&& forall|k: u16| #[trigger] self.rows@.contains_key(k) ==> self.spec_row_ok(k, h, p, page_size)
        &&& forall|k1: u16, k2: u16|
            #![trigger self.rows@[k1], self.rows@[k2]]
            self.rows@.contains_key(k1) && self.rows@.contains_key(k2) && k1 != k2 ==> entry_end(
                (k1, self.rows@[k1]),
            ) <= k2 || entry_end((k2, self.rows@[k2])) <= k1
    }

    /// `self` is read back from the page at byte `p` of `s`, of `page_size`
    /// bytes, whose header is `h`: as `spec_read` says, but for the offsets of
    /// each row group before its first present row, which are not written.
    pub open spec fn spec_read_back(&self, s: Seq<u8>, p: int, page_size: u32, h: PageHeader) -> bool {
        let n = self.row_groups@.len();
        let end = p + page_size;
        &&& codec_read::<DataPageHeader>(self.header@, s, p + 32)
        &&& n == spec_num_row_groups(h.packed_row_counts.spec_num_rows() as int)
        &&& forall|i: int| 0 <= i < n ==> group_read_back(#[trigger] self.row_groups@[i], s, group_pos(end, i))
        &&& self.rows@.dom() == groups_present(self.row_groups@).to_set()
        &&& forall|k: u16| #[trigger]
            self.rows@.contains_key(k) ==> self.rows@[k].spec_read(s, p + 40 + k, h.page_type)
        &&& self.rows@.len() == h.packed_row_counts.spec_num_rows_valid()
    }

    /// The rows of a laid-out content, listed by increasing offset, lie apart
    /// in the heap of the page at `p`, within the page and away from the
    /// written parts of the row groups.
    pub proof fn lemma_entries_apart(&self, v: Seq<(u16, Row)>, h: PageHeader, p: int, page_size: u32)
        requires
            sorted_entries(self.rows@, v),
            self.spec_layout_ok(h, p, page_size),
        ensures
            entries_apart(p + 40, v),
            forall|j: int| 0 <= j < v.len() ==> #[trigger] self.spec_row_ok(v[j].0, h, p, page_size)
                && self.rows@[v[j].0] == v[j].1,
    {
        assert forall|j: int| 0 <= j < v.len() implies #[trigger] self.spec_row_ok(v[j].0, h, p, page_size)
            && self.rows@[v[j].0] == v[j].1 by {
            assert(self.rows@.contains_key(v[j].0));
        }
        assert forall|i: int, j: int|
            #![trigger v[i], v[j]]
            0 <= i < v.len() && 0 <= j < v.len() && i != j implies entry_end(v[i]) <= v[j].0 || entry_end(v[j])
            <= v[i].0 by {
            assert(self.rows@.contains_key(v[i].0) && self.rows@.contains_key(v[j].0));
            if i < j {
                assert(v[i].0 < v[j].0);
            } else {
                assert(v[j].0 < v[i].0);
            }
            assert(self.rows@[v[i].0] == v[i].1 && self.rows@[v[j].0] == v[j].1);
        }
        assert forall|i: int| 0 <= i < v.len() implies (#[trigger] v[i]).1.spec_within(
            p + 40 + v[i].0,
            p + 40 + v[i].0,
            p + 40 + entry_end(v[i]),
        ) by {
            assert(self.spec_row_ok(v[i].0, h, p, page_size) && self.rows@[v[i].0] == v[i].1);
        }
    }

    /// `buf` after writing the data header and the row groups of the page at
    /// `p`, of `page_size` bytes (before the rows).
    pub open spec fn spec_write_frame(&self, buf: Seq<u8>, p: int, page_size: u32) -> Seq<u8> {
        groups_written(
            codec_write::<DataPageHeader>(self.header@, buf, p + 32),
            p + page_size,
            self.row_groups@,
            self.row_groups@.len(),
        )
    }

    /// Every row of the content can be written.
    pub open spec fn spec_rows_writable(&self) -> bool {
        forall|k: u16| #[trigger] self.rows@.contains_key(k) ==> self.rows@[k].spec_writable()
    }

    /// Writes the row group `g` stored at `q`: its offsets from the first present
    /// one on, then its flags and unknown field.
    fn write_row_group(g: &RowGroup, buf: &mut Vec<u8>, q: usize)
        requires
            q + 36 <= usize::MAX,
        ensures
            final(buf)@ == write_at(
                old(buf)@,
                q + 2 * (u16_leading_zeros(g.row_presence_flags) as int),
                group_tail_bytes(*g),
            ),
    {
        let skip = g.row_presence_flags.leading_zeros() as usize;
        proof {
            vstd::std_specs::bits::axiom_u16_leading_zeros(g.row_presence_flags);
        }
        let mut tail: Vec<u8> = Vec::new();
        let mut k: usize = skip;
        while k < 16
            invariant
                skip <= k <= 16,
                g.row_offsets@.len() == 16,
                tail@ == u16s_bytes(g.row_offsets@.subrange(skip as int, k as int)),
            decreases 16 - k,
        {
            proof {
                assert(g.row_offsets@.subrange(skip as int, k + 1).drop_last() =~= g.row_offsets@.subrange(
                    skip as int,
                    k as int,
                ));
            }
            push_u16(&mut tail, g.row_offsets[k]);
            k = k + 1;
        }
        push_u16(&mut tail, g.row_presence_flags);
        push_u16(&mut tail, g.unknown);
        proof {
            crate::pdb::string::lemma_u16s_bytes(g.row_offsets@.subrange(skip as int, 16));
        }
        write_bytes_at(buf, q + 2 * skip, tail.as_slice());
    }

    /// Writing the content at `p`, of `page_size` bytes, succeeds: the row
    /// groups do not reach before the start of the buffer, the page and what
    /// follows it have addresses that a `usize` can hold, and every row has
    /// offsets of the size its subtype demands and fits into memory at its
    /// place.
    pub open spec fn spec_write_ok(&self, p: int, page_size: u32) -> bool {
        &&& 36 * self.row_groups@.len() <= p + page_size
        &&& p + page_size + 0x2_0000 <= usize::MAX
        &&& forall|k: u16| #[trigger]
            self.rows@.contains_key(k) ==> self.rows@[k].spec_offsets_match() && self.rows@[k].spec_fits_memory(
                p + 40 + k,
            )
    }

    /// Writes the data content of the page at `p`, of `page_size` bytes: the data
    /// header after the page header, the row groups backwards from the end of the
    /// page, then each row at its offset in the heap, by increasing offset.
    /// Fails where a row group would lie before the start of `buf`, or where a
    /// row cannot be written (see `Row::write`).
    pub fn write(&self, buf: &mut Vec<u8>, p: usize, page_size: u32) -> (r: Result<(), OffsetArrayError>)
        requires
            self.spec_rows_writable(),
        ensures
            r is Ok ==> exists|v: Seq<(u16, Row)>|
                sorted_entries(self.rows@, v) && final(buf)@ == rows_written(
                    self.spec_write_frame(old(buf)@, p as int, page_size),
                    p + 40,
                    v,
                    v.len(),
                ),
            r == Err::<(), OffsetArrayError>(OffsetArrayError::PositionUnderflow) <==> 36
                * self.row_groups@.len() > p + page_size,
            r is Ok <==> self.spec_write_ok(p as int, page_size),
    {
        let end: u128 = p as u128 + page_size as u128;
        if 36 * (self.row_groups.len() as u128) > end {
            return Err(OffsetArrayError::PositionUnderflow);
        }
        if end + 0x2_0000 > usize::MAX as u128 {
            return Err(OffsetArrayError::PositionOverflow);
        }
        let ghost start = buf@;
        match write_value(&self.header, buf, p + 32) {
            Ok(()) => {},
            Err(e) => {
                return Err(e);
            },
        }
        let mut i: usize = 0;
        while i < self.row_groups.len()
            invariant
                i <= self.row_groups@.len(),
                end == p + page_size,
                36 * self.row_groups@.len() <= end,
                p + 0x2_0000 + page_size <= usize::MAX,
                buf@ == groups_written(
                    codec_write::<DataPageHeader>(self.header@, start, p + 32),
                    p + page_size,
                    self.row_groups@,
                    i as nat,
                ),
            decreases self.row_groups@.len() - i,
        {
            let q = (end - 36 * (i as u128 + 1)) as usize;
            Self::write_row_group(&self.row_groups[i], buf, q);
            i = i + 1;
        }
        let ghost frame = buf@;
        assert(frame == self.spec_write_frame(start, p as int, page_size));
        proof {
            lemma_offset_keys_hold();
        }
        let base = p + 40;
        let first = self.rows.iter();
        proof {
            lemma_iter_sorted(&self.rows);
        }
        let ghost v = deref_entries(vstd::std_specs::btree::spec_btree_map_iter(&self.rows).remaining());
        for (k, row) in it: self.rows.iter()
            invariant
                base == p + 40,
                p + 0x2_0000 + page_size <= usize::MAX,
                self.spec_rows_writable(),
                offset_keys_ordered(),
                36 * self.row_groups@.len() <= p + page_size,
                it.seq() == vstd::std_specs::btree::spec_btree_map_iter(&self.rows).remaining(),
                buf@ == rows_written(frame, base as int, deref_entries(it.seq()), it.index() as nat),
                forall|j: int|
                    0 <= j < it.index() ==> (*(#[trigger] it.seq()[j]).1).spec_offsets_match() && (*it.seq()[j].1).spec_fits_memory(
                        base + *it.seq()[j].0,
                    ),
        {
            proof {
                assert(self.rows@.contains_key(*k));
                lemma_iter_entry_in_map(&self.rows, it.index() as int);
            }
            let ghost idx = it.index();
            assert(*row == *it.seq()[idx].1 && *k == *it.seq()[idx].0);
            match row.write(buf, base + *k as usize) {
                Ok(()) => {},
                Err(OffsetArrayError::OffsetSizeMismatch) => {
                    return Err(OffsetArrayError::OffsetSizeMismatch);
                },
                Err(_) => {
                    return Err(OffsetArrayError::PositionOverflow);
                },
            }
        }
        assert(buf@ == rows_written(frame, base as int, v, v.len()));
        proof {
            let r = vstd::std_specs::btree::spec_btree_map_iter(&self.rows).remaining();
            assert forall|k: u16| #[trigger] self.rows@.contains_key(k) implies self.rows@[k].spec_offsets_match()
                && self.rows@[k].spec_fits_memory(p + 40 + k) by {
                assert(r.contains((&k, &self.rows@[k])));
                let j = choose|j: int| 0 <= j < r.len() && r[j] == (&k, &self.rows@[k]);
                assert(*r[j].1 == self.rows@[k]);
            }
        }
        Ok(())
    }
}


/// The content of a page: index entries or data rows.
#[derive(Debug, PartialEq, Clone)]
pub enum PageContent {
    /// The page contains data rows.
    Data(DataPageContent),
    /// The page is an index page.
    Index(IndexPageContent),
}

impl PageContent {
    /// Whether the page is a data page.
    pub fn is_data(&self) -> (r: bool)
        ensures
            r == self is Data,
    {
        matches!(self, PageContent::Data(_))
    }

    /// The data content of the page, if it is a data page.
    pub fn into_data(self) -> (r: Option<DataPageContent>)
        ensures
            r == (match self {
                PageContent::Data(d) => Some(d),
                _ => None,
            }),
    {
        match self {
            PageContent::Data(data) => Some(data),
            _ => None,
        }
    }

    /// A reference to the data content of the page, if it is a data page.
    pub fn as_data(&self) -> (r: Option<&DataPageContent>)
        ensures
            r == (match self {
                PageContent::Data(d) => Some(d),
                _ => None,
            }),
    {
        match self {
            PageContent::Data(data) => Some(data),
            _ => None,
        }
    }

    /// A mutable reference to the data content of the page, if it is a data
    /// page; changing it changes the page.
    pub fn as_data_mut(&mut self) -> (r: Option<&mut DataPageContent>)
        ensures
            r is Some <==> *old(self) is Data,
            r is None ==> *final(self) == *old(self),
            r is Some ==> *r.unwrap() == (*old(self))->Data_0 && *final(self) == PageContent::Data(
                *final(r.unwrap()),
            ),
    {
        match self {
            PageContent::Data(data) => Some(data),
            _ => None,
        }
    }

    /// The index content of the page, if it is an index page.
    pub fn into_index(self) -> (r: Option<IndexPageContent>)
        ensures
            r == (match self {
                PageContent::Index(i) => Some(i),
                _ => None,
            }),
    {
        match self {
            PageContent::Index(index) => Some(index),
            _ => None,
        }
    }

    /// A mutable reference to the index content of the page, if it is an
    /// index page; changing it changes the page.
    pub fn as_index_mut(&mut self) -> (r: Option<&mut IndexPageContent>)
        ensures
            r is Some <==> *old(self) is Index,
            r is None ==> *final(self) == *old(self),
            r is Some ==> *r.unwrap() == (*old(self))->Index_0 && *final(self) == PageContent::Index(
                *final(r.unwrap()),
            ),
    {
        match self {
            PageContent::Index(index) => Some(index),
            _ => None,
        }
    }

    /// A reference to the index content of the page, if it is an index page.
    pub fn as_index(&self) -> (r: Option<&IndexPageContent>)
        ensures
            r == (match self {
                PageContent::Index(i) => Some(i),
                _ => None,
            }),
    {
        match self {
            PageContent::Index(index) => Some(index),
            _ => None,
        }
    }
}

/// Why a page cannot be written.
#[derive(Debug, PartialEq, Eq, Clone, Copy, Structural)]
pub enum PageError {
    /// The offsets of a row have another size than its subtype demands.
    OffsetSizeMismatch,
    /// A part of the page would reach beyond the addressable memory.
    PositionOverflow,
    /// A row group would lie before the start of the buffer.
    PositionUnderflow,
    /// The index page counts more entries than fit into a page, or the page is
    /// too small for its headers.
    IndexOverflow,
}

/// Where a row allocated in a data page goes: its heap offset, its row group
/// and its place within that group.
#[derive(Debug, PartialEq, Eq, Clone, Copy, Structural)]
pub struct RowSlot {
    /// Offset of the row in the page heap.
    pub offset: u16,
    /// Index of the row group that holds the offset.
    pub group: u16,
    /// Place of the offset within its row group.
    pub subindex: u16,
}

/// `p1` is the data page `p0` after a row `row` of `size` heap bytes was
/// stored in it, as `allocate_row` then `insert_row` do: at the old used size,
/// rounded up to four bytes, counted as used and as valid, its offset put in
/// the next slot of the row groups (a new group where the last one is full)
/// and marked present there, where no row was stored before; the rest of the
/// page is kept.
pub open spec fn spec_row_added(p0: Page, size: u16, row: Row, p1: Page) -> bool {
    let b = round_up4(size as int);
    let n = p0.header.packed_row_counts.spec_num_rows();
    let od = p0.content->Data_0;
    let fd = p1.content->Data_0;
    let g = (n / 16) as int;
    let sub = (n % 16) as u16;
    let opened = g == od.row_groups@.len();
    let off = p0.header.used_size;
    &&& p0.content is Data
    &&& p1.content is Data
    &&& p1.header.page_index == p0.header.page_index
    &&& p1.header.page_type == p0.header.page_type
    &&& p1.header.next_page == p0.header.next_page
    &&& p1.header.page_flags == p0.header.page_flags
    &&& p1.header.unknown1 == p0.header.unknown1
    &&& p1.header.unknown2 == p0.header.unknown2
    &&& p1.header.used_size == off + b
    &&& p1.header.free_size == p0.header.free_size - b - 2 - (if opened {
        4int
    } else {
        0int
    })
    &&& p1.header.packed_row_counts.wf()
    &&& p1.header.packed_row_counts.spec_num_rows() == n + 1
    &&& p1.header.packed_row_counts.spec_num_rows_valid() == p0.header.packed_row_counts.spec_num_rows_valid() + 1
    &&& fd.header == od.header
    &&& !od.rows@.contains_key(off)
    &&& fd.rows@ == od.rows@.insert(off, row)
    &&& fd.row_groups@.len() == od.row_groups@.len() + (if opened {
        1int
    } else {
        0int
    })
    &&& forall|i: int| 0 <= i < od.row_groups@.len() && i != g ==> #[trigger] fd.row_groups@[i] == od.row_groups@[i]
    &&& fd.row_groups@[g].row_offsets@ == (if opened {
        Seq::new(16, |i: int| 0u16)
    } else {
        od.row_groups@[g].row_offsets@
    }).update(15 - sub, off)
    &&& fd.row_groups@[g].row_presence_flags == (if opened {
        0u16
    } else {
        od.row_groups@[g].row_presence_flags
    }) | (1u16 << sub)
    &&& fd.row_groups@[g].unknown == (if opened {
        0u16
    } else {
        od.row_groups@[g].unknown
    })
}

/// The heap of the data page `p`, of `page_size` bytes, is accounted as
/// `allocate_row` keeps it: every row ends within the used size; the used
/// heap, the free space and the written parts of the row groups (four bytes
/// for each group and two for each row offset) fill at most the page after
/// its header; and the last row group marks no place past the offsets it
/// counts. A fresh data page is so accounted, and adding a row keeps it (see
/// `lemma_row_added_page_ok`).
pub open spec fn spec_heap_accounted(p: Page, page_size: u32) -> bool {
    let n = p.header.packed_row_counts.spec_num_rows();
    p.content matches PageContent::Data(d) ==> {
        let g = d.row_groups@.len();
        &&& forall|k: u16| #[trigger] d.rows@.contains_key(k) ==> entry_end((k, d.rows@[k])) <= p.header.used_size
        &&& 40 + p.header.used_size + p.header.free_size + 4 * g + 2 * n <= page_size
        &&& g > 0 ==> d.row_groups@[g - 1].row_presence_flags >> ((n - 16 * (g - 1)) as u16) == 0u16
    }
}

/// Setting bit `s` of flags that have no bit from `s` on sets that bit, keeps
/// the others and leaves no bit past `s`.
proof fn lemma_bit_added(f: u16, s: u16, i: u16)
    requires
        s < 16,
        i < 16,
        f >> s == 0u16,
    ensures
        (f | (1u16 << s)) >> ((s + 1) as u16) == 0u16,
        bit_set(f | (1u16 << s), s),
        !bit_set(f, s),
        i != s ==> bit_set(f | (1u16 << s), i) == bit_set(f, i),
{
    let t = (s + 1) as u16;
    assert((f | (1u16 << s)) >> t == 0u16) by (bit_vector)
        requires
            s < 16,
            t == s + 1,
            f >> s == 0u16,
    ;
    assert(((f | (1u16 << s)) >> s) & 1u16 == 1u16) by (bit_vector)
        requires
            s < 16,
    ;
    assert((f >> s) & 1u16 == 0u16) by (bit_vector)
        requires
            f >> s == 0u16,
    ;
    assert(i != s ==> ((f | (1u16 << s)) >> i) & 1u16 == (f >> i) & 1u16) by (bit_vector)
        requires
            s < 16,
            i < 16,
    ;
}

/// Flags with bit `s` set and no bit past it have `15 - s` leading zeros.
proof fn lemma_leading_zeros_at(f: u16, s: u16)
    requires
        s < 16,
        f >> ((s + 1) as u16) == 0u16,
        bit_set(f, s),
    ensures
        u16_leading_zeros(f) == 15 - s,
{
    vstd::std_specs::bits::axiom_u16_leading_zeros(f);
    lemma_present_place(f, s as int);
    let z = u16_leading_zeros(f);
    if z < 15 - s {
        let t = (15 - z) as u16;
        let u = (s + 1) as u16;
        assert((f >> t) & 1u16 != 0u16);
        assert((f >> t) & 1u16 == 0u16) by (bit_vector)
            requires
                f >> u == 0u16,
                u <= t,
                t < 16,
        ;
    }
}

/// The present offsets of a row group after the offset at place `s` is set
/// to `off` and marked present, where it was not: those before, and `off`
/// where `s` is among the first `k` places.
proof fn lemma_present_added(o: Seq<u16>, f: u16, s: u16, off: u16, k: nat)
    requires
        o.len() == 16,
        s < 16,
        k <= 16,
        f >> s == 0u16,
    ensures
        present_offsets_upto(o.update(15 - s, off), f | (1u16 << s), k).to_set() == present_offsets_upto(
            o,
            f,
            k,
        ).to_set().union(
            if s < k {
                set![off]
            } else {
                Set::<u16>::empty()
            },
        ),
    decreases k,
{
    let o1 = o.update(15 - s, off);
    let f1 = f | (1u16 << s);
    if k == 0 {
        assert(present_offsets_upto(o1, f1, k).to_set() =~= Set::<u16>::empty());
        assert(present_offsets_upto(o, f, k).to_set() =~= Set::<u16>::empty());
    } else {
        let i = (k - 1) as u16;
        lemma_present_added(o, f, s, off, (k - 1) as nat);
        lemma_bit_added(f, s, i);
        let a1 = present_offsets_upto(o1, f1, (k - 1) as nat);
        let a0 = present_offsets_upto(o, f, (k - 1) as nat);
        a1.lemma_push_to_set_commute(o1[15 - i]);
        a0.lemma_push_to_set_commute(o[15 - i]);
        assert(present_offsets_upto(o1, f1, k).to_set() =~= present_offsets_upto(o, f, k).to_set().union(
            if s < k {
                set![off]
            } else {
                Set::<u16>::empty()
            },
        ));
    }
}

/// The offsets of the present rows of row groups whose last group is
/// replaced: those of the groups before it and those of the new last group.
proof fn lemma_groups_present_split(gs: Seq<RowGroup>)
    requires
        gs.len() > 0,
    ensures
        groups_present(gs).to_set() == groups_present(gs.drop_last()).to_set().union(gs.last().spec_present().to_set()),
{
    let a = groups_present(gs.drop_last());
    let b = gs.last().spec_present();
    assert(groups_present(gs) == a + b);
    vstd::seq_lib::seq_to_set_distributes_over_add(a, b);
    assert((a + b).to_set() =~= a.to_set().union(b.to_set()));
}

/// No place of a row group whose flags are all clear is present.
proof fn lemma_present_none(o: Seq<u16>, k: nat)
    requires
        k <= 16,
    ensures
        present_offsets_upto(o, 0u16, k) == Seq::<u16>::empty(),
    decreases k,
{
    if k > 0 {
        lemma_present_none(o, (k - 1) as nat);
        let i = (k - 1) as u16;
        assert((0u16 >> i) & 1u16 == 0u16) by (bit_vector);
    }
}

/// Adding a row keeps a page readable once written: where the data page `p0`
/// at `p`, of `page_size` bytes, can be written so that it reads back and has
/// its heap accounted as `allocate_row` keeps it, and `row`, of `size` heap
/// bytes, is a known row of the page's type that can be written where it goes,
/// the page `p1` that stores it as `allocate_row` and `insert_row` do can be
/// written so that it reads back too, and has its heap accounted; where the
/// row groups of `p1` fit into the page.
pub proof fn lemma_row_added_page_ok(
    p0: Page,
    size: u16,
    row: Row,
    p1: Page,
    p: int,
    page_size: u32,
    db: DatabaseType,
)
    requires
        p0.spec_page_ok(p, page_size, db),
        spec_heap_accounted(p0, page_size),
        spec_row_added(p0, size, row, p1),
        row.spec_heap_bytes() == size,
        row.spec_page_type() == Some(p0.header.page_type),
        row.spec_wf(),
        row.spec_offsets_match(),
        row.spec_laid_out(),
        row.spec_within(
            p + 40 + p0.header.used_size,
            p + 40 + p0.header.used_size,
            p + 40 + p0.header.used_size + size,
        ),
        40 + 36 * p1.content->Data_0.row_groups@.len() <= page_size,
    ensures
        p1.spec_page_ok(p, page_size, db),
        spec_heap_accounted(p1, page_size),
{
    let h0 = p0.header;
    let h1 = p1.header;
    let d0 = p0.content->Data_0;
    let d1 = p1.content->Data_0;
    let n = h0.packed_row_counts.spec_num_rows();
    let g = (n / 16) as int;
    let sub = (n % 16) as u16;
    let gs0 = d0.row_groups@;
    let gs1 = d1.row_groups@;
    let opened = g == gs0.len();
    let off = h0.used_size;
    let b = round_up4(size as int);
    let end = p + page_size;
    assert(n == 16 * g + sub);
    assert(size <= b) by (nonlinear_arith)
        requires
            b == ((size + 3) / 4) * 4,
    ;
    assert(gs0.len() == spec_num_row_groups(n as int));
    assert(gs1.len() == g + 1);
    assert(gs1.len() == spec_num_row_groups(n + 1));
    assert(!opened ==> g == gs0.len() - 1);
    let f0 = if opened {
        0u16
    } else {
        gs0[g].row_presence_flags
    };
    let o0 = if opened {
        Seq::new(16, |i: int| 0u16)
    } else {
        gs0[g].row_offsets@
    };
    if opened {
        assert(sub == 0);
        assert(0u16 >> 0u16 == 0u16) by (bit_vector);
        lemma_present_none(o0, 16);
    } else {
        assert(n - 16 * (gs0.len() - 1) == sub);
    }
    assert(f0 >> sub == 0u16);
    let f1 = gs1[g].row_presence_flags;
    assert(f1 == f0 | (1u16 << sub));
    lemma_bit_added(f0, sub, 0);
    lemma_leading_zeros_at(f1, sub);
    assert(gs1[g].row_offsets@ == o0.update(15 - sub, off));
    lemma_present_added(o0, f0, sub, off, 16);
    assert(gs1[g].spec_present() == present_offsets_upto(o0.update(15 - sub, off), f1, 16));
    lemma_groups_present_split(gs1);
    if opened {
        assert(gs1.drop_last() =~= gs0);
    } else {
        assert(gs1.drop_last() =~= gs0.drop_last());
        lemma_groups_present_split(gs0);
    }
    assert(d1.rows@.dom() =~= groups_present(gs1).to_set());
    vstd::seq_lib::seq_to_set_is_finite(groups_present(gs0));
    assert(d1.rows@.dom() =~= d0.rows@.dom().insert(off));
    assert(d1.rows@.len() == d0.rows@.len() + 1);
    assert(40 + h1.used_size + h1.free_size + 4 * gs1.len() + 2 * (n + 1) <= page_size);
    assert forall|k: u16| #[trigger] d1.rows@.contains_key(k) implies d1.spec_row_ok(k, h1, p, page_size) by {
        let r = d1.rows@[k];
        assert forall|i: int| 0 <= i < gs1.len() implies p + 40 + entry_end((k, r)) <= #[trigger] group_tail_pos(
            end,
            i,
            gs1[i],
        ) || group_pos(end, i) + 36 <= p + 40 + k by {
            lemma_group_tail_len(gs1[i]);
            if k != off && i != g {
                assert(d0.spec_row_ok(k, h0, p, page_size));
                assert(gs1[i] == gs0[i]);
            }
        }
        if k != off {
            assert(d0.rows@.contains_key(k));
            assert(d0.spec_row_ok(k, h0, p, page_size));
        }
    }
    assert forall|k: u16| #[trigger] d1.rows@.contains_key(k) implies entry_end((k, d1.rows@[k])) <= h1.used_size by {
        if k != off {
            assert(d0.rows@.contains_key(k));
        }
    }
    assert forall|k1: u16, k2: u16|
        #![trigger d1.rows@[k1], d1.rows@[k2]]
        d1.rows@.contains_key(k1) && d1.rows@.contains_key(k2) && k1 != k2 implies entry_end(
            (k1, d1.rows@[k1]),
        ) <= k2 || entry_end((k2, d1.rows@[k2])) <= k1 by {
        if k1 != off && k2 != off {
            assert(d0.rows@[k1] == d1.rows@[k1] && d0.rows@[k2] == d1.rows@[k2]);
        } else if k1 != off {
            assert(d0.rows@.contains_key(k1));
        } else {
            assert(d0.rows@.contains_key(k2));
        }
    }
    assert(d1.spec_layout_ok(h1, p, page_size));
}

/// `b` rounded up to a multiple of four.
pub open spec fn round_up4(b: int) -> int {
    ((b + 3) / 4) * 4
}

/// `b` rounded up to a multiple of four.
pub fn round_up_to_4(b: u16) -> (r: u16)
    requires
        b <= 65532,
    ensures
        r == round_up4(b as int),
        b <= r <= b + 3,
{
    let r = if b % 4 == 0 {
        b
    } else {
        b + (4 - b % 4)
    };
    assert(r == ((b + 3) / 4) * 4) by (nonlinear_arith)
        requires
            r == (if b % 4 == 0 {
                b as int
            } else {
                b + (4 - b % 4)
            }),
            0 <= b,
    ;
    r
}

/// Stores `offset` at place `subindex` of row group `group`, opening that
/// group where it is the next one; returns whether it opened the group.
fn place_offset(groups: &mut Vec<RowGroup>, group: u16, subindex: u16, offset: u16) -> (opened: bool)
    requires
        group <= old(groups)@.len(),
        subindex < 16,
    ensures
        opened == (group == old(groups)@.len()),
        final(groups)@.len() == old(groups)@.len() + (if opened {
            1int
        } else {
            0int
        }),
        forall|g: int|
            0 <= g < old(groups)@.len() && g != group ==> #[trigger] final(groups)@[g]
                == old(groups)@[g],
        final(groups)@[group as int].row_offsets@ == (if opened {
            Seq::new(16, |i: int| 0u16)
        } else {
            old(groups)@[group as int].row_offsets@
        }).update(15 - subindex, offset),
        final(groups)@[group as int].row_presence_flags == (if opened {
            0
        } else {
            old(groups)@[group as int].row_presence_flags
        }),
        final(groups)@[group as int].unknown == (if opened {
            0
        } else {
            old(groups)@[group as int].unknown
        }),
{
    let opened = group as usize == groups.len();
    if opened {
        groups.push(RowGroup::empty());
    }
    let mut g = groups[group as usize];
    g.insert_offset(subindex, offset);
    groups.set(group as usize, g);
    opened
}

/// A table page: a header, then index entries or data rows located through
/// the row groups at the end of the page.
#[derive(Debug, PartialEq, Clone)]
pub struct Page {
    /// The page header.
    pub header: PageHeader,
    /// The content of the page.
    pub content: PageContent,
}

impl Page {
    /// `self` is the page of `page_size` bytes decoded at byte `p` of `s` in a
    /// database of kind `db`.
    pub open spec fn spec_read(&self, s: Seq<u8>, p: int, page_size: u32, db: DatabaseType) -> bool {
        &&& self.header.spec_read(s, p, db)
        &&& match self.content {
            PageContent::Index(c) => self.header.page_flags.is_index_page && c.spec_read(s, p + 32),
            PageContent::Data(d) => !self.header.page_flags.is_index_page && d.spec_read(
                s,
                p,
                page_size,
                self.header,
            ),
        }
    }

    /// A page of `page_size` bytes decodes at byte `p` of `s` in a database of
    /// kind `db`: its header does, then its index content where the header flags
    /// an index page and its data content otherwise.
    pub open spec fn spec_readable(s: Seq<u8>, p: int, page_size: u32, db: DatabaseType) -> bool {
        &&& PageHeader::spec_readable(s, p)
        &&& if PageFlags::spec_from_byte(s[p + 27]).is_index_page {
            IndexPageContent::spec_readable(s, p + 32)
        } else {
            DataPageContent::spec_readable(
                s,
                p,
                page_size,
                PackedRowCounts::spec_from_bytes(s[p + 24], s[p + 25], s[p + 26]).0,
                PackedRowCounts::spec_from_bytes(s[p + 24], s[p + 25], s[p + 26]).1,
                PageType::spec_from_u32(le32(s, p + 8), db),
            )
        }
    }

    /// `new` is `old` after writing the page at `p`, of `page_size` bytes: the
    /// header at `p`, then the index content after it, or the data header, the
    /// row groups and the rows by increasing offset.
    pub open spec fn spec_written(&self, old: Seq<u8>, new: Seq<u8>, p: int, page_size: u32) -> bool {
        let with_header = write_at(old, p, self.header.spec_bytes());
        match self.content {
            PageContent::Index(c) => new == write_at(with_header, p + 32, c.spec_bytes(page_size)),
            PageContent::Data(d) => exists|v: Seq<(u16, Row)>|
                sorted_entries(d.rows@, v) && new == rows_written(
                    d.spec_write_frame(with_header, p, page_size),
                    p + 40,
                    v,
                    v.len(),
                ),
        }
    }

    /// Before its rows, writing a data page at `p` puts the page header at
    /// `p`, the data header at `p + 32` and the written part of every row
    /// group where it belongs.
    proof fn lemma_data_frame_held(&self, old: Seq<u8>, p: int, page_size: u32)
        requires
            self.content is Data,
            0 <= p,
            40 + 36 * self.content->Data_0.row_groups@.len() <= page_size,
        ensures
            ({
                let d = self.content->Data_0;
                let frame = d.spec_write_frame(write_at(old, p, self.header.spec_bytes()), p, page_size);
                let end = p + page_size;
                &&& holds_at(frame, p, self.header.spec_bytes())
                &&& holds_at(frame, p + 32, DataPageHeader::spec_bytes(d.header@))
                &&& self.header.spec_bytes().len() == 32
                &&& DataPageHeader::spec_bytes(d.header@).len() == 8
                &&& forall|i: int|
                    0 <= i < d.row_groups@.len() ==> holds_at(
                        frame,
                        group_tail_pos(end, i, d.row_groups@[i]),
                        group_tail_bytes(#[trigger] d.row_groups@[i]),
                    )
                &&& d.row_groups@.len() > 0 ==> frame.len() >= end
            }),
    {
        let d = self.content->Data_0;
        let hb = self.header.spec_bytes();
        let end = p + page_size;
        let n = d.row_groups@.len();
        let with_header = write_at(old, p, hb);
        let dhb = DataPageHeader::spec_bytes(d.header@);
        let w32 = write_at(with_header, p + 32, dhb);
        lemma_write_at_holds(old, p, hb);
        assert(hb.len() == 32);
        lemma_write_at_holds(with_header, p + 32, dhb);
        assert(dhb.len() == 8);
        lemma_write_at_keeps(with_header, p + 32, dhb, p, hb);
        lemma_groups_written_hold(w32, end, d.row_groups@, n);
        lemma_groups_written_keeps(w32, end, d.row_groups@, n, p, hb);
        lemma_groups_written_keeps(w32, end, d.row_groups@, n, p + 32, dhb);
    }

    /// The page at `p`, of `page_size` bytes, in a database of kind `db`, can
    /// be written so that it reads back: its page type reads back as itself,
    /// its counters fit their bits, and an index page is flagged as one, has
    /// room for its entries and counts them in its index header, while a data
    /// page is flagged as one and its content is laid out so that its parts do
    /// not overlap (see `DataPageContent::spec_layout_ok`).
    pub open spec fn spec_page_ok(&self, p: int, page_size: u32, db: DatabaseType) -> bool {
        &&& self.header.page_type.spec_wf(db)
        &&& self.header.packed_row_counts.wf()
        &&& match self.content {
            PageContent::Index(c) => {
                &&& self.header.page_flags.is_index_page
                &&& page_size >= 80
                &&& c.header.num_entries <= spec_total_entries(page_size)
                &&& c.entries@.len() == c.header.num_entries
            },
            PageContent::Data(d) => {
                &&& !self.header.page_flags.is_index_page
                &&& d.spec_layout_ok(self.header, p, page_size)
            },
        }
    }

    /// `s` holds the parts of the page where writing it at `p`, for pages of
    /// `page_size` bytes, puts them: the header, and the index content, or the
    /// data header, the written part of each row group and each row.
    pub open spec fn spec_held(&self, s: Seq<u8>, p: int, page_size: u32) -> bool {
        &&& holds_at(s, p, self.header.spec_bytes())
        &&& match self.content {
            PageContent::Index(c) => holds_at(s, p + 32, c.spec_bytes(page_size)),
            PageContent::Data(d) => {
                let end = p + page_size;
                &&& holds_at(s, p + 32, DataPageHeader::spec_bytes(d.header@))
                &&& forall|i: int|
                    0 <= i < d.row_groups@.len() ==> holds_at(
                        s,
                        group_tail_pos(end, i, d.row_groups@[i]),
                        group_tail_bytes(#[trigger] d.row_groups@[i]),
                    )
                &&& forall|k: u16| #[trigger] d.rows@.contains_key(k) ==> d.rows@[k].spec_held(s, p + 40 + k)
            },
        }
    }

    /// The page is read back from the bytes at `p` of `s`, of `page_size`
    /// bytes: its header decodes from there, and its index content decodes
    /// after it, or its data content reads back (see
    /// `DataPageContent::spec_read_back`).
    pub open spec fn spec_read_back(&self, s: Seq<u8>, p: int, page_size: u32, db: DatabaseType) -> bool {
        &&& self.header.spec_read(s, p, db)
        &&& match self.content {
            PageContent::Index(c) => self.header.page_flags.is_index_page && c.spec_read(s, p + 32),
            PageContent::Data(d) => !self.header.page_flags.is_index_page && d.spec_read_back(
                s,
                p,
                page_size,
                self.header,
            ),
        }
    }

    /// After writing a page that can be written so that it reads back, its
    /// parts are held where they were written.
    pub proof fn lemma_written_held(&self, old: Seq<u8>, new: Seq<u8>, p: int, page_size: u32, db: DatabaseType)
        requires
            self.spec_written(old, new, p, page_size),
            0 <= p,
            self.spec_page_ok(p, page_size, db),
        ensures
            self.spec_held(new, p, page_size),
    {
        let h = self.header;
        let hb = h.spec_bytes();
        let with_header = write_at(old, p, hb);
        lemma_write_at_holds(old, p, hb);
        assert(hb.len() == 32);
        match self.content {
            PageContent::Index(c) => {
                lemma_write_at_holds(with_header, p + 32, c.spec_bytes(page_size));
                lemma_write_at_keeps(with_header, p + 32, c.spec_bytes(page_size), p, hb);
            },
            PageContent::Data(d) => {
                let end = p + page_size;
                let n = d.row_groups@.len();
                let frame = d.spec_write_frame(with_header, p, page_size);
                let dhb = DataPageHeader::spec_bytes(d.header@);
                let v = choose|v: Seq<(u16, Row)>|
                    sorted_entries(d.rows@, v) && new == rows_written(frame, p + 40, v, v.len());
                let base = p + 40;
                self.lemma_data_frame_held(old, p, page_size);
                d.lemma_entries_apart(v, h, p, page_size);
                if v.len() > 0 {
                    assert(d.rows@.contains_key(v[0].0));
                    if n == 0 {
                        assert(groups_present(d.row_groups@) =~= Seq::<u16>::empty());
                        assert(!groups_present(d.row_groups@).to_set().contains(v[0].0));
                    }
                }
                assert forall|i: int| 0 <= i < v.len() implies base + entry_end(#[trigger] v[i]) <= frame.len() by {
                    assert(d.spec_row_ok(v[i].0, h, p, page_size));
                }
                assert forall|i: int| 0 <= i < v.len() implies (#[trigger] v[i]).1.spec_laid_out() by {
                    assert(d.spec_row_ok(v[i].0, h, p, page_size));
                }
                lemma_rows_written_held(frame, base, v, v.len());
                lemma_rows_written_agree(frame, base, v, v.len(), p, p + 40);
                lemma_agree_holds(frame, new, p, p + 40, p, hb);
                lemma_agree_holds(frame, new, p, p + 40, p + 32, dhb);
                assert forall|i: int| 0 <= i < n implies holds_at(
                    new,
                    group_tail_pos(end, i, d.row_groups@[i]),
                    group_tail_bytes(#[trigger] d.row_groups@[i]),
                ) by {
                    let g = d.row_groups@[i];
                    lemma_group_tail_len(g);
                    assert forall|j: int| 0 <= j < v.len() implies base + entry_end(#[trigger] v[j]) <= group_tail_pos(end, i, g)
                        || group_pos(end, i) + 36 <= base + v[j].0 by {
                        assert(d.spec_row_ok(v[j].0, h, p, page_size));
                        assert(d.rows@[v[j].0] == v[j].1);
                    }
                    lemma_rows_written_agree(frame, base, v, v.len(), group_tail_pos(end, i, g), group_pos(end, i) + 36);
                    lemma_agree_holds(frame, new, group_tail_pos(end, i, g), group_pos(end, i) + 36, group_tail_pos(end, i, g), group_tail_bytes(g));
                }
                assert forall|k: u16| #[trigger] d.rows@.contains_key(k) implies d.rows@[k].spec_held(new, p + 40 + k) by {
                    let j = choose|j: int| 0 <= j < v.len() && v[j].0 == k;
                    assert(v[j].1.spec_held(new, base + v[j].0));
                }
            },
        }
    }

    /// The parts of a page held where writing it at `p` puts them read back.
    pub proof fn lemma_held_read(&self, s: Seq<u8>, p: int, page_size: u32, db: DatabaseType)
        requires
            self.spec_held(s, p, page_size),
            0 <= p,
            self.spec_page_ok(p, page_size, db),
        ensures
            self.spec_read_back(s, p, page_size, db),
            Self::spec_readable(s, p, page_size, db),
    {
        let h = self.header;
        assert(h.spec_bytes().len() == 32);
        h.lemma_held_read(s, p, db);
        match self.content {
            PageContent::Index(c) => {
                c.lemma_held_read(s, p + 32, page_size);
            },
            PageContent::Data(d) => {
                let end = p + page_size;
                let n = d.row_groups@.len();
                let base = p + 40;
                lemma_parse_held::<DataPageHeader>(s, p + 32, d.header@);
                assert forall|i: int| 0 <= i < n implies group_read_back(#[trigger] d.row_groups@[i], s, group_pos(end, i)) by {
                    lemma_group_tail_read(s, group_pos(end, i), d.row_groups@[i]);
                }
                assert forall|k: u16| #[trigger] d.rows@.contains_key(k) implies d.rows@[k].spec_read(s, p + 40 + k, h.page_type) by {
                    assert(d.spec_row_ok(k, h, p, page_size));
                    if !(d.rows@[k] is Unknown && h.page_type is Unknown) {
                        d.rows@[k].lemma_held_read(s, p + 40 + k);
                    }
                }
                lemma_groups_present_read(s, end, d.row_groups@);
                assert forall|i: int| 0 <= i < groups_present_at(s, end, n).len() implies Row::spec_readable(
                    s,
                    base + #[trigger] groups_present_at(s, end, n)[i],
                    h.page_type,
                ) by {
                    let o = groups_present_at(s, end, n)[i];
                    assert(groups_present(d.row_groups@).to_set().contains(o));
                    assert(d.rows@.contains_key(o));
                    d.rows@[o].lemma_read_readable(s, p + 40 + o, h.page_type);
                }
                if n > 0 {
                    lemma_group_tail_len(d.row_groups@[0]);
                    assert(holds_at(s, group_tail_pos(end, 0, d.row_groups@[0]), group_tail_bytes(d.row_groups@[0])));
                }
                assert(groups_in_bounds(s.len() as int, end, n as int));
                assert(d.rows@.dom().len() == d.rows@.len());
            },
        }
    }

    /// What is written for a page is read back: the bytes that `write` puts at
    /// `p` decode, at `p`, to a page, and the page reads back from them (its
    /// header and index content exactly, its data content but for the row
    /// offsets that a row group skips before its first present row), where
    /// the page can be written so that it reads back.
    pub proof fn lemma_write_read(&self, old: Seq<u8>, new: Seq<u8>, p: int, page_size: u32, db: DatabaseType)
        requires
            self.spec_written(old, new, p, page_size),
            0 <= p,
            self.spec_page_ok(p, page_size, db),
        ensures
            self.spec_read_back(new, p, page_size, db),
            Self::spec_readable(new, p, page_size, db),
    {
        self.lemma_written_held(old, new, p, page_size, db);
        self.lemma_held_read(new, p, page_size, db);
    }

    /// Where the bytes that writing the page at `p` puts down end: after the
    /// index content, at the end of the page where a data page has row groups,
    /// and after the data header where it has none.
    pub open spec fn spec_extent(&self, p: int, page_size: u32) -> int {
        match self.content {
            PageContent::Index(c) => p + 32 + c.spec_bytes(page_size).len(),
            PageContent::Data(d) => if d.row_groups@.len() > 0 {
                p + page_size
            } else {
                p + 40
            },
        }
    }

    /// Writing a page that can be written so that it reads back never
    /// shortens the bytes, and makes them reach the end of what it puts down,
    /// which lies within the page.
    pub proof fn lemma_written_len(&self, old: Seq<u8>, new: Seq<u8>, p: int, page_size: u32, db: DatabaseType)
        requires
            self.spec_written(old, new, p, page_size),
            0 <= p,
            self.spec_page_ok(p, page_size, db),
        ensures
            new.len() >= old.len(),
            new.len() >= self.spec_extent(p, page_size),
            p + 40 <= self.spec_extent(p, page_size) <= p + page_size,
    {
        let h = self.header;
        let hb = h.spec_bytes();
        assert(hb.len() == 32);
        let with_header = write_at(old, p, hb);
        match self.content {
            PageContent::Index(c) => {
                lemma_entries_bytes_len(c.entries@);
                lemma_empty_entries_bytes_len((spec_total_entries(page_size) - c.header.num_entries) as nat);
                assert(c.header.spec_bytes().len() == 28);
                assert(4 * spec_total_entries(page_size) <= page_size - 80);
            },
            PageContent::Data(d) => {
                let end = p + page_size;
                let n = d.row_groups@.len();
                let dhb = DataPageHeader::spec_bytes(d.header@);
                assert(dhb.len() == 8);
                let w32 = write_at(with_header, p + 32, dhb);
                let frame = d.spec_write_frame(with_header, p, page_size);
                lemma_groups_written_hold(w32, end, d.row_groups@, n);
                let v = choose|v: Seq<(u16, Row)>|
                    sorted_entries(d.rows@, v) && new == rows_written(frame, p + 40, v, v.len());
                d.lemma_entries_apart(v, h, p, page_size);
                lemma_rows_written_agree(frame, p + 40, v, v.len(), 0, 0);
            },
        }
    }

    /// The parts of a page held at `p` stay held where the bytes of the page
    /// stay, up to the end of what writing the page puts down or further, for
    /// a page that can be written so that it reads back.
    pub proof fn lemma_held_agree(&self, s1: Seq<u8>, s2: Seq<u8>, p: int, page_size: u32, db: DatabaseType, hi: int)
        requires
            self.spec_held(s1, p, page_size),
            0 <= p,
            self.spec_page_ok(p, page_size, db),
            self.spec_extent(p, page_size) <= hi <= p + page_size,
            agree_on(s1, s2, p, hi),
        ensures
            self.spec_held(s2, p, page_size),
    {
        let h = self.header;
        let hb = h.spec_bytes();
        assert(hb.len() == 32);
        match self.content {
            PageContent::Index(c) => {
                lemma_agree_holds(s1, s2, p, hi, p, hb);
                lemma_entries_bytes_len(c.entries@);
                lemma_empty_entries_bytes_len((spec_total_entries(page_size) - c.header.num_entries) as nat);
                assert(4 * spec_total_entries(page_size) <= page_size - 80);
                lemma_agree_holds(s1, s2, p, hi, p + 32, c.spec_bytes(page_size));
            },
            PageContent::Data(d) => {
                let end = p + page_size;
                let n = d.row_groups@.len();
                lemma_agree_holds(s1, s2, p, hi, p, hb);
                lemma_agree_holds(s1, s2, p, hi, p + 32, DataPageHeader::spec_bytes(d.header@));
                assert forall|i: int| 0 <= i < n implies holds_at(
                    s2,
                    group_tail_pos(end, i, d.row_groups@[i]),
                    group_tail_bytes(#[trigger] d.row_groups@[i]),
                ) by {
                    lemma_group_tail_len(d.row_groups@[i]);
                    lemma_agree_holds(s1, s2, p, hi, group_tail_pos(end, i, d.row_groups@[i]), group_tail_bytes(d.row_groups@[i]));
                }
                if n == 0 {
                    assert(groups_present(d.row_groups@) =~= Seq::<u16>::empty());
                }
                assert forall|k: u16| #[trigger] d.rows@.contains_key(k) implies d.rows@[k].spec_held(s2, p + 40 + k) by {
                    let r = d.rows@[k];
                    assert(d.spec_row_ok(k, h, p, page_size));
                    assert(groups_present(d.row_groups@).to_set().contains(k));
                    let q = p + 40 + k;
                    lemma_agree_sub(s1, s2, p, hi, q, p + 40 + entry_end((k, r)));
                    r.lemma_held_agree(s1, s2, q, q, p + 40 + entry_end((k, r)));
                }
            },
        }
    }

    /// Writing a page that can be written so that it reads back keeps the
    /// bytes of a range outside the page.
    pub proof fn lemma_written_agree_outside(
        &self,
        old: Seq<u8>,
        new: Seq<u8>,
        p: int,
        page_size: u32,
        db: DatabaseType,
        lo: int,
        hi: int,
    )
        requires
            self.spec_written(old, new, p, page_size),
            0 <= p,
            self.spec_page_ok(p, page_size, db),
            0 <= lo <= hi <= old.len(),
            hi <= p || p + page_size <= lo,
        ensures
            agree_on(old, new, lo, hi),
    {
        let h = self.header;
        let hb = h.spec_bytes();
        assert(hb.len() == 32);
        let with_header = write_at(old, p, hb);
        lemma_write_at_agree(old, p, hb, lo, hi);
        match self.content {
            PageContent::Index(c) => {
                lemma_entries_bytes_len(c.entries@);
                lemma_empty_entries_bytes_len((spec_total_entries(page_size) - c.header.num_entries) as nat);
                assert(4 * spec_total_entries(page_size) <= page_size - 80);
                lemma_write_at_agree(with_header, p + 32, c.spec_bytes(page_size), lo, hi);
                lemma_agree_trans(old, with_header, new, lo, hi);
            },
            PageContent::Data(d) => {
                let end = p + page_size;
                let n = d.row_groups@.len();
                let dhb = DataPageHeader::spec_bytes(d.header@);
                let w32 = write_at(with_header, p + 32, dhb);
                let frame = d.spec_write_frame(with_header, p, page_size);
                let v = choose|v: Seq<(u16, Row)>|
                    sorted_entries(d.rows@, v) && new == rows_written(frame, p + 40, v, v.len());
                let base = p + 40;
                assert(dhb.len() == 8);
                lemma_write_at_agree(with_header, p + 32, dhb, lo, hi);
                lemma_agree_trans(old, with_header, w32, lo, hi);
                assert forall|i: int| 0 <= i < n implies group_pos(end, i) + 36 <= lo || hi <= #[trigger] group_tail_pos(
                    end,
                    i,
                    d.row_groups@[i],
                ) by {
                    lemma_group_tail_len(d.row_groups@[i]);
                }
                lemma_groups_written_agree(w32, end, d.row_groups@, n, lo, hi);
                lemma_agree_trans(old, w32, frame, lo, hi);
                lemma_groups_written_hold(w32, end, d.row_groups@, n);
                d.lemma_entries_apart(v, h, p, page_size);
                assert forall|i: int| 0 <= i < v.len() implies base + entry_end(#[trigger] v[i]) <= lo || hi <= base + v[i].0 by {
                    assert(d.spec_row_ok(v[i].0, h, p, page_size));
                }
                lemma_rows_written_agree(frame, base, v, v.len(), lo, hi);
                lemma_agree_trans(old, frame, new, lo, hi);
            },
        }
    }

    /// The row groups of a data page fit into a page of `page_size` bytes.
    pub open spec fn spec_groups_fit(&self, page_size: u32) -> bool {
        match self.content {
            PageContent::Data(d) => 36 * d.row_groups@.len() <= page_size,
            PageContent::Index(_) => true,
        }
    }

    /// Writing the page at `p` keeps the bytes held before `p`, where its row
    /// groups fit into the page.
    pub proof fn lemma_written_keeps_before(&self, old: Seq<u8>, new: Seq<u8>, p: int, page_size: u32, r: int, c: Seq<u8>)
        requires
            self.spec_written(old, new, p, page_size),
            self.spec_groups_fit(page_size),
            holds_at(old, r, c),
            r + c.len() <= p,
        ensures
            holds_at(new, r, c),
    {
        let with_header = write_at(old, p, self.header.spec_bytes());
        lemma_write_at_keeps(old, p, self.header.spec_bytes(), r, c);
        match self.content {
            PageContent::Index(ic) => {
                lemma_write_at_keeps(with_header, p + 32, ic.spec_bytes(page_size), r, c);
            },
            PageContent::Data(d) => {
                let v = choose|v: Seq<(u16, Row)>|
                    sorted_entries(d.rows@, v) && new == rows_written(
                        d.spec_write_frame(with_header, p, page_size),
                        p + 40,
                        v,
                        v.len(),
                    );
                let hdr = codec_write::<DataPageHeader>(d.header@, with_header, p + 32);
                lemma_write_at_keeps(with_header, p + 32, DataPageHeader::spec_bytes(d.header@), r, c);
                lemma_groups_written_keeps(hdr, p + page_size, d.row_groups@, d.row_groups@.len(), r, c);
                lemma_rows_written_keeps(d.spec_write_frame(with_header, p, page_size), p + 40, v, v.len(), r, c);
            },
        }
    }

    /// The page can be written: its row counters fit their bits and its rows can be written.
    pub open spec fn spec_writable(&self) -> bool {
        &&& self.header.packed_row_counts.wf()
        &&& match self.content {
            PageContent::Data(d) => d.spec_rows_writable(),
            PageContent::Index(_) => true,
        }
    }

    /// Decodes the page of `page_size` bytes at `pos` in a database of kind `db`.
    pub fn parse(data: &[u8], pos: usize, page_size: u32, db: DatabaseType) -> (r: Option<Page>)
        requires
            pos <= data@.len(),
        ensures
            r is Some <==> Self::spec_readable(data@, pos as int, page_size, db),
            r matches Some(page) ==> page.spec_read(data@, pos as int, page_size, db)
                && page.spec_writable(),
    {
        let header = match PageHeader::parse(data, pos, db) {
            Some(h) => h,
            None => {
                return None;
            },
        };
        assert(pos + 32 <= data.len());
        if header.page_flags.is_index_page() {
            match IndexPageContent::parse(data, pos + 32) {
                Some(c) => Some(Page { header, content: PageContent::Index(c) }),
                None => None,
            }
        } else {
            match DataPageContent::parse(data, pos, page_size, &header) {
                Some(d) => Some(Page { header, content: PageContent::Data(d) }),
                None => None,
            }
        }
    }

    /// Writing the page at `p`, for pages of `page_size` bytes, succeeds: an
    /// index page has room for its headers and its entries, a data page can
    /// write its content (see `DataPageContent::spec_write_ok`), and what is
    /// written has addresses that a `usize` can hold.
    pub open spec fn spec_write_ok(&self, p: int, page_size: u32) -> bool {
        &&& p + 32 <= usize::MAX
        &&& match self.content {
            PageContent::Index(c) => page_size >= 80 && c.header.num_entries <= spec_total_entries(page_size)
                && p + 32 + c.spec_bytes(page_size).len() <= usize::MAX,
            PageContent::Data(d) => d.spec_write_ok(p, page_size),
        }
    }

    /// Writes the page at `pos` of `buf`, for pages of `page_size` bytes.
    ///
    /// An index page fails where the page is too small for its headers or its
    /// header counts more entries than fit; a data page fails where a row group
    /// would lie before the start of `buf` or a row cannot be written.
    pub fn write(&self, buf: &mut Vec<u8>, pos: usize, page_size: u32) -> (r: Result<(), PageError>)
        requires
            self.spec_writable(),
        ensures
            r is Ok ==> self.spec_written(old(buf)@, final(buf)@, pos as int, page_size),
            (self.content matches PageContent::Index(c) && (page_size < 80
                || c.header.num_entries > spec_total_entries(page_size))) ==> r == Err::<
                (),
                PageError,
            >(PageError::IndexOverflow),
            (self.content matches PageContent::Data(d) && 36 * d.row_groups@.len() > pos
                + page_size) ==> r == Err::<(), PageError>(PageError::PositionUnderflow),
            r is Ok <==> self.spec_write_ok(pos as int, page_size),
    {
        if let PageContent::Index(c) = &self.content {
            if page_size < 80 || c.header.num_entries as usize > IndexPageContent::total_entries(
                page_size,
            ) {
                return Err(PageError::IndexOverflow);
            }
        }
        if let PageContent::Data(d) = &self.content {
            if 36 * (d.row_groups.len() as u128) > pos as u128 + page_size as u128 {
                return Err(PageError::PositionUnderflow);
            }
        }
        if pos > usize::MAX - 32 {
            return Err(PageError::PositionOverflow);
        }
        let mut head: Vec<u8> = Vec::new();
        self.header.serialize(&mut head);
        assert(head@ =~= self.header.spec_bytes());
        write_bytes_at(buf, pos, head.as_slice());
        match &self.content {
            PageContent::Index(c) => {
                let mut bytes: Vec<u8> = Vec::new();
                c.serialize(&mut bytes, page_size);
                assert(bytes@ =~= c.spec_bytes(page_size));
                if bytes.len() > usize::MAX - (pos + 32) {
                    return Err(PageError::PositionOverflow);
                }
                write_bytes_at(buf, pos + 32, bytes.as_slice());
                Ok(())
            },
            PageContent::Data(d) => match d.write(buf, pos, page_size) {
                Ok(()) => Ok(()),
                Err(OffsetArrayError::OffsetSizeMismatch) => Err(PageError::OffsetSizeMismatch),
                Err(OffsetArrayError::PositionUnderflow) => Err(PageError::PositionUnderflow),
                Err(OffsetArrayError::PositionOverflow) => Err(PageError::PositionOverflow),
            },
        }
    }

    /// A fresh index page with no entries.
    pub fn new_index(page_index: PageIndex, page_type: PageType, next_page: PageIndex) -> (r: Page)
        ensures
            r.header.page_index == page_index,
            r.header.page_type == page_type,
            r.header.next_page == next_page,
            r.header.page_flags == PageFlags::spec_from_byte(0x64),
            r.header.packed_row_counts.wf(),
            r.header.packed_row_counts.spec_num_rows() == 0,
            r.header.packed_row_counts.spec_num_rows_valid() == 0,
            r.content matches PageContent::Index(c) && c.entries@.len() == 0
                && c.header.num_entries == 0 && c.header.page_index == page_index
                && c.header.next_page == next_page,
    {
        Page {
            header: PageHeader {
                page_index,
                page_type,
                next_page,
                unknown1: 0,
                unknown2: 0,
                packed_row_counts: PackedRowCounts::new(),
                page_flags: PageFlags::new_index_page(),
                free_size: 0,
                used_size: 0,
            },
            content: PageContent::Index(
                IndexPageContent {
                    header: IndexPageHeader {
                        unknown_a: 0x1fff,
                        unknown_b: 0x1fff,
                        next_offset: 0,
                        page_index,
                        next_page,
                        num_entries: 0,
                        first_empty: 0x1fff,
                    },
                    entries: Vec::new(),
                },
            ),
        }
    }

    /// A fresh data page with no rows, whose whole heap is free.
    pub fn new_data(page_size: u32, page_index: PageIndex, page_type: PageType, next_page: PageIndex) -> (r: Page)
        requires
            40 <= page_size <= 40 + u16::MAX,
        ensures
            r.header.page_index == page_index,
            r.header.page_type == page_type,
            r.header.next_page == next_page,
            r.header.page_flags == PageFlags::spec_from_byte(0x24),
            r.header.packed_row_counts.wf(),
            r.header.packed_row_counts.spec_num_rows() == 0,
            r.header.packed_row_counts.spec_num_rows_valid() == 0,
            r.header.free_size == page_size - 40,
            r.header.used_size == 0,
            r.content matches PageContent::Data(d) && d.row_groups@.len() == 0
                && d.rows@ == Map::<u16, Row>::empty(),
    {
        Page {
            header: PageHeader {
                page_index,
                page_type,
                next_page,
                unknown1: 0,
                unknown2: 0,
                packed_row_counts: PackedRowCounts::new(),
                page_flags: PageFlags::new_data_page(),
                free_size: DataPageContent::page_heap_size(page_size) as u16,
                used_size: 0,
            },
            content: PageContent::Data(
                DataPageContent {
                    header: DataPageHeader {
                        unknown5: 1,
                        unknown_not_num_rows_large: 0,
                        unknown6: 0,
                        unknown7: 0,
                    },
                    row_groups: Vec::new(),
                    rows: BTreeMap::new(),
                },
            ),
        }
    }

    /// Whether a row of `bytes` bytes fits into this page: a data page with
    /// room for the row, rounded up to four bytes, plus a row-group header and
    /// one row offset.
    pub open spec fn spec_fits(&self, bytes: u16) -> bool {
        self.content is Data && self.header.free_size >= round_up4(bytes as int) + 6
    }

    /// The conditions under which allocating a row of `bytes` bytes in this
    /// page does not overflow one of its counters or fields.
    pub open spec fn spec_can_allocate(&self, bytes: u16) -> bool {
        self.content matches PageContent::Data(d) ==> {
            &&& bytes <= 65528
            &&& self.spec_fits(bytes) ==> {
                &&& self.header.packed_row_counts.spec_num_rows() + 1 < 8192
                &&& self.header.used_size + round_up4(bytes as int) <= u16::MAX
                &&& self.header.packed_row_counts.spec_num_rows() / 16 <= d.row_groups@.len()
            }
        }
    }

    /// Allocates room for a row of `bytes` bytes in the page heap and returns
    /// where the row goes, or `None` where the page is an index page or has too
    /// little free space. Rows are aligned to four bytes; the space of a new
    /// row group header (where the row opens a new group) and of the row
    /// offset are taken from the free space too. The row itself is stored with
    /// `insert_row`.
    pub fn allocate_row(&mut self, bytes: u16) -> (r: Option<RowSlot>)
        requires
            old(self).header.packed_row_counts.wf(),
            old(self).spec_can_allocate(bytes),
        ensures
            final(self).header.packed_row_counts.wf(),
            !old(self).spec_fits(bytes) ==> r is None && *final(self) == *old(self),
            old(self).spec_fits(bytes) ==> r is Some,
            r matches Some(slot) ==> {
                let b = round_up4(bytes as int);
                let n = old(self).header.packed_row_counts.spec_num_rows();
                let od = old(self).content->Data_0;
                let fd = final(self).content->Data_0;
                let opened = slot.group == od.row_groups@.len();
                &&& final(self).content is Data
                &&& slot.offset == old(self).header.used_size
                &&& slot.group == n / 16
                &&& slot.subindex == n % 16
                &&& final(self).header.used_size == old(self).header.used_size + b
                &&& final(self).header.free_size == old(self).header.free_size - b - 2 - (if opened {
                    4int
                } else {
                    0int
                })
                &&& final(self).header.packed_row_counts.spec_num_rows() == n + 1
                &&& final(self).header.packed_row_counts.spec_num_rows_valid()
                    == old(self).header.packed_row_counts.spec_num_rows_valid()
                &&& final(self).header.page_index == old(self).header.page_index
                &&& final(self).header.page_type == old(self).header.page_type
                &&& final(self).header.next_page == old(self).header.next_page
                &&& final(self).header.page_flags == old(self).header.page_flags
                &&& final(self).header.unknown1 == old(self).header.unknown1
                &&& final(self).header.unknown2 == old(self).header.unknown2
                &&& fd.header == od.header
                &&& fd.rows == od.rows
                &&& fd.row_groups@.len() == od.row_groups@.len() + (if opened {
                    1int
                } else {
                    0int
                })
                &&& forall|g: int|
                    0 <= g < od.row_groups@.len() && g != slot.group ==> #[trigger] fd.row_groups@[g]
                        == od.row_groups@[g]
                &&& fd.row_groups@[slot.group as int].row_offsets@ == (if opened {
                    Seq::new(16, |i: int| 0u16)
                } else {
                    od.row_groups@[slot.group as int].row_offsets@
                }).update(15 - slot.subindex, slot.offset)
                &&& fd.row_groups@[slot.group as int].row_presence_flags == (if opened {
                    0
                } else {
                    od.row_groups@[slot.group as int].row_presence_flags
                })
                &&& fd.row_groups@[slot.group as int].unknown == (if opened {
                    0
                } else {
                    od.row_groups@[slot.group as int].unknown
                })
            },
    {
        if !self.content.is_data() {
            return None;
        }
        let b = round_up_to_4(bytes);
        let required = b + RowGroup::HEADER_SIZE + RowGroup::OFFSET_SIZE;
        if self.header.free_size < required {
            return None;
        }
        let offset = self.header.used_size;
        self.header.used_size = self.header.used_size + b;
        self.header.free_size = self.header.free_size - b;
        self.header.packed_row_counts.increment_num_rows();
        let n = self.header.packed_row_counts.num_rows() - 1;
        let group = n / 16;
        let subindex = n % 16;
        let mut opened = false;
        if let PageContent::Data(dpc) = &mut self.content {
            opened = place_offset(&mut dpc.row_groups, group, subindex, offset);
        }
        if opened {
            self.header.free_size = self.header.free_size - RowGroup::HEADER_SIZE;
        }
        self.header.free_size = self.header.free_size - RowGroup::OFFSET_SIZE;
        Some(RowSlot { offset, group, subindex })
    }

    /// Stores `row` at the slot that `allocate_row` returned: the row goes into
    /// the rows at the slot's offset, the slot is marked present in its row
    /// group, and the page counts one more valid row.
    pub fn insert_row(&mut self, slot: RowSlot, row: Row)
        requires
            old(self).header.packed_row_counts.wf(),
            old(self).header.packed_row_counts.spec_num_rows_valid() + 1 < 2048,
            old(self).content matches PageContent::Data(d) && slot.group < d.row_groups@.len()
                && !d.rows@.contains_key(slot.offset),
            slot.subindex < 16,
        ensures
            final(self).header.packed_row_counts.wf(),
            final(self).header.packed_row_counts.spec_num_rows_valid()
                == old(self).header.packed_row_counts.spec_num_rows_valid() + 1,
            final(self).header.packed_row_counts.spec_num_rows()
                == old(self).header.packed_row_counts.spec_num_rows(),
            final(self).header.used_size == old(self).header.used_size,
            final(self).header.free_size == old(self).header.free_size,
            final(self).header.page_index == old(self).header.page_index,
            final(self).header.page_type == old(self).header.page_type,
            final(self).header.next_page == old(self).header.next_page,
            final(self).header.page_flags == old(self).header.page_flags,
            final(self).header.unknown1 == old(self).header.unknown1,
            final(self).header.unknown2 == old(self).header.unknown2,
            final(self).content matches PageContent::Data(fd) && {
                let od = old(self).content->Data_0;
                &&& fd.header == od.header
                &&& fd.rows@ == od.rows@.insert(slot.offset, row)
                &&& fd.row_groups@.len() == od.row_groups@.len()
                &&& forall|g: int|
                    0 <= g < od.row_groups@.len() && g != slot.group ==> #[trigger] fd.row_groups@[g]
                        == od.row_groups@[g]
                &&& fd.row_groups@[slot.group as int].row_offsets@ == od.row_groups@[slot.group as int].row_offsets@
                &&& fd.row_groups@[slot.group as int].unknown == od.row_groups@[slot.group as int].unknown
                &&& fd.row_groups@[slot.group as int].row_presence_flags == od.row_groups@[slot.group as int].row_presence_flags
                    | (1u16 << slot.subindex)
            },
    {
        proof {
            lemma_offset_keys_hold();
        }
        match &mut self.content {
            PageContent::Index(_) => {},
            PageContent::Data(dpc) => {
                dpc.rows.insert(slot.offset, row);
                let mut g = dpc.row_groups[slot.group as usize];
                g.mark_offset_present(slot.subindex);
                dpc.row_groups.set(slot.group as usize, g);
                self.header.packed_row_counts.increment_num_rows_valid();
            },
        }
    }
}

} // verus!
