//! Packed fields of the page header: the row counters and the page flags.

use vstd::prelude::*;

verus! {

/// The number of row groups needed for `num_rows` rows of at most sixteen each.
pub open spec fn spec_num_row_groups(num_rows: int) -> int {
    (num_rows + 15) / 16
}

/// Packed field of the page header holding the number of used row offsets
/// (13 bits) and the number of valid rows (11 bits) in three bytes.
#[derive(Debug, PartialEq, Eq, Clone, Copy, Structural)]
pub struct PackedRowCounts {
    num_rows: u16,
    num_rows_valid: u16,
}

/// Limit (exclusive) of the used row counter.
pub const NUM_ROWS_LIMIT: u16 = 8192;

/// Limit (exclusive) of the valid row counter.
pub const NUM_ROWS_VALID_LIMIT: u16 = 2048;

impl PackedRowCounts {
    /// Number of used row offsets in the page.
    pub closed spec fn spec_num_rows(self) -> u16 {
        self.num_rows
    }

    /// Number of valid rows in the page.
    pub closed spec fn spec_num_rows_valid(self) -> u16 {
        self.num_rows_valid
    }

    /// Both counters fit into their bits.
    pub closed spec fn wf(self) -> bool {
        self.num_rows < NUM_ROWS_LIMIT && self.num_rows_valid < NUM_ROWS_VALID_LIMIT
    }

    /// The counters as one 24-bit number, the used counter in the low bits.
    pub open spec fn spec_value(self) -> int {
        self.spec_num_rows() + 8192 * self.spec_num_rows_valid()
    }

    /// The three bytes that store the counters, low byte first.
    pub open spec fn spec_bytes(self) -> Seq<u8> {
        let v = self.spec_value();
        seq![(v % 256) as u8, ((v / 256) % 256) as u8, (v / 65536) as u8]
    }

    /// The counters stored in the three bytes `b0`, `b1`, `b2`.
    pub open spec fn spec_from_bytes(b0: u8, b1: u8, b2: u8) -> (int, int) {
        let v = b0 + 256 * b1 + 65536 * b2;
        (v % 8192, v / 8192)
    }

    /// Both counters zero.
    pub fn new() -> (r: PackedRowCounts)
        ensures
            r.wf(),
            r.spec_num_rows() == 0,
            r.spec_num_rows_valid() == 0,
    {
        PackedRowCounts { num_rows: 0, num_rows_valid: 0 }
    }

    /// The counters stored in `bytes`.
    pub fn from_bytes(bytes: [u8; 3]) -> (r: PackedRowCounts)
        ensures
            r.wf(),
            (r.spec_num_rows() as int, r.spec_num_rows_valid() as int) == Self::spec_from_bytes(
                bytes@[0],
                bytes@[1],
                bytes@[2],
            ),
    {
        let v: u32 = bytes[0] as u32 + 256 * (bytes[1] as u32) + 65536 * (bytes[2] as u32);
        PackedRowCounts { num_rows: (v % 8192) as u16, num_rows_valid: (v / 8192) as u16 }
    }

    /// The three bytes that store the counters.
    pub fn into_bytes(&self) -> (r: [u8; 3])
        requires
            self.wf(),
        ensures
            r@ == self.spec_bytes(),
    {
        let v: u32 = self.num_rows as u32 + 8192 * (self.num_rows_valid as u32);
        let r = [(v % 256) as u8, ((v / 256) % 256) as u8, (v / 65536) as u8];
        assert(r@ =~= self.spec_bytes());
        r
    }

    /// Counters that say that all `num_rows` rows of a page are valid.
    pub fn from_all_valid(num_rows: usize) -> (r: PackedRowCounts)
        requires
            num_rows < NUM_ROWS_VALID_LIMIT,
        ensures
            r.wf(),
            r.spec_num_rows() == num_rows,
            r.spec_num_rows_valid() == num_rows,
    {
        PackedRowCounts { num_rows: num_rows as u16, num_rows_valid: num_rows as u16 }
    }

    /// Number of used row offsets in the page.
    pub fn num_rows(&self) -> (r: u16)
        ensures
            r == self.spec_num_rows(),
    {
        self.num_rows
    }

    /// Number of valid rows in the page.
    pub fn num_rows_valid(&self) -> (r: u16)
        ensures
            r == self.spec_num_rows_valid(),
    {
        self.num_rows_valid
    }

    /// The same counters with the used counter set to `v`.
    pub fn with_num_rows(&self, v: u16) -> (r: PackedRowCounts)
        requires
            self.wf(),
            v < NUM_ROWS_LIMIT,
        ensures
            r.wf(),
            r.spec_num_rows() == v,
            r.spec_num_rows_valid() == self.spec_num_rows_valid(),
    {
        PackedRowCounts { num_rows: v, num_rows_valid: self.num_rows_valid }
    }

    /// The same counters with the valid counter set to `v`.
    pub fn with_num_rows_valid(&self, v: u16) -> (r: PackedRowCounts)
        requires
            self.wf(),
            v < NUM_ROWS_VALID_LIMIT,
        ensures
            r.wf(),
            r.spec_num_rows() == self.spec_num_rows(),
            r.spec_num_rows_valid() == v,
    {
        PackedRowCounts { num_rows: self.num_rows, num_rows_valid: v }
    }

    /// Counts one more used row offset.
    pub fn increment_num_rows(&mut self)
        requires
            old(self).wf(),
            old(self).spec_num_rows() + 1 < NUM_ROWS_LIMIT,
        ensures
            final(self).wf(),
            final(self).spec_num_rows() == old(self).spec_num_rows() + 1,
            final(self).spec_num_rows_valid() == old(self).spec_num_rows_valid(),
    {
        self.num_rows = self.num_rows + 1;
    }

    /// Counts one more valid row.
    pub fn increment_num_rows_valid(&mut self)
        requires
            old(self).wf(),
            old(self).spec_num_rows_valid() + 1 < NUM_ROWS_VALID_LIMIT,
        ensures
            final(self).wf(),
            final(self).spec_num_rows() == old(self).spec_num_rows(),
            final(self).spec_num_rows_valid() == old(self).spec_num_rows_valid() + 1,
    {
        self.num_rows_valid = self.num_rows_valid + 1;
    }

    /// The row group and the place within it of the last used row offset.
    pub fn last_row_index(&self) -> (r: Option<(u16, u16)>)
        ensures
            self.spec_num_rows() == 0 ==> r is None,
            self.spec_num_rows() > 0 ==> r == Some(
                (
                    ((self.spec_num_rows() - 1) / 16) as u16,
                    ((self.spec_num_rows() - 1) % 16) as u16,
                ),
            ),
    {
        if self.num_rows == 0 {
            None
        } else {
            Some(((self.num_rows - 1) / 16, (self.num_rows - 1) % 16))
        }
    }

    /// The number of row groups in the page.
    pub fn num_row_groups(&self) -> (r: u16)
        ensures
            r == spec_num_row_groups(self.spec_num_rows() as int),
    {
        self.num_rows / 16 + if self.num_rows % 16 != 0 {
            1
        } else {
            0
        }
    }

    /// Decoding the bytes of well-formed counters gives the counters back.
    pub proof fn lemma_roundtrip(self)
        requires
            self.wf(),
        ensures
            Self::spec_from_bytes(self.spec_bytes()[0], self.spec_bytes()[1], self.spec_bytes()[2])
                == (self.spec_num_rows() as int, self.spec_num_rows_valid() as int),
    {
        let v = self.spec_value();
        let b = self.spec_bytes();
        assert(0 <= v < 16777216);
        assert(b[0] + 256 * b[1] + 65536 * b[2] == v) by (nonlinear_arith)
            requires
                b[0] == v % 256,
                b[1] == (v / 256) % 256,
                b[2] == v / 65536,
                0 <= v < 16777216,
        ;
    }
}

/// How the row counters are packed: the used counter takes the low 13 bits
/// and the valid counter the 11 bits above them, in three bytes low byte
/// first.
pub proof fn lemma_row_counts_bits(c: PackedRowCounts)
    requires
        c.wf(),
    ensures
        c.spec_bytes().len() == 3,
        c.spec_bytes()[0] == c.spec_num_rows() % 256,
        c.spec_bytes()[1] == c.spec_num_rows() / 256 + 32 * (c.spec_num_rows_valid() % 8),
        c.spec_bytes()[2] == c.spec_num_rows_valid() / 8,
{
    let n = c.spec_num_rows() as int;
    let w = c.spec_num_rows_valid() as int;
    let v = c.spec_value();
    assert(v == n + 8192 * w);
    assert(v % 256 == n % 256 && (v / 256) % 256 == n / 256 + 32 * (w % 8) && v / 65536 == w / 8)
        by (nonlinear_arith)
        requires
            0 <= n < 8192,
            0 <= w < 2048,
            v == n + 8192 * w,
    ;
}

/// Where the flags sit in the flag byte: the page is an index page where
/// bit 6 is set, and holds deleted rows where bit 4 is set; fresh data pages
/// have the byte 0x24, which marks no index page, and fresh index pages the
/// byte 0x64, which does.
pub proof fn lemma_page_flag_bits(v: u8)
    ensures
        PageFlags::spec_from_byte(v).is_index_page <==> (v >> 6u8) & 1u8 == 1u8,
        PageFlags::spec_from_byte(v).contains_deleted <==> (v >> 4u8) & 1u8 == 1u8,
        !PageFlags::spec_from_byte(0x24).is_index_page,
        PageFlags::spec_from_byte(0x64).is_index_page,
{
    assert((v & 64u8 != 0u8) == ((v >> 6u8) & 1u8 == 1u8)) by (bit_vector);
    assert((v & 16u8 != 0u8) == ((v >> 4u8) & 1u8 == 1u8)) by (bit_vector);
    assert(0x24u8 & 64u8 == 0u8) by (bit_vector);
    assert(0x64u8 & 64u8 != 0u8) by (bit_vector);
}

impl Default for PackedRowCounts {
    fn default() -> (r: PackedRowCounts)
        ensures
            r.wf(),
            r.spec_num_rows() == 0,
            r.spec_num_rows_valid() == 0,
    {
        Self::new()
    }
}

/// Page flags stored in one byte of the page header, bit 0 first.
#[derive(Debug, PartialEq, Eq, Clone, Copy, Structural)]
pub struct PageFlags {
    /// Unknown flag (bit 0) that appears to never be set.
    pub unknown0: bool,
    /// Unknown flag (bit 1) that appears to never be set.
    pub unknown1: bool,
    /// Unknown flag (bit 2) that appears to always be set.
    pub unknown2: bool,
    /// Unknown flag (bit 3) that appears to never be set.
    pub unknown3: bool,
    /// Flag (bit 4) set when the page contains a deleted row.
    pub contains_deleted: bool,
    /// Unknown flag (bit 5) that appears to always be set.
    pub unknown5: bool,
    /// Flag (bit 6) set on index pages.
    pub is_index_page: bool,
    /// Unknown flag (bit 7) that appears to never be set.
    pub unknown7: bool,
}

/// `w` where `b` holds, zero otherwise.
pub open spec fn flag_weight(b: bool, w: u8) -> u8 {
    if b {
        w
    } else {
        0
    }
}

impl PageFlags {
    /// The byte that stores the flags.
    pub open spec fn spec_byte(self) -> u8 {
        flag_weight(self.unknown0, 1) | flag_weight(self.unknown1, 2) | flag_weight(
            self.unknown2,
            4,
        ) | flag_weight(self.unknown3, 8) | flag_weight(self.contains_deleted, 16) | flag_weight(
            self.unknown5,
            32,
        ) | flag_weight(self.is_index_page, 64) | flag_weight(self.unknown7, 128)
    }

    /// The flags stored in byte `v`.
    pub open spec fn spec_from_byte(v: u8) -> PageFlags {
        PageFlags {
            unknown0: v & 1 != 0,
            unknown1: v & 2 != 0,
            unknown2: v & 4 != 0,
            unknown3: v & 8 != 0,
            contains_deleted: v & 16 != 0,
            unknown5: v & 32 != 0,
            is_index_page: v & 64 != 0,
            unknown7: v & 128 != 0,
        }
    }

    /// All flags cleared.
    pub fn new() -> (r: PageFlags)
        ensures
            r.spec_byte() == 0,
            r == Self::spec_from_byte(0),
    {
        let r = PageFlags {
            unknown0: false,
            unknown1: false,
            unknown2: false,
            unknown3: false,
            contains_deleted: false,
            unknown5: false,
            is_index_page: false,
            unknown7: false,
        };
        assert((0u8 | 0u8 | 0u8 | 0u8 | 0u8 | 0u8 | 0u8 | 0u8) == 0u8) by (bit_vector);
        assert(Self::spec_from_byte(0) == r) by {
            assert(0u8 & 1 == 0 && 0u8 & 2 == 0 && 0u8 & 4 == 0 && 0u8 & 8 == 0 && 0u8 & 16 == 0
                && 0u8 & 32 == 0 && 0u8 & 64 == 0 && 0u8 & 128 == 0) by (bit_vector);
        }
        r
    }

    /// The flags stored in `bytes`.
    pub fn from_bytes(bytes: [u8; 1]) -> (r: PageFlags)
        ensures
            r == Self::spec_from_byte(bytes@[0]),
    {
        let v = bytes[0];
        PageFlags {
            unknown0: v & 1 != 0,
            unknown1: v & 2 != 0,
            unknown2: v & 4 != 0,
            unknown3: v & 8 != 0,
            contains_deleted: v & 16 != 0,
            unknown5: v & 32 != 0,
            is_index_page: v & 64 != 0,
            unknown7: v & 128 != 0,
        }
    }

    /// The byte that stores the flags.
    pub fn into_bytes(&self) -> (r: [u8; 1])
        ensures
            r@ == seq![self.spec_byte()],
    {
        let w0: u8 = if self.unknown0 { 1 } else { 0 };
        let w1: u8 = if self.unknown1 { 2 } else { 0 };
        let w2: u8 = if self.unknown2 { 4 } else { 0 };
        let w3: u8 = if self.unknown3 { 8 } else { 0 };
        let w4: u8 = if self.contains_deleted { 16 } else { 0 };
        let w5: u8 = if self.unknown5 { 32 } else { 0 };
        let w6: u8 = if self.is_index_page { 64 } else { 0 };
        let w7: u8 = if self.unknown7 { 128 } else { 0 };
        let r = [w0 | w1 | w2 | w3 | w4 | w5 | w6 | w7];
        assert(r@ =~= seq![self.spec_byte()]);
        r
    }

    /// Whether the page is an index page.
    pub fn is_index_page(&self) -> (r: bool)
        ensures
            r == self.is_index_page,
    {
        self.is_index_page
    }

    /// Sets the deleted-row flag.
    pub fn set_contains_deleted(&mut self, v: bool)
        ensures
            *final(self) == (PageFlags { contains_deleted: v, ..*old(self) }),
    {
        self.contains_deleted = v;
    }

    /// The same flags with the index-page flag set to `v`.
    pub fn with_is_index_page(&self, v: bool) -> (r: PageFlags)
        ensures
            r == (PageFlags { is_index_page: v, ..*self }),
    {
        PageFlags { is_index_page: v, ..*self }
    }

    /// Flags of a typical data page.
    pub fn new_data_page() -> (r: PageFlags)
        ensures
            r == Self::spec_from_byte(0x24),
            r.spec_byte() == 0x24,
    {
        let r = Self::typical().with_is_index_page(false);
        assert((0u8 | 0u8 | 4u8 | 0u8 | 0u8 | 32u8 | 0u8 | 0u8) == 0x24u8) by (bit_vector);
        assert(0x24u8 & 1 == 0 && 0x24u8 & 2 == 0 && 0x24u8 & 4 != 0 && 0x24u8 & 8 == 0 && 0x24u8
            & 16 == 0 && 0x24u8 & 32 != 0 && 0x24u8 & 64 == 0 && 0x24u8 & 128 == 0)
            by (bit_vector);
        r
    }

    /// Flags of a typical index page.
    pub fn new_index_page() -> (r: PageFlags)
        ensures
            r == Self::spec_from_byte(0x64),
            r.spec_byte() == 0x64,
    {
        let r = Self::typical().with_is_index_page(true);
        assert((0u8 | 0u8 | 4u8 | 0u8 | 0u8 | 32u8 | 64u8 | 0u8) == 0x64u8) by (bit_vector);
        assert(0x64u8 & 1 == 0 && 0x64u8 & 2 == 0 && 0x64u8 & 4 != 0 && 0x64u8 & 8 == 0 && 0x64u8
            & 16 == 0 && 0x64u8 & 32 != 0 && 0x64u8 & 64 != 0 && 0x64u8 & 128 == 0)
            by (bit_vector);
        r
    }

    /// The flags of a fresh data page: only the two always-set unknown flags.
    fn typical() -> (r: PageFlags)
        ensures
            r == (PageFlags {
                unknown0: false,
                unknown1: false,
                unknown2: true,
                unknown3: false,
                contains_deleted: false,
                unknown5: true,
                is_index_page: false,
                unknown7: false,
            }),
    {
        PageFlags {
            unknown0: false,
            unknown1: false,
            unknown2: true,
            unknown3: false,
            contains_deleted: false,
            unknown5: true,
            is_index_page: false,
            unknown7: false,
        }
    }

    /// Decoding the byte of flags gives the flags back.
    pub proof fn lemma_byte_roundtrip(f: PageFlags)
        ensures
            Self::spec_from_byte(f.spec_byte()) == f,
    {
        let w0 = flag_weight(f.unknown0, 1);
        let w1 = flag_weight(f.unknown1, 2);
        let w2 = flag_weight(f.unknown2, 4);
        let w3 = flag_weight(f.unknown3, 8);
        let w4 = flag_weight(f.contains_deleted, 16);
        let w5 = flag_weight(f.unknown5, 32);
        let w6 = flag_weight(f.is_index_page, 64);
        let w7 = flag_weight(f.unknown7, 128);
        let v = f.spec_byte();
        assert(v == w0 | w1 | w2 | w3 | w4 | w5 | w6 | w7);
        assert((w0 == 0 || w0 == 1) && (w1 == 0 || w1 == 2) && (w2 == 0 || w2 == 4) && (w3 == 0
            || w3 == 8) && (w4 == 0 || w4 == 16) && (w5 == 0 || w5 == 32) && (w6 == 0 || w6 == 64)
            && (w7 == 0 || w7 == 128));
        assert({
            &&& (v & 1 != 0) == (w0 != 0)
            &&& (v & 2 != 0) == (w1 != 0)
            &&& (v & 4 != 0) == (w2 != 0)
            &&& (v & 8 != 0) == (w3 != 0)
            &&& (v & 16 != 0) == (w4 != 0)
            &&& (v & 32 != 0) == (w5 != 0)
            &&& (v & 64 != 0) == (w6 != 0)
            &&& (v & 128 != 0) == (w7 != 0)
        }) by (bit_vector)
            requires
                v == w0 | w1 | w2 | w3 | w4 | w5 | w6 | w7,
                w0 == 0 || w0 == 1,
                w1 == 0 || w1 == 2,
                w2 == 0 || w2 == 4,
                w3 == 0 || w3 == 8,
                w4 == 0 || w4 == 16,
                w5 == 0 || w5 == 32,
                w6 == 0 || w6 == 64,
                w7 == 0 || w7 == 128,
        ;
    }

    /// Encoding the flags stored in a byte gives the byte back.
    pub proof fn lemma_flags_roundtrip(v: u8)
        ensures
            Self::spec_from_byte(v).spec_byte() == v,
    {
        let f = Self::spec_from_byte(v);
        let w0 = flag_weight(f.unknown0, 1);
        let w1 = flag_weight(f.unknown1, 2);
        let w2 = flag_weight(f.unknown2, 4);
        let w3 = flag_weight(f.unknown3, 8);
        let w4 = flag_weight(f.contains_deleted, 16);
        let w5 = flag_weight(f.unknown5, 32);
        let w6 = flag_weight(f.is_index_page, 64);
        let w7 = flag_weight(f.unknown7, 128);
        assert(w0 == v & 1 && w1 == v & 2 && w2 == v & 4 && w3 == v & 8 && w4 == v & 16 && w5 == v
            & 32 && w6 == v & 64 && w7 == v & 128) by {
            assert((v & 1 == 0 || v & 1 == 1) && (v & 2 == 0 || v & 2 == 2) && (v & 4 == 0 || v
                & 4 == 4) && (v & 8 == 0 || v & 8 == 8) && (v & 16 == 0 || v & 16 == 16) && (v
                & 32 == 0 || v & 32 == 32) && (v & 64 == 0 || v & 64 == 64) && (v & 128 == 0 || v
                & 128 == 128)) by (bit_vector);
        }
        assert(v == (v & 1) | (v & 2) | (v & 4) | (v & 8) | (v & 16) | (v & 32) | (v & 64) | (v
            & 128)) by (bit_vector);
    }
}

impl Default for PageFlags {
    fn default() -> (r: PageFlags)
        ensures
            r == Self::spec_from_byte(0x24),
    {
        let r = Self::typical();
        assert(0x24u8 & 1 == 0 && 0x24u8 & 2 == 0 && 0x24u8 & 4 != 0 && 0x24u8 & 8 == 0 && 0x24u8
            & 16 == 0 && 0x24u8 & 32 != 0 && 0x24u8 & 64 == 0 && 0x24u8 & 128 == 0)
            by (bit_vector);
        r
    }
}

} // verus!
