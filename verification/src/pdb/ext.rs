//! Row and page types of the extended database exports (`exportExt.pdb`).

use crate::codec::{
    agree_on, holds_at, lemma_agree_holds, lemma_agree_trans, lemma_parse_held, lemma_write_at_agree,
    lemma_write_at_holds, lemma_write_at_keeps, write_at, write_bytes_at, Codec, Magic32,
};
use crate::pdb::offset_array::{OffsetArrayContainer, OffsetArrayError, OffsetArrayItems};
use crate::pdb::rows::{codec_read, codec_write, read_value, write_value};
use crate::pdb::string::{DeviceSQLString, DeviceSQLStringModel};
use crate::pdb::{Subtype, TrackId};
use vstd::prelude::*;

verus! {

/// Identifies a tag.
#[derive(Debug, PartialEq, Eq, Clone, Copy, Structural)]
pub struct TagId(pub u32);

/// The parent category of a tag: stored as a `u32`, where zero means none.
#[derive(Debug, PartialEq, Eq, Clone, Copy, Structural)]
pub struct ParentId(pub Option<u32>);

impl ParentId {
    /// The parent stored as `v`.
    pub open spec fn spec_from_u32(v: u32) -> ParentId {
        if v == 0 {
            ParentId(None)
        } else {
            ParentId(Some(v))
        }
    }

    /// The number that stores the parent.
    pub open spec fn spec_to_u32(self) -> u32 {
        match self.0 {
            Some(v) => v,
            None => 0,
        }
    }

    /// The parent stored as `v`.
    pub fn from_u32(v: u32) -> (r: ParentId)
        ensures
            r == Self::spec_from_u32(v),
    {
        if v == 0 {
            ParentId(None)
        } else {
            ParentId(Some(v))
        }
    }

    /// The number that stores the parent.
    pub fn to_u32(&self) -> (r: u32)
        ensures
            r == self.spec_to_u32(),
    {
        match self.0 {
            Some(v) => v,
            None => 0,
        }
    }
}

/// The type of pages found inside a `Table` of an `exportExt.pdb` file.
#[derive(Debug, PartialEq, Eq, Clone, Copy, Structural)]
pub enum ExtPageType {
    /// Tags that can be assigned to tracks for categorization.
    Tag,
    /// Associations between tag ids and track ids.
    TrackTag,
}

impl ExtPageType {
    /// The page type stored as `v`, if `v` names one.
    pub open spec fn spec_from_u32(v: u32) -> Option<ExtPageType> {
        if v == 3 {
            Some(ExtPageType::Tag)
        } else if v == 4 {
            Some(ExtPageType::TrackTag)
        } else {
            None
        }
    }

    /// The number that stores the page type.
    pub open spec fn spec_to_u32(self) -> u32 {
        match self {
            ExtPageType::Tag => 3,
            ExtPageType::TrackTag => 4,
        }
    }

    /// The page type stored as `v`, if `v` names one.
    pub fn from_u32(v: u32) -> (r: Option<ExtPageType>)
        ensures
            r == Self::spec_from_u32(v),
    {
        if v == 3 {
            Some(ExtPageType::Tag)
        } else if v == 4 {
            Some(ExtPageType::TrackTag)
        } else {
            None
        }
    }

    /// The number that stores the page type.
    pub fn to_u32(&self) -> (r: u32)
        ensures
            r == self.spec_to_u32(),
    {
        match self {
            ExtPageType::Tag => 3,
            ExtPageType::TrackTag => 4,
        }
    }
}

/// String fields stored via the offset table in tag rows.
#[derive(Debug, PartialEq, Eq, Clone)]
pub struct TagOrCategoryStrings {
    /// Name of the tag or category.
    pub name: DeviceSQLString,
    /// Unknown string field (usually empty).
    pub unknown: DeviceSQLString,
}

impl OffsetArrayItems<2> for TagOrCategoryStrings {
    type Item = DeviceSQLString;

    open spec fn spec_items(&self) -> Seq<DeviceSQLStringModel> {
        seq![self.name@, self.unknown@]
    }

    fn as_items(&self) -> (r: Vec<&DeviceSQLString>) {
        let mut v: Vec<&DeviceSQLString> = Vec::new();
        v.push(&self.name);
        v.push(&self.unknown);
        v
    }

    fn from_items(items: Vec<DeviceSQLString>) -> (r: TagOrCategoryStrings) {
        let ghost all = items@;
        let mut items = items;
        let unknown = items.pop().unwrap();
        assert(unknown == all[1]);
        let name = items.pop().unwrap();
        assert(name == all[0]);
        TagOrCategoryStrings { name, unknown }
    }
}

/// The fixed-size fields of a `TagOrCategory` row in storage order.
pub type TagOrCategoryHead = (u16, (u16, (u32, (u32, (u32, (u32, (u32, u32)))))));

/// A tag, or a category of tags, of an extended database export.
#[derive(Debug, PartialEq, Eq, Clone)]
pub struct TagOrCategory {
    /// Subtype; decides the size of the string offsets.
    pub subtype: Subtype,
    /// Also called tag index; increments by 0x20 every row.
    pub index_shift: u16,
    /// Unknown field, not always zero.
    pub unknown1: u32,
    /// Unknown field, not always zero.
    pub unknown2: u32,
    /// The category this tag belongs to; `None` for a category.
    pub parent_id: ParentId,
    /// Zero-based position of the tag within its category, or of the category in the category list.
    pub position: u32,
    /// ID of this row.
    pub id: TagId,
    /// Non-zero for a category.
    pub raw_is_category: u32,
    /// The offsets of the strings at the end of this row.
    pub offsets: OffsetArrayContainer<TagOrCategoryStrings, 2>,
}

impl TagOrCategory {
    /// Size of the fixed-size fields, where the offsets begin.
    pub const HEAD_SIZE: usize = 28;

    /// The fixed-size fields, as numbers.
    pub open spec fn spec_head(&self) -> <TagOrCategoryHead as View>::V {
        (self.subtype.0, (self.index_shift, (self.unknown1, (self.unknown2, (self.parent_id.spec_to_u32(), (self.position, (self.id.0, self.raw_is_category)))))))
    }

    /// `self` is the row decoded at byte `p` of `s`.
    pub open spec fn spec_read(&self, s: Seq<u8>, p: int) -> bool {
        &&& <TagOrCategoryHead as Codec>::spec_parse(s, p) == Some((self.spec_head(), p + 28))
        &&& self.parent_id.0 != Some(0u32)
        &&& self.offsets.offsets.spec_size() == self.subtype.spec_offset_size()
        &&& OffsetArrayContainer::<TagOrCategoryStrings, 2>::spec_parse(s, p + 28, 28, self.subtype.spec_offset_size()) == Some(
            (self.offsets.offsets.spec_offsets(), self.offsets.inner.spec_items()),
        )
    }

    /// A row of this type decodes at byte `p` of `s`.
    pub open spec fn spec_readable(s: Seq<u8>, p: int) -> bool {
        match <TagOrCategoryHead as Codec>::spec_parse(s, p) {
            Some((h, e)) => OffsetArrayContainer::<TagOrCategoryStrings, 2>::spec_parse(s, e, 28, Subtype(h.0).spec_offset_size()) is Some,
            None => false,
        }
    }

    /// `buf` after writing the row at `p`: the fixed-size fields, then the offsets and strings.
    pub open spec fn spec_write(&self, buf: Seq<u8>, p: int) -> Seq<u8> {
        self.offsets.spec_write(write_at(buf, p, <TagOrCategoryHead as Codec>::spec_bytes(self.spec_head())), p + 28, 28)
    }

    /// Number of bytes the row takes in a page heap.
    pub open spec fn spec_heap_bytes(&self) -> int {
        28 + self.offsets.spec_heap_bytes()
    }

    /// Every byte that writing the row at `p` writes has an address that a
    /// `usize` can hold.
    pub open spec fn spec_fits_memory(&self, p: int) -> bool {
        &&& p + 28 <= usize::MAX
        &&& self.offsets.spec_fits_memory(p + 28, 28)
    }

    /// The fields and strings of the row can be encoded and decode back to
    /// themselves: a parent is stored by a non-zero number.
    pub open spec fn spec_wf(&self) -> bool {
        &&& self.parent_id.0 != Some(0u32)
        &&& <TagOrCategoryHead as Codec>::spec_wf(self.spec_head())
        &&& self.offsets.spec_items_wf()
    }

    /// The strings lie after the offsets, without clashing.
    pub open spec fn spec_laid_out(&self) -> bool {
        self.offsets.spec_laid_out(28)
    }

    /// Every byte that writing the row at `p` writes lies from `lo` up to `hi`.
    pub open spec fn spec_within(&self, p: int, lo: int, hi: int) -> bool {
        &&& lo <= p
        &&& p + 28 <= hi
        &&& self.offsets.spec_within(p + 28, 28, lo, hi)
    }

    /// `s` holds the fields, offsets and strings of the row where writing it
    /// at `p` puts them.
    pub open spec fn spec_held(&self, s: Seq<u8>, p: int) -> bool {
        &&& holds_at(s, p, <TagOrCategoryHead as Codec>::spec_bytes(self.spec_head()))
        &&& self.offsets.spec_held(s, p + 28, 28)
    }

    /// After writing the row at `p`, its parts are held where they were
    /// written, where its strings lie after its offsets without clashing.
    pub proof fn lemma_write_held(&self, buf: Seq<u8>, p: int)
        requires
            0 <= p,
            self.spec_laid_out(),
        ensures
            self.spec_held(self.spec_write(buf, p), p),
    {
        let hb = <TagOrCategoryHead as Codec>::spec_bytes(self.spec_head());
        let s1 = write_at(buf, p, hb);
        lemma_write_at_holds(buf, p, hb);
        assert(hb.len() == 28);
        self.offsets.lemma_write_keeps_before(s1, p + 28, 28, p, hb);
        self.offsets.lemma_write_held(s1, p + 28, 28);
    }

    /// The parts of a well-formed row held where writing it at `p` puts them
    /// decode to the row.
    pub proof fn lemma_held_read(&self, s: Seq<u8>, p: int)
        requires
            0 <= p,
            self.spec_held(s, p),
            self.spec_wf(),
            self.offsets.offsets.spec_size() == self.subtype.spec_offset_size(),
        ensures
            self.spec_read(s, p),
    {
        lemma_parse_held::<TagOrCategoryHead>(s, p, self.spec_head());
        assert(self.offsets.inner.spec_items().len() == 2);
        self.offsets.lemma_held_parse(s, p + 28, 28);
    }

    /// Writing the row where its bytes lie from `lo2` up to `hi2` keeps the
    /// bytes of a range that does not meet that one.
    pub proof fn lemma_write_agree(&self, buf: Seq<u8>, p: int, lo2: int, hi2: int, lo: int, hi: int)
        requires
            0 <= p,
            self.spec_within(p, lo2, hi2),
            hi2 <= lo || hi <= lo2,
            0 <= lo <= hi <= buf.len(),
        ensures
            agree_on(buf, self.spec_write(buf, p), lo, hi),
            self.spec_write(buf, p).len() >= buf.len(),
    {
        let hb = <TagOrCategoryHead as Codec>::spec_bytes(self.spec_head());
        let s1 = write_at(buf, p, hb);
        assert(hb.len() == 28);
        lemma_write_at_agree(buf, p, hb, lo, hi);
        self.offsets.lemma_write_agree(s1, p + 28, 28, lo2, hi2, lo, hi);
        lemma_agree_trans(buf, s1, self.spec_write(buf, p), lo, hi);
    }

    /// The parts of the row held within a range stay held where the bytes of
    /// that range stay.
    pub proof fn lemma_held_agree(&self, s1: Seq<u8>, s2: Seq<u8>, p: int, lo: int, hi: int)
        requires
            self.spec_held(s1, p),
            self.spec_within(p, lo, hi),
            agree_on(s1, s2, lo, hi),
        ensures
            self.spec_held(s2, p),
    {
        let hb = <TagOrCategoryHead as Codec>::spec_bytes(self.spec_head());
        assert(hb.len() == 28);
        lemma_agree_holds(s1, s2, lo, hi, p, hb);
        self.offsets.lemma_held_agree(s1, s2, p + 28, 28, lo, hi);
    }

    /// Writing the row at `p` keeps the bytes held before `p`.
    pub proof fn lemma_write_keeps_before(&self, buf: Seq<u8>, p: int, r: int, c: Seq<u8>)
        requires
            holds_at(buf, r, c),
            r + c.len() <= p,
        ensures
            holds_at(self.spec_write(buf, p), r, c),
    {
        let hb = <TagOrCategoryHead as Codec>::spec_bytes(self.spec_head());
        lemma_write_at_keeps(buf, p, hb, r, c);
        self.offsets.lemma_write_keeps_before_base(write_at(buf, p, hb), p + 28, 28, r, c);
    }

    /// Decodes the row at `pos`.
    pub fn parse(data: &[u8], pos: usize) -> (r: Option<TagOrCategory>)
        requires
            pos <= data@.len(),
        ensures
            r is Some <==> Self::spec_readable(data@, pos as int),
            r matches Some(v) ==> v.spec_read(data@, pos as int),
            r matches Some(v) ==> forall|i: int| 0 <= i < v.offsets.inner.spec_items().len() ==> DeviceSQLString::spec_writable(#[trigger] v.offsets.inner.spec_items()[i]),
    {
        let ((x0, (x1, (x2, (x3, (x4, (x5, (x6, x7))))))), e) = match <TagOrCategoryHead as Codec>::parse(data, pos) {
            Some(x) => x,
            None => {
                return None;
            },
        };
        proof {
            <TagOrCategoryHead as Codec>::lemma_parse_bounds(data@, pos as int);
        }
        let subtype = Subtype(x0);
        let offsets = match OffsetArrayContainer::<TagOrCategoryStrings, 2>::parse(data, e, 28, subtype.get_offset_size()) {
            Some(c) => c,
            None => {
                return None;
            },
        };
        Some(TagOrCategory { subtype: subtype, index_shift: x1, unknown1: x2, unknown2: x3, parent_id: ParentId::from_u32(x4), position: x5, id: TagId(x6), raw_is_category: x7, offsets })
    }

    /// Writes the row at `pos` of `buf`: the fixed-size fields, then the offsets
    /// and the strings they point at. Fails where the offsets have another size
    /// than the subtype demands, or would reach beyond the addressable memory.
    pub fn write(&self, buf: &mut Vec<u8>, pos: usize) -> (r: Result<(), OffsetArrayError>)
        requires
            forall|i: int| 0 <= i < 2 ==> DeviceSQLString::spec_writable(#[trigger] self.offsets.inner.spec_items()[i]),
        ensures
            r is Ok ==> final(buf)@ == self.spec_write(old(buf)@, pos as int),
            self.offsets.offsets.spec_size() != self.subtype.spec_offset_size() ==> r == Err::<(), OffsetArrayError>(OffsetArrayError::OffsetSizeMismatch),
            self.offsets.offsets.spec_size() == self.subtype.spec_offset_size() ==> (r is Ok <==> self.spec_fits_memory(pos as int)),
            self.offsets.offsets.spec_size() == self.subtype.spec_offset_size() && !self.spec_fits_memory(pos as int) ==> r == Err::<(), OffsetArrayError>(OffsetArrayError::PositionOverflow),
    {
        let mut head: Vec<u8> = Vec::new();
        self.subtype.0.serialize(&mut head);
        self.index_shift.serialize(&mut head);
        self.unknown1.serialize(&mut head);
        self.unknown2.serialize(&mut head);
        self.parent_id.to_u32().serialize(&mut head);
        self.position.serialize(&mut head);
        self.id.0.serialize(&mut head);
        self.raw_is_category.serialize(&mut head);
        assert(head@ =~= <TagOrCategoryHead as Codec>::spec_bytes(self.spec_head()));
        if pos > usize::MAX - 28 {
            if !self.offsets.offsets.assert_offset_size_matches(self.subtype.get_offset_size()) {
                return Err(OffsetArrayError::OffsetSizeMismatch);
            }
            return Err(OffsetArrayError::PositionOverflow);
        }
        write_bytes_at(buf, pos, head.as_slice());
        self.offsets.write(buf, pos + 28, 28, self.subtype.get_offset_size())
    }

    /// Number of bytes the row takes in a page heap.
    pub fn heap_bytes_required(&self) -> (r: u16)
        requires
            self.spec_heap_bytes() <= u16::MAX,
            forall|i: int| 0 <= i < 2 ==> DeviceSQLString::spec_writable(#[trigger] self.offsets.inner.spec_items()[i]),
        ensures
            r == self.spec_heap_bytes(),
    {
        28 + self.offsets.heap_bytes_required()
    }
}


/// The fields of a `TrackTag` row in storage order.
pub type TrackTagFields = (Magic32<0>, (u32, (u32, u32)));

/// A link between a tag and a track (the tag-track junction table).
#[derive(Debug, PartialEq, Eq, Clone)]
pub struct TrackTag {
    /// ID of the tagged track.
    pub track_id: TrackId,
    /// ID of the tag.
    pub tag_id: TagId,
    /// Unknown field, apparently always 3.
    pub unknown_const: u32,
}

impl View for TrackTag {
    type V = ((), (u32, (u32, u32)));

    open spec fn view(&self) -> ((), (u32, (u32, u32))) {
        ((), (self.track_id.0, (self.tag_id.0, self.unknown_const)))
    }
}

impl Codec for TrackTag {
    open spec fn spec_bytes(v: ((), (u32, (u32, u32)))) -> Seq<u8> {
        <TrackTagFields as Codec>::spec_bytes(v)
    }

    open spec fn spec_parse(s: Seq<u8>, p: int) -> Option<(((), (u32, (u32, u32))), int)> {
        <TrackTagFields as Codec>::spec_parse(s, p)
    }

    open spec fn spec_wf(v: ((), (u32, (u32, u32)))) -> bool {
        <TrackTagFields as Codec>::spec_wf(v)
    }

    open spec fn spec_writable(v: ((), (u32, (u32, u32)))) -> bool {
        <TrackTagFields as Codec>::spec_writable(v)
    }

    proof fn lemma_parse_bounds(s: Seq<u8>, p: int) {
        <TrackTagFields as Codec>::lemma_parse_bounds(s, p);
    }

    proof fn lemma_parse_writable(s: Seq<u8>, p: int) {
        <TrackTagFields as Codec>::lemma_parse_writable(s, p);
    }

    proof fn lemma_roundtrip(v: ((), (u32, (u32, u32))), pre: Seq<u8>, post: Seq<u8>) {
        <TrackTagFields as Codec>::lemma_roundtrip(v, pre, post);
    }

    fn parse(data: &[u8], pos: usize) -> (r: Option<(TrackTag, usize)>) {
        match <TrackTagFields as Codec>::parse(data, pos) {
            Some(((_, (x1, (x2, x3))), e)) => Some((TrackTag { track_id: TrackId(x1), tag_id: TagId(x2), unknown_const: x3 }, e)),
            None => None,
        }
    }

    fn byte_len(&self) -> (r: usize) {
        4 + (self.track_id.0.byte_len() + (self.tag_id.0.byte_len() + (self.unknown_const.byte_len())))
    }

    fn serialize(&self, out: &mut Vec<u8>) {
        Magic32::<0>.serialize(out);
        self.track_id.0.serialize(out);
        self.tag_id.0.serialize(out);
        self.unknown_const.serialize(out);
        assert(final(out)@ =~= old(out)@ + Self::spec_bytes(self@));
    }
}


/// A row of an extended database (`exportExt.pdb`).
#[derive(Debug, PartialEq, Eq, Clone)]
pub enum ExtRow {
    /// A tag or a category of tags.
    Tag(TagOrCategory),
    /// A link between a tag and a track.
    TrackTag(TrackTag),
}

impl ExtRow {
    /// The page type whose pages hold rows of this kind.
    pub open spec fn spec_page_type(&self) -> ExtPageType {
        match self {
            ExtRow::Tag(_) => ExtPageType::Tag,
            ExtRow::TrackTag(_) => ExtPageType::TrackTag,
        }
    }

    /// `self` is the row decoded at byte `p` of `s`.
    pub open spec fn spec_read(&self, s: Seq<u8>, p: int) -> bool {
        match self {
            ExtRow::Tag(r) => r.spec_read(s, p),
            ExtRow::TrackTag(r) => codec_read::<TrackTag>(r@, s, p),
        }
    }

    /// A row of the kind that pages of type `t` hold decodes at byte `p` of `s`.
    pub open spec fn spec_readable(s: Seq<u8>, p: int, t: ExtPageType) -> bool {
        match t {
            ExtPageType::Tag => TagOrCategory::spec_readable(s, p),
            ExtPageType::TrackTag => TrackTag::spec_parse(s, p) is Some,
        }
    }

    /// The row can be written: its strings fit their length fields.
    pub open spec fn spec_writable(&self) -> bool {
        match self {
            ExtRow::Tag(r) => forall|i: int| 0 <= i < 2 ==> DeviceSQLString::spec_writable(#[trigger] r.offsets.inner.spec_items()[i]),
            ExtRow::TrackTag(r) => TrackTag::spec_writable(r@),
        }
    }

    /// The fields and strings of the row can be encoded and decode back to
    /// themselves.
    pub open spec fn spec_wf(&self) -> bool {
        match self {
            ExtRow::Tag(r) => r.spec_wf(),
            ExtRow::TrackTag(r) => TrackTag::spec_wf(r@),
        }
    }

    /// The strings of a tag row lie after its offsets without clashing; track
    /// tag rows have no offsets.
    pub open spec fn spec_laid_out(&self) -> bool {
        match self {
            ExtRow::Tag(r) => r.spec_laid_out(),
            ExtRow::TrackTag(_) => true,
        }
    }

    /// Every byte that writing the row at `p` writes lies from `lo` up to `hi`.
    pub open spec fn spec_within(&self, p: int, lo: int, hi: int) -> bool {
        match self {
            ExtRow::Tag(r) => r.spec_within(p, lo, hi),
            ExtRow::TrackTag(r) => lo <= p && p + TrackTag::spec_bytes(r@).len() <= hi,
        }
    }

    /// `s` holds the parts of the row where writing it at `p` puts them.
    pub open spec fn spec_held(&self, s: Seq<u8>, p: int) -> bool {
        match self {
            ExtRow::Tag(r) => r.spec_held(s, p),
            ExtRow::TrackTag(r) => holds_at(s, p, TrackTag::spec_bytes(r@)),
        }
    }

    /// After writing the row at `p`, its parts are held where they were
    /// written, where its strings lie after its offsets without clashing.
    pub proof fn lemma_write_held(&self, buf: Seq<u8>, p: int)
        requires
            0 <= p,
            self.spec_laid_out(),
        ensures
            self.spec_held(self.spec_write(buf, p), p),
    {
        match self {
            ExtRow::Tag(r) => r.lemma_write_held(buf, p),
            ExtRow::TrackTag(r) => lemma_write_at_holds(buf, p, TrackTag::spec_bytes(r@)),
        }
    }

    /// The parts of a well-formed row held where writing it at `p` puts them
    /// decode to the row.
    pub proof fn lemma_held_read(&self, s: Seq<u8>, p: int)
        requires
            0 <= p,
            self.spec_held(s, p),
            self.spec_wf(),
            self.spec_offsets_match(),
        ensures
            self.spec_read(s, p),
    {
        match self {
            ExtRow::Tag(r) => r.lemma_held_read(s, p),
            ExtRow::TrackTag(r) => lemma_parse_held::<TrackTag>(s, p, r@),
        }
    }

    /// Writing the row where its bytes lie from `lo2` up to `hi2` keeps the
    /// bytes of a range that does not meet that one.
    pub proof fn lemma_write_agree(&self, buf: Seq<u8>, p: int, lo2: int, hi2: int, lo: int, hi: int)
        requires
            0 <= p,
            self.spec_within(p, lo2, hi2),
            hi2 <= lo || hi <= lo2,
            0 <= lo <= hi <= buf.len(),
        ensures
            agree_on(buf, self.spec_write(buf, p), lo, hi),
            self.spec_write(buf, p).len() >= buf.len(),
    {
        match self {
            ExtRow::Tag(r) => r.lemma_write_agree(buf, p, lo2, hi2, lo, hi),
            ExtRow::TrackTag(r) => lemma_write_at_agree(buf, p, TrackTag::spec_bytes(r@), lo, hi),
        }
    }

    /// The parts of the row held within a range stay held where the bytes of
    /// that range stay.
    pub proof fn lemma_held_agree(&self, s1: Seq<u8>, s2: Seq<u8>, p: int, lo: int, hi: int)
        requires
            self.spec_held(s1, p),
            self.spec_within(p, lo, hi),
            agree_on(s1, s2, lo, hi),
        ensures
            self.spec_held(s2, p),
    {
        match self {
            ExtRow::Tag(r) => r.lemma_held_agree(s1, s2, p, lo, hi),
            ExtRow::TrackTag(r) => lemma_agree_holds(s1, s2, lo, hi, p, TrackTag::spec_bytes(r@)),
        }
    }

    /// Writing the row at `p` keeps the bytes held before `p`.
    pub proof fn lemma_write_keeps_before(&self, buf: Seq<u8>, p: int, q: int, c: Seq<u8>)
        requires
            holds_at(buf, q, c),
            q + c.len() <= p,
        ensures
            holds_at(self.spec_write(buf, p), q, c),
    {
        match self {
            ExtRow::Tag(r) => r.lemma_write_keeps_before(buf, p, q, c),
            ExtRow::TrackTag(r) => lemma_write_at_keeps(buf, p, TrackTag::spec_bytes(r@), q, c),
        }
    }

    /// Every byte that writing the row at `p` writes has an address that a
    /// `usize` can hold.
    pub open spec fn spec_fits_memory(&self, p: int) -> bool {
        match self {
            ExtRow::Tag(r) => r.spec_fits_memory(p),
            ExtRow::TrackTag(r) => p + TrackTag::spec_bytes(r@).len() <= usize::MAX,
        }
    }

    /// The offsets of the row have the size that its subtype demands.
    pub open spec fn spec_offsets_match(&self) -> bool {
        match self {
            ExtRow::Tag(r) => r.offsets.offsets.spec_size() == r.subtype.spec_offset_size(),
            _ => true,
        }
    }

    /// `buf` after writing the row at `p`.
    pub open spec fn spec_write(&self, buf: Seq<u8>, p: int) -> Seq<u8> {
        match self {
            ExtRow::Tag(r) => r.spec_write(buf, p),
            ExtRow::TrackTag(r) => codec_write::<TrackTag>(r@, buf, p),
        }
    }

    /// Number of bytes the row takes in a page heap.
    pub open spec fn spec_heap_bytes(&self) -> int {
        match self {
            ExtRow::Tag(r) => r.spec_heap_bytes(),
            ExtRow::TrackTag(r) => TrackTag::spec_bytes(r@).len() as int,
        }
    }

    /// The page type whose pages hold rows of this kind.
    pub fn page_type(&self) -> (r: ExtPageType)
        ensures
            r == self.spec_page_type(),
    {
        match self {
            ExtRow::Tag(_) => ExtPageType::Tag,
            ExtRow::TrackTag(_) => ExtPageType::TrackTag,
        }
    }

    /// Decodes a row of the kind that pages of type `t` hold, at `pos`.
    pub fn parse(data: &[u8], pos: usize, t: ExtPageType) -> (r: Option<ExtRow>)
        requires
            pos <= data@.len(),
        ensures
            r is Some <==> Self::spec_readable(data@, pos as int, t),
            r matches Some(v) ==> v.spec_read(data@, pos as int) && v.spec_page_type() == t && v.spec_writable(),
    {
        match t {
            ExtPageType::Tag => match TagOrCategory::parse(data, pos) {
                Some(r) => Some(ExtRow::Tag(r)),
                None => None,
            },
            ExtPageType::TrackTag => match read_value::<TrackTag>(data, pos) {
                Some(r) => Some(ExtRow::TrackTag(r)),
                None => None,
            },
        }
    }

    /// Writes the row at `pos` of `buf`. Fails where the offsets of the row have
    /// another size than its subtype demands, or where the row would reach
    /// beyond the addressable memory.
    pub fn write(&self, buf: &mut Vec<u8>, pos: usize) -> (r: Result<(), OffsetArrayError>)
        requires
            self.spec_writable(),
        ensures
            r is Ok ==> final(buf)@ == self.spec_write(old(buf)@, pos as int),
            !self.spec_offsets_match() ==> r == Err::<(), OffsetArrayError>(OffsetArrayError::OffsetSizeMismatch),
            self.spec_offsets_match() ==> (r is Ok <==> self.spec_fits_memory(pos as int)),
            self.spec_offsets_match() && !self.spec_fits_memory(pos as int) ==> r == Err::<(), OffsetArrayError>(OffsetArrayError::PositionOverflow),
    {
        match self {
            ExtRow::Tag(r) => r.write(buf, pos),
            ExtRow::TrackTag(r) => write_value(r, buf, pos),
        }
    }

    /// Number of bytes the row takes in a page heap.
    pub fn heap_bytes_required(&self) -> (r: u16)
        requires
            self.spec_writable(),
            self.spec_heap_bytes() <= u16::MAX,
        ensures
            r == self.spec_heap_bytes(),
    {
        match self {
            ExtRow::Tag(r) => r.heap_bytes_required(),
            ExtRow::TrackTag(r) => r.byte_len() as u16,
        }
    }
}


/// The codes of the page types of an extended database: tags 3 and track
/// tags 4; no other code names one, and each reads back from its code.
pub proof fn lemma_ext_page_type_codes()
    ensures
        ExtPageType::Tag.spec_to_u32() == 3,
        ExtPageType::TrackTag.spec_to_u32() == 4,
        forall|v: u32| #[trigger] ExtPageType::spec_from_u32(v) is None <==> !(v == 3 || v == 4),
        forall|v: u32| #[trigger] ExtPageType::spec_from_u32(v) matches Some(t) ==> t.spec_to_u32() == v,
        forall|t: ExtPageType| #[trigger] ExtPageType::spec_from_u32(t.spec_to_u32()) == Some(t),
{
}

} // verus!
