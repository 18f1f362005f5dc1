//! Parser and writer for Pioneer DeviceSQL database exports (PDB).
//!
//! A PDB file is a header followed by fixed-size pages. Tables are linked
//! lists of pages holding rows of one type; each data page keeps its rows in a
//! heap and locates them through row groups stored backwards from the page end.

pub mod bitfields;
pub mod defaults;
pub mod ext;
pub mod heap;
pub mod io;
pub mod offset_array;
pub mod page;
pub mod rows;
pub mod string;

pub use bitfields::{PackedRowCounts, PageFlags};
pub use ext::{ExtPageType, ExtRow, ParentId, TagId, TagOrCategory, TagOrCategoryStrings, TrackTag};
pub use offset_array::{OffsetArray, OffsetArrayContainer, OffsetArrayItems, OffsetSize};
pub use page::{
    DataPageContent, DataPageHeader, IndexPageContent, IndexPageHeader, Page, PageContent,
    PageError, PageHeader, RowSlot,
};
pub use rows::{
    Album, Artist, Artwork, Color, ColumnEntry, Genre, History, HistoryEntry, HistoryPlaylist, Key,
    Label, Menu, MenuVisibility, PlainRow, PlaylistEntry, PlaylistTreeNode, Row, RowVariant, Track,
    TrackStrings, TrailingName,
};
pub use string::{DeviceSQLString, StringError};

use crate::codec::{
    bytes16, bytes32, le16, le32, lemma_le16_bytes16, lemma_le16_sub, lemma_le32_bytes32,
    lemma_le32_sub, push_u16, push_u32, read_u16, read_u32,
};
use crate::util::TableIndex;
use vstd::prelude::*;

verus! {

/// An error in the values handed to a constructor of the PDB format.
#[derive(Debug, PartialEq, Eq, Clone, Copy, Structural)]
pub enum PdbError {
    /// An invalid value was passed when creating a `PageIndex`.
    InvalidPageIndex(u32),
    /// Invalid flags were passed when creating an `IndexEntry`.
    InvalidIndexFlags(u8),
}

/// The kind of database: it decides how the page types in tables are read.
#[derive(Debug, PartialEq, Eq, Clone, Copy, Structural)]
pub enum DatabaseType {
    /// Standard `export.pdb` files.
    Plain,
    /// Extended `exportExt.pdb` files.
    Ext,
}

impl Default for DatabaseType {
    fn default() -> (r: DatabaseType)
        ensures
            r == DatabaseType::Plain,
    {
        DatabaseType::Plain
    }
}

/// The type of pages found inside a `Table` of an `export.pdb` file.
#[derive(Debug, PartialEq, Eq, Clone, Copy, Structural)]
pub enum PlainPageType {
    /// Track metadata.
    Tracks,
    /// Musical genres.
    Genres,
    /// Artists.
    Artists,
    /// Albums.
    Albums,
    /// Music labels.
    Labels,
    /// Musical keys.
    Keys,
    /// Color labels.
    Colors,
    /// The tree of playlists and folders.
    PlaylistTree,
    /// Links from playlists to tracks, in order.
    PlaylistEntries,
    /// History playlists, recorded each time a player mounts the device.
    HistoryPlaylists,
    /// Links from history playlists to tracks, in order.
    HistoryEntries,
    /// Album artwork paths.
    Artwork,
    /// Metadata categories that tracks can be browsed by.
    Columns,
    /// The menus of the player.
    Menu,
    /// Synchronization log. It is written as type 19, but a stored type 19
    /// is read as an unknown page type, so tables and pages of this type do
    /// not read back as it.
    History,
}

impl PlainPageType {
    /// The page type stored as `v`, if `v` names one that reads back (all but
    /// `History`).
    pub open spec fn spec_from_u32(v: u32) -> Option<PlainPageType> {
        if v == 0 {
            Some(PlainPageType::Tracks)
        } else if v == 1 {
            Some(PlainPageType::Genres)
        } else if v == 2 {
            Some(PlainPageType::Artists)
        } else if v == 3 {
            Some(PlainPageType::Albums)
        } else if v == 4 {
            Some(PlainPageType::Labels)
        } else if v == 5 {
            Some(PlainPageType::Keys)
        } else if v == 6 {
            Some(PlainPageType::Colors)
        } else if v == 7 {
            Some(PlainPageType::PlaylistTree)
        } else if v == 8 {
            Some(PlainPageType::PlaylistEntries)
        } else if v == 11 {
            Some(PlainPageType::HistoryPlaylists)
        } else if v == 12 {
            Some(PlainPageType::HistoryEntries)
        } else if v == 13 {
            Some(PlainPageType::Artwork)
        } else if v == 16 {
            Some(PlainPageType::Columns)
        } else if v == 17 {
            Some(PlainPageType::Menu)
        } else {
            None
        }
    }

    /// The number that stores the page type.
    pub open spec fn spec_to_u32(self) -> u32 {
        match self {
            PlainPageType::Tracks => 0,
            PlainPageType::Genres => 1,
            PlainPageType::Artists => 2,
            PlainPageType::Albums => 3,
            PlainPageType::Labels => 4,
            PlainPageType::Keys => 5,
            PlainPageType::Colors => 6,
            PlainPageType::PlaylistTree => 7,
            PlainPageType::PlaylistEntries => 8,
            PlainPageType::HistoryPlaylists => 11,
            PlainPageType::HistoryEntries => 12,
            PlainPageType::Artwork => 13,
            PlainPageType::Columns => 16,
            PlainPageType::Menu => 17,
            PlainPageType::History => 19,
        }
    }

    /// The page type stored as `v`, if `v` names one.
    pub fn from_u32(v: u32) -> (r: Option<PlainPageType>)
        ensures
            r == Self::spec_from_u32(v),
    {
        match v {
            0 => Some(PlainPageType::Tracks),
            1 => Some(PlainPageType::Genres),
            2 => Some(PlainPageType::Artists),
            3 => Some(PlainPageType::Albums),
            4 => Some(PlainPageType::Labels),
            5 => Some(PlainPageType::Keys),
            6 => Some(PlainPageType::Colors),
            7 => Some(PlainPageType::PlaylistTree),
            8 => Some(PlainPageType::PlaylistEntries),
            11 => Some(PlainPageType::HistoryPlaylists),
            12 => Some(PlainPageType::HistoryEntries),
            13 => Some(PlainPageType::Artwork),
            16 => Some(PlainPageType::Columns),
            17 => Some(PlainPageType::Menu),
            _ => None,
        }
    }

    /// The number that stores the page type.
    pub fn to_u32(&self) -> (r: u32)
        ensures
            r == self.spec_to_u32(),
    {
        match self {
            PlainPageType::Tracks => 0,
            PlainPageType::Genres => 1,
            PlainPageType::Artists => 2,
            PlainPageType::Albums => 3,
            PlainPageType::Labels => 4,
            PlainPageType::Keys => 5,
            PlainPageType::Colors => 6,
            PlainPageType::PlaylistTree => 7,
            PlainPageType::PlaylistEntries => 8,
            PlainPageType::HistoryPlaylists => 11,
            PlainPageType::HistoryEntries => 12,
            PlainPageType::Artwork => 13,
            PlainPageType::Columns => 16,
            PlainPageType::Menu => 17,
            PlainPageType::History => 19,
        }
    }
}

/// The type of pages found inside a `Table`.
#[derive(Debug, PartialEq, Eq, Clone, Copy, Structural)]
pub enum PageType {
    /// Page types of `export.pdb` files.
    Plain(PlainPageType),
    /// Page types of `exportExt.pdb` files.
    Ext(ExtPageType),
    /// A page type that the database kind does not know.
    Unknown(u32),
}

impl PageType {
    /// The page type stored as `v` in a database of kind `db_type`: a known type
    /// of that kind where `v` names one, `Unknown(v)` otherwise.
    pub open spec fn spec_from_u32(v: u32, db_type: DatabaseType) -> PageType {
        match db_type {
            DatabaseType::Plain => match PlainPageType::spec_from_u32(v) {
                Some(t) => PageType::Plain(t),
                None => PageType::Unknown(v),
            },
            DatabaseType::Ext => match ExtPageType::spec_from_u32(v) {
                Some(t) => PageType::Ext(t),
                None => PageType::Unknown(v),
            },
        }
    }

    /// The number that stores the page type.
    pub open spec fn spec_to_u32(self) -> u32 {
        match self {
            PageType::Plain(t) => t.spec_to_u32(),
            PageType::Ext(t) => t.spec_to_u32(),
            PageType::Unknown(v) => v,
        }
    }

    /// The page type reads back as itself in a database of kind `db_type`.
    pub open spec fn spec_wf(self, db_type: DatabaseType) -> bool {
        Self::spec_from_u32(self.spec_to_u32(), db_type) == self
    }

    /// The page type stored as `v` in a database of kind `db_type`.
    pub fn from_u32(v: u32, db_type: DatabaseType) -> (r: PageType)
        ensures
            r == Self::spec_from_u32(v, db_type),
    {
        match db_type {
            DatabaseType::Plain => match PlainPageType::from_u32(v) {
                Some(t) => PageType::Plain(t),
                None => PageType::Unknown(v),
            },
            DatabaseType::Ext => match ExtPageType::from_u32(v) {
                Some(t) => PageType::Ext(t),
                None => PageType::Unknown(v),
            },
        }
    }

    /// Whether the page type is one that the database kind knows.
    pub fn is_known(&self) -> (r: bool)
        ensures
            r == !(self is Unknown),
    {
        !matches!(self, PageType::Unknown(_))
    }

    /// The number that stores the page type.
    pub fn to_u32(&self) -> (r: u32)
        ensures
            r == self.spec_to_u32(),
    {
        match self {
            PageType::Plain(t) => t.to_u32(),
            PageType::Ext(t) => t.to_u32(),
            PageType::Unknown(v) => *v,
        }
    }
}

/// Points to a table page; multiplied with the page size it gives the page's file offset.
#[derive(Clone, Copy, Debug, PartialEq, Eq, Structural)]
pub struct PageIndex(pub u32);

/// The largest value (exclusive) that a `PageIndex` may be created from.
pub const PAGE_INDEX_LIMIT: u32 = 0x03FF_FFFF;

impl TryFrom<u32> for PageIndex {
    type Error = PdbError;

    fn try_from(value: u32) -> (r: Result<PageIndex, PdbError>) {
        if value < PAGE_INDEX_LIMIT {
            Ok(PageIndex(value))
        } else {
            Err(PdbError::InvalidPageIndex(value))
        }
    }
}

impl vstd::std_specs::convert::TryFromSpecImpl<u32> for PageIndex {
    open spec fn obeys_try_from_spec() -> bool {
        true
    }

    open spec fn try_from_spec(value: u32) -> Result<PageIndex, PdbError> {
        if value < PAGE_INDEX_LIMIT {
            Ok(PageIndex(value))
        } else {
            Err(PdbError::InvalidPageIndex(value))
        }
    }
}

impl PageIndex {
    /// The absolute file offset of the page for the given `page_size`.
    pub fn offset(&self, page_size: u32) -> (r: u64)
        ensures
            r == self.0 * page_size,
    {
        assert(self.0 * page_size <= u32::MAX * u32::MAX) by (nonlinear_arith);
        (self.0 as u64) * (page_size as u64)
    }
}


/// Tables are linked lists of pages holding rows of a single type.
#[derive(Debug, PartialEq, Eq, Clone, Copy, Structural)]
pub struct Table {
    /// The type of rows that this table contains.
    pub page_type: PageType,
    /// Unknown field; possibly a page that may be reused for this table.
    pub empty_candidate: u32,
    /// Index of the first page of this table.
    pub first_page: PageIndex,
    /// Index of the last page of this table.
    pub last_page: PageIndex,
}

/// Size of an encoded `Table` in bytes.
pub const TABLE_SIZE: usize = 16;

impl Table {
    /// The 16 bytes that encode the table.
    pub open spec fn spec_bytes(self) -> Seq<u8> {
        bytes32(self.page_type.spec_to_u32()) + bytes32(self.empty_candidate) + bytes32(
            self.first_page.0,
        ) + bytes32(self.last_page.0)
    }

    /// The table encoded at byte `p` of `s` in a database of kind `db_type`.
    pub open spec fn spec_parse(s: Seq<u8>, p: int, db_type: DatabaseType) -> Option<Table> {
        if 0 <= p && p + 16 <= s.len() {
            Some(
                Table {
                    page_type: PageType::spec_from_u32(le32(s, p), db_type),
                    empty_candidate: le32(s, p + 4),
                    first_page: PageIndex(le32(s, p + 8)),
                    last_page: PageIndex(le32(s, p + 12)),
                },
            )
        } else {
            None
        }
    }

    /// Decodes the table at `pos`.
    pub fn parse(data: &[u8], pos: usize, db_type: DatabaseType) -> (r: Option<Table>)
        requires
            pos <= data@.len(),
        ensures
            r == Self::spec_parse(data@, pos as int, db_type),
    {
        if data.len() - pos < 16 {
            return None;
        }
        Some(
            Table {
                page_type: PageType::from_u32(read_u32(data, pos), db_type),
                empty_candidate: read_u32(data, pos + 4),
                first_page: PageIndex(read_u32(data, pos + 8)),
                last_page: PageIndex(read_u32(data, pos + 12)),
            },
        )
    }

    /// Appends the encoding of the table.
    pub fn serialize(&self, out: &mut Vec<u8>)
        ensures
            final(out)@ == old(out)@ + self.spec_bytes(),
    {
        push_u32(out, self.page_type.to_u32());
        push_u32(out, self.empty_candidate);
        push_u32(out, self.first_page.0);
        push_u32(out, self.last_page.0);
        assert(final(out)@ =~= old(out)@ + self.spec_bytes());
    }

    /// Decoding the encoding of a table, wherever it stands, gives the table back.
    pub proof fn lemma_roundtrip(self, db_type: DatabaseType, pre: Seq<u8>, post: Seq<u8>)
        requires
            self.page_type.spec_wf(db_type),
        ensures
            Self::spec_parse(pre + self.spec_bytes() + post, pre.len() as int, db_type) == Some(
                self,
            ),
    {
        let b0 = bytes32(self.page_type.spec_to_u32());
        let b1 = bytes32(self.empty_candidate);
        let b2 = bytes32(self.first_page.0);
        let b3 = bytes32(self.last_page.0);
        let s = pre + self.spec_bytes() + post;
        assert(s =~= pre + b0 + (b1 + b2 + b3 + post));
        lemma_le32_bytes32(pre, self.page_type.spec_to_u32(), b1 + b2 + b3 + post);
        assert(s =~= (pre + b0) + b1 + (b2 + b3 + post));
        lemma_le32_bytes32(pre + b0, self.empty_candidate, b2 + b3 + post);
        assert(s =~= (pre + b0 + b1) + b2 + (b3 + post));
        lemma_le32_bytes32(pre + b0 + b1, self.first_page.0, b3 + post);
        assert(s =~= (pre + b0 + b1 + b2) + b3 + post);
        lemma_le32_bytes32(pre + b0 + b1 + b2, self.last_page.0, post);
    }
}

/// The bytes that encode a list of tables, one after the other.
pub open spec fn tables_bytes(tables: Seq<Table>) -> Seq<u8>
    decreases tables.len(),
{
    if tables.len() == 0 {
        Seq::empty()
    } else {
        tables_bytes(tables.drop_last()) + tables.last().spec_bytes()
    }
}

/// The `n` tables encoded one after the other from byte `p` of `s`.
pub open spec fn tables_at(s: Seq<u8>, p: int, n: nat, db_type: DatabaseType) -> Option<
    Seq<Table>,
>
    decreases n,
{
    if n == 0 {
        Some(Seq::empty())
    } else {
        match tables_at(s, p, (n - 1) as nat, db_type) {
            Some(ts) => match Table::spec_parse(s, p + 16 * (n - 1), db_type) {
                Some(t) => Some(ts.push(t)),
                None => None,
            },
            None => None,
        }
    }
}

/// `tables_at` succeeds exactly where the `n` tables lie within `s`.
pub proof fn lemma_tables_at_len(s: Seq<u8>, p: int, n: nat, db_type: DatabaseType)
    requires
        0 <= p,
    ensures
        tables_at(s, p, n, db_type) is Some <==> (n == 0 || p + 16 * n <= s.len()),
        tables_at(s, p, n, db_type) matches Some(ts) ==> ts.len() == n,
    decreases n,
{
    if n > 0 {
        lemma_tables_at_len(s, p, (n - 1) as nat, db_type);
    }
}

/// The encoding of `n` tables has `16 * n` bytes.
pub proof fn lemma_tables_bytes_len(tables: Seq<Table>)
    ensures
        tables_bytes(tables).len() == 16 * tables.len(),
    decreases tables.len(),
{
    if tables.len() > 0 {
        lemma_tables_bytes_len(tables.drop_last());
    }
}

/// Decoding the encoding of tables, wherever it stands, gives the tables back.
pub proof fn lemma_tables_roundtrip(
    tables: Seq<Table>,
    db_type: DatabaseType,
    pre: Seq<u8>,
    post: Seq<u8>,
)
    requires
        forall|i: int| 0 <= i < tables.len() ==> (#[trigger] tables[i]).page_type.spec_wf(db_type),
    ensures
        tables_at(pre + tables_bytes(tables) + post, pre.len() as int, tables.len(), db_type)
            == Some(tables),
    decreases tables.len(),
{
    if tables.len() > 0 {
        let init = tables.drop_last();
        let t = tables.last();
        lemma_tables_bytes_len(init);
        assert(pre + tables_bytes(tables) + post =~= pre + tables_bytes(init) + (t.spec_bytes()
            + post));
        lemma_tables_roundtrip(init, db_type, pre, t.spec_bytes() + post);
        assert(pre + tables_bytes(tables) + post =~= (pre + tables_bytes(init)) + t.spec_bytes()
            + post);
        assert(tables[tables.len() - 1].page_type.spec_wf(db_type));
        t.lemma_roundtrip(db_type, pre + tables_bytes(init), post);
        assert(init.push(t) =~= tables);
    } else {
        assert(tables =~= Seq::<Table>::empty());
    }
}

/// The PDB file header, including the list of tables.
#[derive(Debug, PartialEq, Eq, Clone)]
pub struct Header {
    /// Size of a single page in bytes.
    pub page_size: u32,
    /// Number of tables.
    pub num_tables: u32,
    /// The first page index that no page uses yet.
    pub next_unused_page: PageIndex,
    /// Unknown field.
    pub unknown: u32,
    /// Incremented by at least one on every change.
    pub sequence: u32,
    /// Each table is a linked list of pages holding rows of a particular type.
    pub tables: Vec<Table>,
}

/// The fields of a `Header`, with the tables as a sequence.
pub struct HeaderModel {
    /// Size of a single page in bytes.
    pub page_size: u32,
    /// Number of tables.
    pub num_tables: u32,
    /// The first page index that no page uses yet.
    pub next_unused_page: PageIndex,
    /// Unknown field.
    pub unknown: u32,
    /// Sequence number.
    pub sequence: u32,
    /// The tables.
    pub tables: Seq<Table>,
}

impl View for Header {
    type V = HeaderModel;

    open spec fn view(&self) -> HeaderModel {
        HeaderModel {
            page_size: self.page_size,
            num_tables: self.num_tables,
            next_unused_page: self.next_unused_page,
            unknown: self.unknown,
            sequence: self.sequence,
            tables: self.tables@,
        }
    }
}

/// Size of the fixed part of an encoded header in bytes.
pub const HEADER_FIXED_SIZE: usize = 28;

impl HeaderModel {
    /// The bytes that encode the header.
    pub open spec fn spec_bytes(self) -> Seq<u8> {
        bytes32(0) + bytes32(self.page_size) + bytes32(self.num_tables) + bytes32(
            self.next_unused_page.0,
        ) + bytes32(self.unknown) + bytes32(self.sequence) + bytes32(0) + tables_bytes(
            self.tables,
        )
    }

    /// The header can be encoded and decodes back to itself: the table count
    /// matches the tables and every page type reads back as itself.
    pub open spec fn spec_wf(self, db_type: DatabaseType) -> bool {
        &&& self.num_tables == self.tables.len()
        &&& forall|i: int|
            0 <= i < self.tables.len() ==> (#[trigger] self.tables[i]).page_type.spec_wf(db_type)
    }

    /// The header encoded at byte `p` of `s`, with the position after it.
    pub open spec fn spec_parse(s: Seq<u8>, p: int, db_type: DatabaseType) -> Option<
        (HeaderModel, int),
    > {
        if 0 <= p && p + 28 <= s.len() && le32(s, p) == 0 && le32(s, p + 24) == 0 {
            let n = le32(s, p + 8);
            match tables_at(s, p + 28, n as nat, db_type) {
                Some(tables) => Some(
                    (
                        HeaderModel {
                            page_size: le32(s, p + 4),
                            num_tables: n,
                            next_unused_page: PageIndex(le32(s, p + 12)),
                            unknown: le32(s, p + 16),
                            sequence: le32(s, p + 20),
                            tables,
                        },
                        p + 28 + 16 * n,
                    ),
                ),
                None => None,
            }
        } else {
            None
        }
    }
}

impl Header {
    /// Decodes the header at `pos`: two zero magic words around five fields,
    /// then `num_tables` tables.
    pub fn parse(data: &[u8], pos: usize, db_type: DatabaseType) -> (r: Option<(Header, usize)>)
        requires
            pos <= data@.len(),
        ensures
            r is Some <==> HeaderModel::spec_parse(data@, pos as int, db_type) is Some,
            r matches Some((h, e)) ==> HeaderModel::spec_parse(data@, pos as int, db_type) == Some(
                (h@, e as int),
            ),
    {
        if data.len() - pos < 28 {
            return None;
        }
        if read_u32(data, pos) != 0 || read_u32(data, pos + 24) != 0 {
            return None;
        }
        let n = read_u32(data, pos + 8);
        let start = pos + 28;
        proof {
            lemma_tables_at_len(data@, start as int, n as nat, db_type);
        }
        if n as u64 > 0 && (n as u64) * 16 > (data.len() - start) as u64 {
            return None;
        }
        let mut tables: Vec<Table> = Vec::new();
        let mut i: u32 = 0;
        while i < n
            invariant
                i <= n,
                n == 0 || start + 16 * n <= data.len(),
                start == pos + 28,
                pos + 28 <= data@.len(),
                tables_at(data@, start as int, i as nat, db_type) == Some(tables@),
            decreases n - i,
        {
            let t = Table::parse(data, start + 16 * (i as usize), db_type);
            match t {
                Some(t) => {
                    tables.push(t);
                },
                None => {
                    return None;
                },
            }
            i = i + 1;
        }
        let h = Header {
            page_size: read_u32(data, pos + 4),
            num_tables: n,
            next_unused_page: PageIndex(read_u32(data, pos + 12)),
            unknown: read_u32(data, pos + 16),
            sequence: read_u32(data, pos + 20),
            tables,
        };
        Some((h, start + 16 * (n as usize)))
    }

    /// Appends the encoding of the header.
    pub fn serialize(&self, out: &mut Vec<u8>)
        ensures
            final(out)@ == old(out)@ + self@.spec_bytes(),
    {
        push_u32(out, 0);
        push_u32(out, self.page_size);
        push_u32(out, self.num_tables);
        push_u32(out, self.next_unused_page.0);
        push_u32(out, self.unknown);
        push_u32(out, self.sequence);
        push_u32(out, 0);
        let ghost fixed = out@;
        let mut i: usize = 0;
        while i < self.tables.len()
            invariant
                i <= self.tables@.len(),
                out@ == fixed + tables_bytes(self.tables@.take(i as int)),
            decreases self.tables@.len() - i,
        {
            self.tables[i].serialize(out);
            proof {
                assert(self.tables@.take(i + 1).drop_last() =~= self.tables@.take(i as int));
            }
            i = i + 1;
        }
        assert(self.tables@.take(self.tables@.len() as int) =~= self.tables@);
        assert(final(out)@ =~= old(out)@ + self@.spec_bytes());
    }

    /// Finds the first table with the given page type, with its position.
    pub fn find_table(&self, page_type: PageType) -> (r: Option<(TableIndex, &Table)>)
        ensures
            r matches Some((i, t)) ==> {
                &&& i.0 < self.tables@.len()
                &&& *t == self.tables@[i.0 as int]
                &&& t.page_type == page_type
                &&& forall|j: int| 0 <= j < i.0 ==> self.tables@[j].page_type != page_type
            },
            r is None ==> forall|j: int|
                0 <= j < self.tables@.len() ==> self.tables@[j].page_type != page_type,
    {
        let mut i: usize = 0;
        while i < self.tables.len()
            invariant
                i <= self.tables@.len(),
                forall|j: int| 0 <= j < i ==> self.tables@[j].page_type != page_type,
            decreases self.tables@.len() - i,
        {
            if self.tables[i].page_type == page_type {
                return Some((TableIndex(i), &self.tables[i]));
            }
            i = i + 1;
        }
        None
    }
}

impl Header {
    /// The first table of the given page type, with its position, for changing it.
    pub fn find_table_mut(&mut self, page_type: PageType) -> (r: Option<(TableIndex, &mut Table)>)
        ensures
            match r {
                Some((i, t)) => {
                    &&& i.0 < old(self).tables@.len()
                    &&& *t == old(self).tables@[i.0 as int]
                    &&& t.page_type == page_type
                    &&& forall|j: int| 0 <= j < i.0 ==> old(self).tables@[j].page_type != page_type
                    &&& final(self).tables@ == old(self).tables@.update(i.0 as int, *final(t))
                    &&& final(self).page_size == old(self).page_size
                    &&& final(self).num_tables == old(self).num_tables
                    &&& final(self).next_unused_page == old(self).next_unused_page
                    &&& final(self).unknown == old(self).unknown
                    &&& final(self).sequence == old(self).sequence
                },
                None => {
                    &&& forall|j: int|
                        0 <= j < old(self).tables@.len() ==> old(self).tables@[j].page_type != page_type
                    &&& *final(self) == *old(self)
                },
            },
    {
        let mut i: usize = 0;
        while i < self.tables.len()
            invariant
                i <= self.tables@.len(),
                *self == *old(self),
                forall|j: int| 0 <= j < i ==> self.tables@[j].page_type != page_type,
            decreases self.tables@.len() - i,
        {
            if self.tables[i].page_type == page_type {
                return Some((TableIndex(i), &mut self.tables[i]));
            }
            i = i + 1;
        }
        None
    }
}

/// The 28 bytes of a header's fixed part, read back word by word.
proof fn lemma_fixed_words(s: Seq<u8>, p: int, a: u32, b: u32, c: u32, d: u32, e: u32)
    requires
        0 <= p,
        p + 28 <= s.len(),
        s.subrange(p, p + 28) == bytes32(0) + bytes32(a) + bytes32(b) + bytes32(c) + bytes32(d)
            + bytes32(e) + bytes32(0),
    ensures
        le32(s, p) == 0,
        le32(s, p + 4) == a,
        le32(s, p + 8) == b,
        le32(s, p + 12) == c,
        le32(s, p + 16) == d,
        le32(s, p + 20) == e,
        le32(s, p + 24) == 0,
{
    let f = s.subrange(p, p + 28);
    assert(s.subrange(p, p + 4) =~= bytes32(0)) by {
        assert(s.subrange(p, p + 4) =~= f.subrange(0, 4));
    }
    assert(s.subrange(p + 4, p + 8) =~= bytes32(a)) by {
        assert(s.subrange(p + 4, p + 8) =~= f.subrange(4, 8));
    }
    assert(s.subrange(p + 8, p + 12) =~= bytes32(b)) by {
        assert(s.subrange(p + 8, p + 12) =~= f.subrange(8, 12));
    }
    assert(s.subrange(p + 12, p + 16) =~= bytes32(c)) by {
        assert(s.subrange(p + 12, p + 16) =~= f.subrange(12, 16));
    }
    assert(s.subrange(p + 16, p + 20) =~= bytes32(d)) by {
        assert(s.subrange(p + 16, p + 20) =~= f.subrange(16, 20));
    }
    assert(s.subrange(p + 20, p + 24) =~= bytes32(e)) by {
        assert(s.subrange(p + 20, p + 24) =~= f.subrange(20, 24));
    }
    assert(s.subrange(p + 24, p + 28) =~= bytes32(0)) by {
        assert(s.subrange(p + 24, p + 28) =~= f.subrange(24, 28));
    }
    lemma_le32_sub(s, p, 0);
    lemma_le32_sub(s, p + 4, a);
    lemma_le32_sub(s, p + 8, b);
    lemma_le32_sub(s, p + 12, c);
    lemma_le32_sub(s, p + 16, d);
    lemma_le32_sub(s, p + 20, e);
    lemma_le32_sub(s, p + 24, 0);
}

/// Decoding the encoding of a well-formed header, wherever it stands, gives the
/// header back and stops right after its bytes.
pub proof fn lemma_header_roundtrip(
    h: HeaderModel,
    db_type: DatabaseType,
    pre: Seq<u8>,
    post: Seq<u8>,
)
    requires
        h.spec_wf(db_type),
    ensures
        HeaderModel::spec_parse(pre + h.spec_bytes() + post, pre.len() as int, db_type) == Some(
            (h, pre.len() + h.spec_bytes().len() as int),
        ),
{
    let z = bytes32(0);
    let fixed = z + bytes32(h.page_size) + bytes32(h.num_tables) + bytes32(h.next_unused_page.0)
        + bytes32(h.unknown) + bytes32(h.sequence) + z;
    let tb = tables_bytes(h.tables);
    let s = pre + h.spec_bytes() + post;
    let p = pre.len() as int;
    assert(h.spec_bytes() =~= fixed + tb);
    assert(s =~= (pre + fixed) + tb + post);
    assert(fixed.len() == 28);
    lemma_tables_bytes_len(h.tables);
    assert(s.subrange(p, p + 28) =~= fixed);
    lemma_fixed_words(s, p, h.page_size, h.num_tables, h.next_unused_page.0, h.unknown, h.sequence);
    lemma_tables_roundtrip(h.tables, db_type, pre + fixed, post);
}


/// An entry of an index page: a page index in bits 31-3 and flags in bits 2-0.
#[derive(PartialEq, Eq, Clone, Copy, Structural, Debug)]
pub struct IndexEntry(pub u32);

/// The value of an empty index entry.
pub const EMPTY_INDEX_ENTRY: u32 = 0x1FFF_FFF8;

impl TryFrom<(PageIndex, u8)> for IndexEntry {
    type Error = PdbError;

    fn try_from(value: (PageIndex, u8)) -> (r: Result<IndexEntry, PdbError>) {
        let (page_index, index_flags) = value;
        if index_flags & 0b111 != index_flags {
            return Err(PdbError::InvalidIndexFlags(index_flags));
        }
        Ok(IndexEntry((page_index.0 << 3) | (index_flags & 0b111) as u32))
    }
}

impl vstd::std_specs::convert::TryFromSpecImpl<(PageIndex, u8)> for IndexEntry {
    open spec fn obeys_try_from_spec() -> bool {
        true
    }

    open spec fn try_from_spec(value: (PageIndex, u8)) -> Result<IndexEntry, PdbError> {
        if value.1 & 0b111 != value.1 {
            Err(PdbError::InvalidIndexFlags(value.1))
        } else {
            Ok(IndexEntry((value.0.0 << 3) | (value.1 & 0b111) as u32))
        }
    }
}

impl IndexEntry {
    /// Size of the index entry in bytes.
    pub const BINARY_SIZE: u32 = 4;

    /// Returns bits 31-3 as a `PageIndex`, which points to a data page of the
    /// same table; fails where they are not a valid page index.
    pub fn page_index(&self) -> (r: Result<PageIndex, PdbError>)
        ensures
            (self.0 >> 3) < PAGE_INDEX_LIMIT ==> r == Ok::<PageIndex, PdbError>(
                PageIndex(self.0 >> 3),
            ),
            (self.0 >> 3) >= PAGE_INDEX_LIMIT ==> r == Err::<PageIndex, PdbError>(
                PdbError::InvalidPageIndex(self.0 >> 3),
            ),
    {
        PageIndex::try_from(self.0 >> 3)
    }

    /// Returns the index flags from bits 2-0.
    pub fn index_flags(&self) -> (r: u8)
        ensures
            r == self.0 & 0b111,
    {
        let v = self.0;
        assert(v & 0b111 <= 7) by (bit_vector);
        (v & 0b111) as u8
    }

    /// Returns `true` if the entry is an empty slot.
    pub fn is_empty(&self) -> (r: bool)
        ensures
            r == (self.0 == EMPTY_INDEX_ENTRY),
    {
        self.0 == EMPTY_INDEX_ENTRY
    }

    /// Creates a new empty `IndexEntry`.
    pub fn empty() -> (r: IndexEntry)
        ensures
            r.0 == EMPTY_INDEX_ENTRY,
    {
        IndexEntry(EMPTY_INDEX_ENTRY)
    }

    /// Decodes the entry at `pos`.
    pub fn parse(data: &[u8], pos: usize) -> (r: Option<(IndexEntry, usize)>)
        requires
            pos <= data@.len(),
        ensures
            pos + 4 <= data@.len() ==> r == Some((IndexEntry(le32(data@, pos as int)), (pos + 4) as usize)),
            pos + 4 > data@.len() ==> r is None,
    {
        if data.len() - pos < 4 {
            None
        } else {
            Some((IndexEntry(read_u32(data, pos)), pos + 4))
        }
    }

    /// Appends the encoding of the entry.
    pub fn serialize(&self, out: &mut Vec<u8>)
        ensures
            final(out)@ == old(out)@ + bytes32(self.0),
    {
        push_u32(out, self.0);
    }
}

/// An entry made from a page index and flags gives both back.
pub proof fn lemma_index_entry_fields(page: PageIndex, flags: u8)
    requires
        page.0 < PAGE_INDEX_LIMIT,
        flags < 8,
    ensures
        ({
            let v = (page.0 << 3) | (flags & 0b111) as u32;
            &&& v >> 3 == page.0
            &&& v & 0b111 == flags as u32
        }),
{
    let p = page.0;
    let f = (flags & 0b111) as u32;
    assert(f == flags) by (bit_vector)
        requires
            flags < 8,
            f == (flags & 0b111) as u32,
    ;
    assert(((p << 3) | f) >> 3 == p && ((p << 3) | f) & 0b111 == f) by (bit_vector)
        requires
            p < 0x03FF_FFFF,
            f < 8,
    ;
}

/// Carries additional information about a row; bit `0x04` selects 16-bit offsets.
#[derive(Debug, PartialEq, Eq, Clone, Copy, Structural)]
pub struct Subtype(pub u16);

impl Subtype {
    /// The offset size selected by the subtype.
    pub open spec fn spec_offset_size(self) -> OffsetSize {
        if self.0 & 0x04 == 0 {
            OffsetSize::U8
        } else {
            OffsetSize::U16
        }
    }

    /// Returns `OffsetSize::U8` where the `0x04` bit is clear, `OffsetSize::U16` otherwise.
    pub fn get_offset_size(&self) -> (r: OffsetSize)
        ensures
            r == self.spec_offset_size(),
    {
        if self.0 & 0x04 == 0 {
            OffsetSize::U8
        } else {
            OffsetSize::U16
        }
    }
}

/// Identifies a track.
#[derive(Debug, PartialEq, Eq, Clone, Copy, Structural)]
pub struct TrackId(pub u32);

/// Identifies an artwork item.
#[derive(Debug, PartialEq, Eq, Clone, Copy, Structural)]
pub struct ArtworkId(pub u32);

/// Identifies an album.
#[derive(Debug, PartialEq, Eq, Clone, Copy, Structural)]
pub struct AlbumId(pub u32);

/// Identifies an artist.
#[derive(Debug, PartialEq, Eq, Clone, Copy, Structural)]
pub struct ArtistId(pub u32);

/// Identifies a genre.
#[derive(Debug, PartialEq, Eq, Clone, Copy, Structural)]
pub struct GenreId(pub u32);

/// Identifies a key.
#[derive(Debug, PartialEq, Eq, Clone, Copy, Structural)]
pub struct KeyId(pub u32);

/// Identifies a label.
#[derive(Debug, PartialEq, Eq, Clone, Copy, Structural)]
pub struct LabelId(pub u32);

/// Identifies a playlist tree node.
#[derive(Debug, PartialEq, Eq, Clone, Copy, Structural)]
pub struct PlaylistTreeNodeId(pub u32);

/// Identifies a history playlist.
#[derive(Debug, PartialEq, Eq, Clone, Copy, Structural)]
pub struct HistoryPlaylistId(pub u32);

/// Whether bit `i` of `flags` is set.
pub open spec fn bit_set(flags: u16, i: u16) -> bool {
    (flags >> i) & 1u16 == 1u16
}

/// The offsets of the present rows among the first `n` places of a row group,
/// place 0 first; place `i` keeps its offset at `row_offsets[15 - i]`.
pub open spec fn present_offsets_upto(row_offsets: Seq<u16>, flags: u16, n: nat) -> Seq<u16>
    decreases n,
{
    if n == 0 {
        Seq::empty()
    } else {
        let prev = present_offsets_upto(row_offsets, flags, (n - 1) as nat);
        if bit_set(flags, (n - 1) as u16) {
            prev.push(row_offsets[15 - (n - 1)])
        } else {
            prev
        }
    }
}

/// A group of up to sixteen row offsets, stored backwards from the end of the
/// page, with a bit mask that tells which rows are present.
#[derive(Debug, Clone, Copy)]
pub struct RowGroup {
    /// Offsets of rows in the page heap; place `i` of the group is stored at `15 - i`.
    pub row_offsets: [u16; 16],
    /// Bit `i` tells whether the row at place `i` is present.
    pub row_presence_flags: u16,
    /// Unknown field.
    pub unknown: u16,
}

impl RowGroup {
    /// Maximum number of rows in a row group.
    pub const MAX_ROW_COUNT: usize = 16;
    /// Size of `row_presence_flags` and `unknown` in bytes.
    pub const HEADER_SIZE: u16 = 4;
    /// Size of one row offset in bytes.
    pub const OFFSET_SIZE: u16 = 2;
    /// Size of an encoded row group in bytes.
    pub const BINARY_SIZE: u16 = 36;

    /// The offsets of the present rows, in the order of their places.
    pub open spec fn spec_present(self) -> Seq<u16> {
        present_offsets_upto(self.row_offsets@, self.row_presence_flags, 16)
    }

    /// A row group with no rows.
    pub fn empty() -> (r: RowGroup)
        ensures
            r.row_offsets@ == Seq::new(16, |i: int| 0u16),
            r.row_presence_flags == 0,
            r.unknown == 0,
    {
        let r = RowGroup { row_offsets: [0; 16], row_presence_flags: 0, unknown: 0 };
        assert(r.row_offsets@ =~= Seq::new(16, |i: int| 0u16));
        r
    }

    /// The offsets of the present rows, in the order of their places.
    pub fn present_rows_offsets(&self) -> (r: Vec<u16>)
        ensures
            r@ == self.spec_present(),
    {
        let mut r: Vec<u16> = Vec::new();
        let mut i: u16 = 0;
        while i < 16
            invariant
                i <= 16,
                self.row_offsets@.len() == 16,
                r@ == present_offsets_upto(self.row_offsets@, self.row_presence_flags, i as nat),
            decreases 16 - i,
        {
            if (self.row_presence_flags >> i) & 1 == 1 {
                r.push(self.row_offsets[(15 - i) as usize]);
            }
            i = i + 1;
        }
        r
    }

    /// Stores a row offset at place `subindex` without marking it present.
    pub fn insert_offset(&mut self, subindex: u16, offset: u16)
        requires
            subindex < 16,
        ensures
            final(self).row_offsets@ == old(self).row_offsets@.update(15 - subindex, offset),
            final(self).row_presence_flags == old(self).row_presence_flags,
            final(self).unknown == old(self).unknown,
    {
        self.row_offsets[(15 - subindex) as usize] = offset;
    }

    /// Marks the row at place `subindex` present.
    pub fn mark_offset_present(&mut self, subindex: u16)
        requires
            subindex < 16,
        ensures
            final(self).row_presence_flags == old(self).row_presence_flags | (1u16 << subindex),
            forall|j: u16|
                j < 16 ==> (bit_set(final(self).row_presence_flags, j) <==> (j == subindex
                    || bit_set(old(self).row_presence_flags, j))),
            final(self).row_offsets@ == old(self).row_offsets@,
            final(self).unknown == old(self).unknown,
    {
        let old_flags = self.row_presence_flags;
        self.row_presence_flags = self.row_presence_flags | (1u16 << subindex);
        let new_flags = self.row_presence_flags;
        assert forall|j: u16| j < 16 implies (bit_set(new_flags, j) <==> (j == subindex || bit_set(
            old_flags,
            j,
        ))) by {
            assert(((old_flags | (1u16 << subindex)) >> j) & 1u16 == 1u16 <==> (j == subindex || (
            old_flags >> j) & 1u16 == 1u16)) by (bit_vector)
                requires
                    j < 16,
                    subindex < 16,
            ;
        }
    }
}

impl Default for RowGroup {
    fn default() -> (r: RowGroup)
        ensures
            r.row_offsets@ == Seq::new(16, |i: int| 0u16),
            r.row_presence_flags == 0,
            r.unknown == 0,
    {
        Self::empty()
    }
}

impl PartialEq for RowGroup {
    fn eq(&self, other: &Self) -> (r: bool) {
        if self.unknown != other.unknown {
            return false;
        }
        let a = self.present_rows_offsets();
        let b = other.present_rows_offsets();
        if a.len() != b.len() {
            return false;
        }
        let mut i: usize = 0;
        while i < a.len()
            invariant
                a@ == self.spec_present(),
                b@ == other.spec_present(),
                a@.len() == b@.len(),
                i <= a@.len(),
                forall|k: int| 0 <= k < i ==> a@[k] == b@[k],
            decreases a@.len() - i,
        {
            if a[i] != b[i] {
                return false;
            }
            i = i + 1;
        }
        assert(a@ =~= b@);
        true
    }
}

impl vstd::std_specs::cmp::PartialEqSpecImpl for RowGroup {
    open spec fn obeys_eq_spec() -> bool {
        true
    }

    open spec fn eq_spec(&self, other: &Self) -> bool {
        self.unknown == other.unknown && self.spec_present() == other.spec_present()
    }
}

/// The codes of the plain page types: tracks 0, genres 1, artists 2, albums
/// 3, labels 4, keys 5, colors 6, playlist tree 7, playlist entries 8,
/// history playlists 11, history entries 12, artwork 13, columns 16, menu 17
/// and history 19. Every code that names a page type is that type's code, and
/// every type but history reads back from its code.
pub proof fn lemma_plain_page_type_codes()
    ensures
        PlainPageType::Tracks.spec_to_u32() == 0,
        PlainPageType::Genres.spec_to_u32() == 1,
        PlainPageType::Artists.spec_to_u32() == 2,
        PlainPageType::Albums.spec_to_u32() == 3,
        PlainPageType::Labels.spec_to_u32() == 4,
        PlainPageType::Keys.spec_to_u32() == 5,
        PlainPageType::Colors.spec_to_u32() == 6,
        PlainPageType::PlaylistTree.spec_to_u32() == 7,
        PlainPageType::PlaylistEntries.spec_to_u32() == 8,
        PlainPageType::HistoryPlaylists.spec_to_u32() == 11,
        PlainPageType::HistoryEntries.spec_to_u32() == 12,
        PlainPageType::Artwork.spec_to_u32() == 13,
        PlainPageType::Columns.spec_to_u32() == 16,
        PlainPageType::Menu.spec_to_u32() == 17,
        PlainPageType::History.spec_to_u32() == 19,
        forall|v: u32| #[trigger] PlainPageType::spec_from_u32(v) matches Some(t) ==> t.spec_to_u32() == v,
        forall|t: PlainPageType|
            t != PlainPageType::History ==> #[trigger] PlainPageType::spec_from_u32(t.spec_to_u32()) == Some(t),
        forall|v: u32|
            #[trigger] PlainPageType::spec_from_u32(v) is None <==> !(v <= 8 || v == 11 || v == 12 || v == 13
                || v == 16 || v == 17),
{
}

} // verus!
